//! Text primitives.
//!
//! Every contract here speaks of a string as the sequence of its characters;
//! the byte offsets at which the executable code cuts a `str` stay inside this
//! module.

use vstd::prelude::*;
use vstd::string::*;
use vstd::utf8::*;

verus! {

/// The characters with the Unicode property `White_Space`.
pub open spec fn whitespace(c: char) -> bool {
    let u = c as u32;
    ||| 0x09 <= u <= 0x0d
    ||| u == 0x20
    ||| u == 0x85
    ||| u == 0xa0
    ||| u == 0x1680
    ||| 0x2000 <= u <= 0x200a
    ||| u == 0x2028
    ||| u == 0x2029
    ||| u == 0x202f
    ||| u == 0x205f
    ||| u == 0x3000
}

/// The characters of the Unicode general category `Cc`.
pub open spec fn control(c: char) -> bool {
    c as u32 <= 0x1f || 0x7f <= c as u32 <= 0x9f
}

/// Whether `c` is white space.
pub fn is_whitespace(c: char) -> (r: bool)
    ensures
        r == whitespace(c),
{
    let u: u32 = c as u32;
    (0x09 <= u && u <= 0x0d) || u == 0x20 || u == 0x85 || u == 0xa0 || u == 0x1680 || (0x2000 <= u
        && u <= 0x200a) || u == 0x2028 || u == 0x2029 || u == 0x202f || u == 0x205f || u == 0x3000
}

/// Whether `c` is a control character.
pub fn is_control(c: char) -> (r: bool)
    ensures
        r == control(c),
{
    let u: u32 = c as u32;
    u <= 0x1f || (0x7f <= u && u <= 0x9f)
}

// ---------------------------------------------------------------------------
// UTF-8 offsets
// ---------------------------------------------------------------------------

/// The encoding of a concatenation is the concatenation of the encodings.
proof fn lemma_encode_concat(a: Seq<char>, b: Seq<char>)
    ensures
        encode_utf8(a + b) == encode_utf8(a) + encode_utf8(b),
    decreases a.len(),
{
    if a.len() == 0 {
        assert(a + b =~= b);
        assert(encode_utf8(a) + encode_utf8(b) =~= encode_utf8(b));
    } else {
        lemma_encode_concat(a.drop_first(), b);
        assert((a + b).drop_first() =~= a.drop_first() + b);
        assert(encode_utf8(a + b) =~= encode_utf8(a) + encode_utf8(b));
    }
}

/// The end of an encoded prefix is a character boundary.
proof fn lemma_prefix_boundary(a: Seq<char>, b: Seq<char>)
    ensures
        is_char_boundary(encode_utf8(a + b), encode_utf8(a).len() as int),
    decreases a.len(),
{
    let bytes = encode_utf8(a + b);
    encode_utf8_valid_utf8(a + b);
    lemma_encode_concat(a, b);
    if a.len() > 0 {
        let tail = a.drop_first();
        encode_utf8_first_scalar(a + b);
        assert((a + b).drop_first() =~= tail + b);
        assert(pop_first_scalar(bytes) =~= encode_utf8(tail + b));
        lemma_prefix_boundary(tail, b);
    }
}

/// Two character sequences with one encoding are the same.
proof fn lemma_encode_injective(a: Seq<char>, b: Seq<char>)
    requires
        encode_utf8(a) == encode_utf8(b),
    ensures
        a == b,
{
    encode_utf8_decode_utf8(a);
    encode_utf8_decode_utf8(b);
}

/// Cuts `text` after its first `n` characters, which take `offset` bytes.
fn cut(text: &str, offset: usize, Ghost(n): Ghost<int>) -> (r: (&str, &str))
    requires
        0 <= n <= text@.len(),
        offset == encode_utf8(text@.take(n)).len(),
    ensures
        r.0@ == text@.take(n),
        r.1@ == text@.skip(n),
{
    proof {
        assert(text@ =~= text@.take(n) + text@.skip(n));
        lemma_encode_concat(text@.take(n), text@.skip(n));
        lemma_prefix_boundary(text@.take(n), text@.skip(n));
    }
    let r = text.split_at(offset);
    proof {
        assert(text.spec_bytes().subrange(0, offset as int) =~= encode_utf8(text@.take(n)));
        assert(text.spec_bytes().subrange(offset as int, text.spec_bytes().len() as int)
            =~= encode_utf8(text@.skip(n)));
        lemma_encode_injective(r.0@, text@.take(n));
        lemma_encode_injective(r.1@, text@.skip(n));
    }
    r
}

/// How many bytes the encoding of `c` takes.
fn char_width(c: char) -> (w: usize)
    ensures
        w == encode_scalar(c as u32).len(),
{
    let u: u32 = c as u32;
    if u <= 0x7f {
        1
    } else if u <= 0x7ff {
        2
    } else if u <= 0xffff {
        3
    } else {
        4
    }
}

/// The first character of `text` and what follows it.
pub fn pop_char(text: &str) -> (r: Option<(char, &str)>)
    ensures
        match r {
            Some((c, rest)) => text@.len() > 0 && c == text@[0] && rest@ == text@.drop_first(),
            None => text@.len() == 0,
        },
{
    let mut chars = text.chars();
    match chars.next() {
        None => None,
        Some(c) => {
            proof {
                let head = text@.take(1);
                assert(head.drop_first() =~= Seq::<char>::empty());
                assert(encode_utf8(head) =~= encode_scalar(c as u32)) by {
                    reveal_with_fuel(encode_utf8, 2);
                }
                assert(text@.skip(1) =~= text@.drop_first());
            }
            let (_, rest) = cut(text, char_width(c), Ghost(1));
            Some((c, rest))
        },
    }
}

/// How many bytes the encoding of `text` takes.
pub fn byte_len(text: &str) -> (n: usize)
    ensures
        n == encode_utf8(text@).len(),
{
    text.as_bytes().len()
}

/// What stands in `text` before its suffix `rest`.
pub fn before<'a>(text: &'a str, rest: &str) -> (r: &'a str)
    requires
        rest@.len() <= text@.len(),
        rest@ == text@.skip(text@.len() - rest@.len()),
    ensures
        r@ == text@.take(text@.len() - rest@.len()),
{
    let ghost n = text@.len() - rest@.len();
    proof {
        assert(text@ =~= text@.take(n) + text@.skip(n));
        lemma_encode_concat(text@.take(n), text@.skip(n));
    }
    cut(text, byte_len(text) - byte_len(rest), Ghost(n)).0
}

/// Whether two strings hold the same characters.
pub fn str_eq(a: &str, b: &str) -> (r: bool)
    ensures
        r == (a@ == b@),
{
    let x = a.as_bytes();
    let y = b.as_bytes();
    if x.len() != y.len() {
        return false;
    }
    let mut i: usize = 0;
    while i < x.len()
        invariant
            i <= x@.len(),
            x@.len() == y@.len(),
            x@ == encode_utf8(a@),
            y@ == encode_utf8(b@),
            forall|j: int| 0 <= j < i ==> x@[j] == y@[j],
        decreases x@.len() - i,
    {
        if x[i] != y[i] {
            return false;
        }
        i += 1;
    }
    proof {
        assert(x@ =~= y@);
        lemma_encode_injective(a@, b@);
    }
    true
}

// ---------------------------------------------------------------------------
// Prefixes and searching
// ---------------------------------------------------------------------------

/// What follows `prefix` in `text`, where `text` begins with it.
pub fn strip_prefix<'a>(text: &'a str, prefix: &str) -> (r: Option<&'a str>)
    ensures
        match r {
            Some(rest) => prefix@.is_prefix_of(text@) && rest@ == text@.skip(prefix@.len() as int),
            None => !prefix@.is_prefix_of(text@),
        },
{
    let mut rest = text;
    let mut wanted = prefix;
    let ghost mut n: int = 0;
    proof {
        assert(text@.skip(0) =~= text@);
        assert(prefix@.skip(0) =~= prefix@);
    }
    loop
        invariant
            0 <= n <= text@.len(),
            n <= prefix@.len(),
            rest@ == text@.skip(n),
            wanted@ == prefix@.skip(n),
            forall|j: int| 0 <= j < n ==> text@[j] == prefix@[j],
        decreases prefix@.len() - n,
    {
        match pop_char(wanted) {
            None => {
                assert(prefix@ =~= text@.subrange(0, prefix@.len() as int));
                return Some(rest);
            },
            Some((c, wanted_rest)) => {
                assert(c == prefix@[n]);
                match pop_char(rest) {
                    None => {
                        return None;
                    },
                    Some((d, text_rest)) => {
                        assert(d == text@[n]);
                        if c != d {
                            assert(prefix@.is_prefix_of(text@) ==> prefix@[n] == text@.subrange(
                                0,
                                prefix@.len() as int,
                            )[n]);
                            return None;
                        }
                        proof {
                            assert(text@.skip(n).drop_first() =~= text@.skip(n + 1));
                            assert(prefix@.skip(n).drop_first() =~= prefix@.skip(n + 1));
                            n = n + 1;
                        }
                        rest = text_rest;
                        wanted = wanted_rest;
                    },
                }
            },
        }
    }
}

/// Whether `text` begins with `prefix`.
pub fn starts_with(text: &str, prefix: &str) -> (r: bool)
    ensures
        r == prefix@.is_prefix_of(text@),
{
    strip_prefix(text, prefix).is_some()
}

/// Where `needle` first occurs in `s`.
pub open spec fn find(s: Seq<char>, needle: Seq<char>) -> Option<int>
    decreases s.len(),
{
    if needle.is_prefix_of(s) {
        Some(0)
    } else if s.len() == 0 {
        None
    } else {
        match find(s.drop_first(), needle) {
            Some(i) => Some(i + 1),
            None => None,
        }
    }
}

/// Whether `needle` stands in `s` at `i`.
pub open spec fn occurs_at(s: Seq<char>, needle: Seq<char>, i: int) -> bool {
    0 <= i && i + needle.len() <= s.len() && s.subrange(i, i + needle.len()) == needle
}

/// `find` gives the least position at which the needle occurs, if there is one.
pub proof fn find_is_first(s: Seq<char>, needle: Seq<char>)
    ensures
        match find(s, needle) {
            Some(i) => occurs_at(s, needle, i) && forall|j: int| occurs_at(s, needle, j) ==> i <= j,
            None => forall|j: int| !occurs_at(s, needle, j),
        },
    decreases s.len(),
{
    if needle.is_prefix_of(s) {
    } else if s.len() == 0 {
        assert forall|j: int| !occurs_at(s, needle, j) by {
            if occurs_at(s, needle, j) {
                assert(needle =~= s.subrange(0, 0));
            }
        }
    } else {
        let t = s.drop_first();
        find_is_first(t, needle);
        assert forall|j: int| occurs_at(s, needle, j) implies j >= 1 && occurs_at(t, needle, j - 1) by {
            if j == 0 {
                assert(s.subrange(0, needle.len() as int) == needle);
            } else {
                assert(t.subrange(j - 1, j - 1 + needle.len()) =~= s.subrange(j, j + needle.len()));
            }
        }
        if let Some(i) = find(t, needle) {
            assert(s.subrange(i + 1, i + 1 + needle.len()) =~= t.subrange(i, i + needle.len()));
        }
    }
}

/// What follows the first occurrence of `needle` in `text`.
pub fn after_first<'a>(text: &'a str, needle: &str) -> (r: Option<&'a str>)
    ensures
        match r {
            Some(rest) => find(text@, needle@) matches Some(i) && rest@ == text@.skip(
                i + needle@.len(),
            ),
            None => find(text@, needle@) is None,
        },
{
    let mut rest = text;
    let ghost mut n: int = 0;
    proof {
        assert(text@.skip(0) =~= text@);
    }
    loop
        invariant
            0 <= n <= text@.len(),
            rest@ == text@.skip(n),
            find(text@, needle@) == (match find(rest@, needle@) {
                Some(i) => Some(i + n),
                None => None::<int>,
            }),
        decreases text@.len() - n,
    {
        if let Some(tail) = strip_prefix(rest, needle) {
            assert(text@.skip(n).skip(needle@.len() as int) =~= text@.skip(n + needle@.len()));
            return Some(tail);
        }
        match pop_char(rest) {
            None => {
                return None;
            },
            Some((_, next)) => {
                proof {
                    assert(text@.skip(n).drop_first() =~= text@.skip(n + 1));
                    n = n + 1;
                }
                rest = next;
            },
        }
    }
}

// ---------------------------------------------------------------------------
// Trimming
// ---------------------------------------------------------------------------

/// `s` without its leading white space.
pub open spec fn trimmed_start(s: Seq<char>) -> Seq<char>
    decreases s.len(),
{
    if s.len() > 0 && whitespace(s[0]) {
        trimmed_start(s.drop_first())
    } else {
        s
    }
}

/// `s` without its trailing white space.
pub open spec fn trimmed_end(s: Seq<char>) -> Seq<char>
    decreases s.len(),
{
    if s.len() > 0 && whitespace(s.last()) {
        trimmed_end(s.drop_last())
    } else {
        s
    }
}

/// `s` without its leading and trailing white space.
pub open spec fn trimmed(s: Seq<char>) -> Seq<char> {
    trimmed_end(trimmed_start(s))
}

/// Whether `s` holds nothing but white space.
pub open spec fn blank(s: Seq<char>) -> bool {
    forall|i: int| 0 <= i < s.len() ==> whitespace(#[trigger] s[i])
}

/// Trimming leaves nothing exactly of what is blank.
pub proof fn blank_is_trimmed_empty(s: Seq<char>)
    ensures
        blank(s) <==> trimmed(s).len() == 0,
        blank(s) <==> trimmed_start(s).len() == 0,
{
    trimmed_start_is_suffix(s);
    lemma_trimmed_end(trimmed_start(s));
}

/// What is trimmed off the start is all the white space there.
pub proof fn trimmed_start_is_suffix(s: Seq<char>)
    ensures
        trimmed_start(s).len() <= s.len(),
        trimmed_start(s) == s.skip(s.len() - trimmed_start(s).len()),
        blank(s.take(s.len() - trimmed_start(s).len())),
        trimmed_start(s).len() > 0 ==> !whitespace(trimmed_start(s)[0]),
        blank(s) <==> trimmed_start(s).len() == 0,
    decreases s.len(),
{
    if s.len() > 0 && whitespace(s[0]) {
        let t = s.drop_first();
        trimmed_start_is_suffix(t);
        let n = t.len() - trimmed_start(t).len();
        assert(t.skip(n) =~= s.skip(n + 1));
        assert forall|i: int| 0 <= i < n + 1 implies whitespace(#[trigger] s.take(n + 1)[i]) by {
            if i > 0 {
                assert(whitespace(t.take(n)[i - 1]));
            }
        }
        if blank(t) {
            assert forall|i: int| 0 <= i < s.len() implies whitespace(#[trigger] s[i]) by {
                if i > 0 {
                    assert(whitespace(t[i - 1]));
                }
            }
        }
        if blank(s) {
            assert forall|i: int| 0 <= i < t.len() implies whitespace(#[trigger] t[i]) by {
                assert(whitespace(s[i + 1]));
            }
        }
    } else {
        assert(s.skip(0) =~= s);
    }
}

proof fn lemma_trimmed_end(s: Seq<char>)
    ensures
        trimmed_end(s).len() <= s.len(),
        trimmed_end(s) == s.take(trimmed_end(s).len() as int),
        trimmed_end(s).len() > 0 ==> !whitespace(trimmed_end(s).last()),
        blank(s) <==> trimmed_end(s).len() == 0,
    decreases s.len(),
{
    if s.len() > 0 && whitespace(s.last()) {
        let t = s.drop_last();
        lemma_trimmed_end(t);
        assert(t.take(trimmed_end(t).len() as int) =~= s.take(trimmed_end(t).len() as int));
        if blank(t) {
            assert forall|i: int| 0 <= i < s.len() implies whitespace(#[trigger] s[i]) by {
                if i < t.len() {
                    assert(whitespace(t[i]));
                }
            }
        }
        if blank(s) {
            assert forall|i: int| 0 <= i < t.len() implies whitespace(#[trigger] t[i]) by {
                assert(whitespace(s[i]));
            }
        }
    } else {
        assert(s.take(s.len() as int) =~= s);
    }
}

/// What is left of `s` by trimming stands in it, behind the white space that it
/// starts with.
pub proof fn trimmed_is_within(s: Seq<char>)
    ensures
        trimmed_start(s).len() <= s.len(),
        trimmed(s).len() <= trimmed_start(s).len(),
        trimmed(s) == s.subrange(
            s.len() - trimmed_start(s).len(),
            s.len() - trimmed_start(s).len() + trimmed(s).len(),
        ),
{
    trimmed_start_is_suffix(s);
    lemma_trimmed_end(trimmed_start(s));
    let start = s.len() - trimmed_start(s).len();
    assert(trimmed(s) =~= s.subrange(start, start + trimmed(s).len()));
}

/// `text` without its leading white space.
pub fn trim_start(text: &str) -> (r: &str)
    ensures
        r@ == trimmed_start(text@),
{
    let mut rest = text;
    loop
        invariant
            trimmed_start(rest@) == trimmed_start(text@),
        decreases rest@.len(),
    {
        match pop_char(rest) {
            Some((c, next)) if is_whitespace(c) => {
                rest = next;
            },
            _ => {
                return rest;
            },
        }
    }
}

/// `text` without its trailing white space.
pub fn trim_end(text: &str) -> (r: &str)
    ensures
        r@ == trimmed_end(text@),
{
    let mut rest = text;
    let mut tail = text;
    let ghost mut n: int = 0;
    let ghost mut kept: int = 0;
    proof {
        assert(text@.skip(0) =~= text@);
        assert(trimmed_end(text@.take(0)) =~= text@.take(0));
    }
    loop
        invariant
            0 <= kept <= n <= text@.len(),
            rest@ == text@.skip(n),
            tail@ == text@.skip(kept),
            trimmed_end(text@.take(n)) == text@.take(kept),
        decreases text@.len() - n,
    {
        match pop_char(rest) {
            None => {
                assert(text@.take(n) =~= text@);
                return before(text, tail);
            },
            Some((c, next)) => {
                proof {
                    assert(text@.skip(n).drop_first() =~= text@.skip(n + 1));
                    assert(text@.take(n + 1).drop_last() =~= text@.take(n));
                    assert(text@.take(n + 1).last() == c);
                    n = n + 1;
                }
                rest = next;
                if !is_whitespace(c) {
                    tail = next;
                    proof {
                        kept = n;
                    }
                }
            },
        }
    }
}

/// `text` without its leading and trailing white space.
pub fn trim(text: &str) -> (r: &str)
    ensures
        r@ == trimmed(text@),
{
    trim_end(trim_start(text))
}

/// Whether `text` holds nothing but white space.
pub fn is_blank(text: &str) -> (r: bool)
    ensures
        r == blank(text@),
{
    proof {
        blank_is_trimmed_empty(text@);
    }
    trim_start(text).is_empty()
}

// ---------------------------------------------------------------------------
// Lines
// ---------------------------------------------------------------------------

/// How many characters of `s` stand before its first line feed.
pub open spec fn until_newline(s: Seq<char>) -> int
    decreases s.len(),
{
    if s.len() == 0 || s[0] == '\n' {
        0
    } else {
        1 + until_newline(s.drop_first())
    }
}

/// `s` without one carriage return at its end.
pub open spec fn without_carriage_return(s: Seq<char>) -> Seq<char> {
    if s.len() > 0 && s.last() == '\r' {
        s.drop_last()
    } else {
        s
    }
}

/// The lines of `s`. A line ends at a line feed, or at a carriage return with
/// a line feed behind it; the line holds neither. The last line need not end.
pub open spec fn lines(s: Seq<char>) -> Seq<Seq<char>>
    decreases s.len(),
{
    if s.len() == 0 {
        Seq::empty()
    } else {
        proof {
            until_newline_bounds(s);
        }
        let n = until_newline(s);
        if n == s.len() {
            seq![s]
        } else {
            seq![without_carriage_return(s.take(n))] + lines(s.skip(n + 1))
        }
    }
}

/// The first line feed is the first, and nothing before it is one.
pub proof fn until_newline_bounds(s: Seq<char>)
    ensures
        0 <= until_newline(s) <= s.len(),
        until_newline(s) < s.len() ==> s[until_newline(s)] == '\n',
        forall|i: int| 0 <= i < until_newline(s) ==> s[i] != '\n',
    decreases s.len(),
{
    if s.len() == 0 || s[0] == '\n' {
    } else {
        let t = s.drop_first();
        until_newline_bounds(t);
        assert forall|i: int| 0 <= i < until_newline(s) implies s[i] != '\n' by {
            if i > 0 {
                assert(t[i - 1] != '\n');
            }
        }
    }
}

/// The characters of a string that may be absent.
pub open spec fn optional_chars(value: Option<String>) -> Option<Seq<char>> {
    match value {
        Some(chars) => Some(chars@),
        None => None,
    }
}

/// The views of the strings in `parts`.
pub open spec fn views(parts: Seq<&str>) -> Seq<Seq<char>> {
    parts.map_values(|part: &str| part@)
}

/// The first line of `text`, and what follows it.
fn next_line(text: &str) -> (r: (&str, &str))
    requires
        text@.len() > 0,
    ensures
        r.1@.len() < text@.len(),
        lines(text@) == seq![r.0@] + lines(r.1@),
{
    let mut rest = text;
    let mut before_return = text;
    let mut after_return = false;
    let ghost mut n: int = 0;
    proof {
        until_newline_bounds(text@);
        assert(text@.skip(0) =~= text@);
    }
    loop
        invariant
            0 <= n <= until_newline(text@) <= text@.len(),
            rest@ == text@.skip(n),
            until_newline(text@) == n + until_newline(rest@),
            after_return == (n > 0 && text@[n - 1] == '\r'),
            after_return ==> before_return@ == text@.skip(n - 1),
            text@.len() > 0,
        decreases text@.len() - n,
    {
        match pop_char(rest) {
            None => {
                proof {
                    assert(lines(rest@) =~= Seq::empty());
                    assert(lines(text@) =~= seq![text@] + lines(rest@));
                }
                return (text, rest);
            },
            Some((c, next)) => {
                proof {
                    assert(text@.skip(n).drop_first() =~= text@.skip(n + 1));
                    assert(c == text@[n]);
                    until_newline_bounds(next@);
                }
                if c == '\n' {
                    let line = if after_return {
                        before(text, before_return)
                    } else {
                        before(text, rest)
                    };
                    proof {
                        assert(line@ =~= without_carriage_return(text@.take(n)));
                    }
                    return (line, next);
                }
                before_return = rest;
                after_return = c == '\r';
                rest = next;
                proof {
                    n = n + 1;
                }
            },
        }
    }
}

/// The lines of `text`.
pub fn split_lines(text: &str) -> (r: Vec<&str>)
    ensures
        views(r@) == lines(text@),
{
    let mut found: Vec<&str> = Vec::new();
    let mut rest = text;
    proof {
        until_newline_bounds(text@);
        assert(views(found@) + lines(text@) =~= lines(text@));
    }
    while !rest.is_empty()
        invariant
            views(found@) + lines(rest@) == lines(text@),
        decreases rest@.len(),
    {
        let (line, next) = next_line(rest);
        proof {
            assert(views(found@) + lines(rest@) =~= views(found@.push(line)) + lines(next@));
        }
        found.push(line);
        rest = next;
    }
    proof {
        until_newline_bounds(rest@);
        assert(views(found@) + lines(rest@) =~= views(found@));
    }
    found
}

// ---------------------------------------------------------------------------
// Joining and cutting
// ---------------------------------------------------------------------------

/// `parts` one behind the other, with `separator` between any two.
pub open spec fn joined(parts: Seq<Seq<char>>, separator: Seq<char>) -> Seq<char>
    decreases parts.len(),
{
    if parts.len() == 0 {
        Seq::empty()
    } else if parts.len() == 1 {
        parts[0]
    } else {
        joined(parts.drop_last(), separator) + separator + parts.last()
    }
}

/// The strings in `parts` one behind the other, with `separator` between any
/// two.
pub fn join(parts: &Vec<&str>, separator: &str) -> (r: String)
    ensures
        r@ == joined(views(parts@), separator@),
{
    let mut out = String::new();
    let mut i: usize = 0;
    while i < parts.len()
        invariant
            i <= parts@.len(),
            out@ == joined(views(parts@.take(i as int)), separator@),
        decreases parts@.len() - i,
    {
        proof {
            assert(views(parts@.take(i + 1)).drop_last() =~= views(parts@.take(i as int)));
            assert(views(parts@.take(i + 1)).last() == parts@[i as int]@);
        }
        if i > 0 {
            out.append(separator);
        }
        out.append(parts[i]);
        proof {
            if i == 0 {
                assert(out@ =~= parts@[0]@);
            }
        }
        i += 1;
    }
    assert(parts@.take(i as int) =~= parts@);
    out
}

/// The first `limit` characters of `s`, or all of them.
pub open spec fn at_most(s: Seq<char>, limit: nat) -> Seq<char> {
    if s.len() <= limit {
        s
    } else {
        s.take(limit as int)
    }
}

/// The first `limit` characters of `text`, or all of them.
pub fn take_chars(text: &str, limit: usize) -> (r: &str)
    ensures
        r@ == at_most(text@, limit as nat),
{
    let mut rest = text;
    let mut n: usize = 0;
    proof {
        assert(text@.skip(0) =~= text@);
    }
    while n < limit
        invariant
            n <= limit,
            n <= text@.len(),
            rest@ == text@.skip(n as int),
        decreases limit - n,
    {
        match pop_char(rest) {
            None => {
                return text;
            },
            Some((_, next)) => {
                proof {
                    assert(text@.skip(n as int).drop_first() =~= text@.skip(n + 1));
                }
                rest = next;
                n += 1;
            },
        }
    }
    proof {
        assert(text@.len() == n ==> text@.take(n as int) =~= text@);
    }
    before(text, rest)
}

/// Whether some character of `text` is a control character.
pub fn has_control(text: &str) -> (r: bool)
    ensures
        r == exists|i: int| 0 <= i < text@.len() && control(#[trigger] text@[i]),
{
    let mut rest = text;
    let ghost mut n: int = 0;
    proof {
        assert(text@.skip(0) =~= text@);
    }
    loop
        invariant
            0 <= n <= text@.len(),
            rest@ == text@.skip(n),
            forall|i: int| 0 <= i < n ==> !control(#[trigger] text@[i]),
        decreases text@.len() - n,
    {
        match pop_char(rest) {
            None => {
                return false;
            },
            Some((c, next)) => {
                assert(c == text@[n]);
                if is_control(c) {
                    return true;
                }
                proof {
                    assert(text@.skip(n).drop_first() =~= text@.skip(n + 1));
                    n = n + 1;
                }
                rest = next;
            },
        }
    }
}

// ---------------------------------------------------------------------------
// Decoding
// ---------------------------------------------------------------------------

/// Calls `std::str::from_utf8`. Claimed of it: it accepts exactly the valid
/// UTF-8 encodings, and what it gives back is encoded by the very bytes.
#[verifier::external_body]
fn str_from_utf8(bytes: &[u8]) -> (r: Result<&str, std::str::Utf8Error>)
    ensures
        r is Ok <==> valid_utf8(bytes@),
        r matches Ok(text) ==> encode_utf8(text@) == bytes@,
{
    std::str::from_utf8(bytes)
}

/// `std::str::Utf8Error`, which is only carried.
#[verifier::external_type_specification]
#[verifier::external_body]
pub struct ExUtf8Error(std::str::Utf8Error);

/// The text that `bytes` encode.
pub fn decode(bytes: &[u8]) -> (r: Option<&str>)
    ensures
        match r {
            Some(text) => valid_utf8(bytes@) && text@ == decode_utf8(bytes@),
            None => !valid_utf8(bytes@),
        },
{
    match str_from_utf8(bytes) {
        Ok(text) => {
            proof {
                encode_utf8_decode_utf8(text@);
            }
            Some(text)
        },
        Err(_) => None,
    }
}

// ---------------------------------------------------------------------------
// Laws
// ---------------------------------------------------------------------------

/// Trimming removes all the white space around a text and nothing else: the text
/// is what is left, with white space before it and behind it, and what is left
/// neither starts nor ends with any.
pub proof fn trimming_removes_the_white_space_around(s: Seq<char>)
    ensures
        exists|before: Seq<char>, behind: Seq<char>|
            s == #[trigger] (before + trimmed(s) + behind) && (forall|i: int|
                0 <= i < before.len() ==> whitespace(#[trigger] before[i])) && (forall|i: int|
                0 <= i < behind.len() ==> whitespace(#[trigger] behind[i])),
        trimmed(s).len() > 0 ==> !whitespace(trimmed(s)[0]) && !whitespace(trimmed(s).last()),
        exists|before: Seq<char>|
            s == #[trigger] (before + trimmed_start(s)) && forall|i: int|
                0 <= i < before.len() ==> whitespace(#[trigger] before[i]),
        trimmed_start(s).len() > 0 ==> !whitespace(trimmed_start(s)[0]),
{
    let t = trimmed_start(s);
    trimmed_start_is_suffix(s);
    lemma_trimmed_end(t);
    lemma_trimmed_off_end(t);
    let before = s.take(s.len() - t.len());
    let behind = t.skip(trimmed(s).len() as int);
    assert(s =~= before + t);
    assert(s =~= before + trimmed(s) + behind);
    assert(s == before + trimmed(s) + behind && s == before + t);
}

proof fn lemma_trimmed_off_end(s: Seq<char>)
    ensures
        trimmed_end(s).len() <= s.len(),
        forall|i: int| trimmed_end(s).len() <= i < s.len() ==> whitespace(#[trigger] s[i]),
    decreases s.len(),
{
    if s.len() > 0 && whitespace(s.last()) {
        lemma_trimmed_off_end(s.drop_last());
        assert forall|i: int| trimmed_end(s).len() <= i < s.len() implies whitespace(
            #[trigger] s[i],
        ) by {
            if i < s.len() - 1 {
                assert(whitespace(s.drop_last()[i]));
            }
        }
    }
}

/// An empty text has no lines, and a text without a line feed is one line.
pub proof fn text_without_line_feeds_is_one_line(s: Seq<char>)
    requires
        forall|i: int| 0 <= i < s.len() ==> s[i] != '\n',
    ensures
        s.len() == 0 ==> lines(s) == Seq::<Seq<char>>::empty(),
        s.len() > 0 ==> lines(s) == seq![s],
{
    until_newline_bounds(s);
}

/// A line ends at a line feed, or at a carriage return with a line feed behind
/// it, and what follows is split in the same way.
pub proof fn lines_end_at_line_feeds(line: Seq<char>, rest: Seq<char>)
    requires
        forall|i: int| 0 <= i < line.len() ==> line[i] != '\n',
    ensures
        line.len() == 0 || line.last() != '\r' ==> lines(line + seq!['\n'] + rest) == seq![line]
            + lines(rest),
        lines(line + seq!['\r', '\n'] + rest) == seq![line] + lines(rest),
{
    let n = line.len() as int;
    let plain = line + seq!['\n'] + rest;
    lemma_until_newline(plain, n);
    assert(plain.take(n) =~= line);
    assert(plain.skip(n + 1) =~= rest);
    let returned = line + seq!['\r', '\n'] + rest;
    assert forall|i: int| 0 <= i < n + 1 implies returned[i] != '\n' by {}
    lemma_until_newline(returned, n + 1);
    assert(returned.take(n + 1) =~= line.push('\r'));
    assert(line.push('\r').drop_last() =~= line);
    assert(returned.skip(n + 2) =~= rest);
}

proof fn lemma_until_newline(s: Seq<char>, at: int)
    requires
        0 <= at < s.len(),
        s[at] == '\n',
        forall|i: int| 0 <= i < at ==> s[i] != '\n',
    ensures
        until_newline(s) == at,
{
    until_newline_bounds(s);
    let n = until_newline(s);
    if n > at {
        assert(s[at] != '\n');
    }
}

/// A line that follows a text of ended lines is one more line.
pub proof fn a_further_line_comes_last(s: Seq<char>, line: Seq<char>)
    requires
        s.len() == 0 || s.last() == '\n',
        line.len() > 0,
        forall|i: int| 0 <= i < line.len() ==> line[i] != '\n',
    ensures
        lines(s + line) == lines(s).push(line),
    decreases s.len(),
{
    if s.len() == 0 {
        assert(s + line =~= line);
        text_without_line_feeds_is_one_line(line);
        assert(lines(s).push(line) =~= seq![line]);
    } else {
        until_newline_bounds(s);
        let n = until_newline(s);
        if n == s.len() {
            assert(s[s.len() - 1] != '\n');
        }
        let whole = s + line;
        lemma_until_newline(whole, n);
        assert(whole.take(n) =~= s.take(n));
        assert(whole.skip(n + 1) =~= s.skip(n + 1) + line);
        a_further_line_comes_last(s.skip(n + 1), line);
        assert(lines(whole) =~= lines(s).push(line));
    }
}

/// Parts are joined by standing one behind the other with the separator between
/// any two of them: nothing is joined to nothing, one part to itself, and two
/// lists to what each is joined to, with the separator between.
pub proof fn parts_are_joined_with_the_separator_between(
    a: Seq<Seq<char>>,
    b: Seq<Seq<char>>,
    part: Seq<char>,
    separator: Seq<char>,
)
    ensures
        joined(Seq::empty(), separator) == Seq::<char>::empty(),
        joined(seq![part], separator) == part,
        a.len() > 0 && b.len() > 0 ==> joined(a + b, separator) == joined(a, separator) + separator
            + joined(b, separator),
    decreases b.len(),
{
    if a.len() > 0 && b.len() > 0 {
        assert((a + b).drop_last() =~= a + b.drop_last());
        if b.len() == 1 {
            assert(b.drop_last() =~= Seq::empty());
            assert(a + b.drop_last() =~= a);
        } else {
            parts_are_joined_with_the_separator_between(a, b.drop_last(), part, separator);
            assert(joined(a + b, separator) =~= joined(a, separator) + separator + joined(
                b,
                separator,
            ));
        }
    }
}

/// Cutting a text leaves its start: all of it up to the limit, and as many
/// characters as the limit says of a longer one.
pub proof fn cutting_leaves_the_start(s: Seq<char>, limit: nat)
    ensures
        at_most(s, limit).is_prefix_of(s),
        s.len() <= limit ==> at_most(s, limit) == s,
        s.len() > limit ==> at_most(s, limit).len() == limit,
{
}

/// What strings hold is held one by one, in their order.
pub proof fn views_are_one_by_one(parts: Seq<&str>, i: int)
    requires
        0 <= i < parts.len(),
    ensures
        views(parts).len() == parts.len(),
        views(parts)[i] == parts[i]@,
{
}

/// A string that is there has its characters, and one that is absent has none.
pub proof fn absent_strings_have_no_characters(value: String)
    ensures
        optional_chars(Some(value)) == Some(value@),
        optional_chars(None) is None,
{
}

} // verus!
