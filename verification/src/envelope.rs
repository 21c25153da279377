//! Runtime envelopes in user messages.
//!
//! Codex may serialize its own startup instructions as `role=user` text. Only
//! known leading envelopes that are complete are removed; any actual prompt
//! that follows them in the same content block is kept as it stands. An envelope
//! ends at its first closing tag; that of the instructions is complete where it
//! holds both of its tags, whichever of them comes first.

use vstd::prelude::*;
use crate::text;

verus! {

/// `s` without the one separator that the runtime writes behind an envelope:
/// a line break, or a space that no second space follows.
pub open spec fn without_separator(s: Seq<char>) -> Seq<char> {
    if s.len() >= 2 && s[0] == '\r' && s[1] == '\n' {
        s.skip(2)
    } else if s.len() >= 1 && s[0] == '\n' {
        s.skip(1)
    } else if s.len() >= 1 && s[0] == ' ' && !(s.len() >= 2 && s[1] == ' ') {
        s.skip(1)
    } else {
        s
    }
}

/// The tag that closes the envelope that `s` opens with, if it opens with one.
/// Instructions count as an envelope where `<INSTRUCTIONS>` stands anywhere in
/// `s`, before the closing tag or behind it.
pub open spec fn closing_tag(s: Seq<char>) -> Option<Seq<char>> {
    if "<recommended_plugins>"@.is_prefix_of(s) {
        Some("</recommended_plugins>"@)
    } else if "<environment_context>"@.is_prefix_of(s) {
        Some("</environment_context>"@)
    } else if "# AGENTS.md instructions for "@.is_prefix_of(s) && text::find(s, "<INSTRUCTIONS>"@) is Some {
        Some("</INSTRUCTIONS>"@)
    } else {
        None
    }
}

/// What follows the complete envelope at the start of `s`, if there is one.
/// White space may stand before the envelope.
pub open spec fn after_envelope(s: Seq<char>) -> Option<Seq<char>> {
    let candidate = text::trimmed_start(s);
    match closing_tag(candidate) {
        Some(tag) => match text::find(candidate, tag) {
            Some(i) => Some(without_separator(candidate.skip(i + tag.len()))),
            None => None,
        },
        None => None,
    }
}

/// What follows all the complete envelopes at the start of `s`.
pub open spec fn past_envelopes(s: Seq<char>) -> Seq<char>
    decreases s.len(),
{
    proof {
        after_envelope_is_shorter(s);
    }
    match after_envelope(s) {
        Some(rest) => past_envelopes(rest),
        None => s,
    }
}

/// Whether `s` is one envelope, from its opening to its closing tag.
pub open spec fn complete_envelope(s: Seq<char>) -> bool {
    closing_tag(s) matches Some(tag) && text::find(s, tag) == Some(s.len() - tag.len())
}

proof fn lemma_closing_tag_nonempty(s: Seq<char>)
    ensures
        closing_tag(s) matches Some(tag) ==> tag.len() > 0,
{
    reveal_strlit("</recommended_plugins>");
    reveal_strlit("</environment_context>");
    reveal_strlit("</INSTRUCTIONS>");
}

/// What follows an envelope is a proper suffix of the text.
pub proof fn after_envelope_is_shorter(s: Seq<char>)
    ensures
        after_envelope(s) matches Some(rest) ==> rest.len() < s.len() && rest == s.skip(
            s.len() - rest.len(),
        ),
{
    let candidate = text::trimmed_start(s);
    text::trimmed_start_is_suffix(s);
    lemma_closing_tag_nonempty(candidate);
    if let Some(tag) = closing_tag(candidate) {
        text::find_is_first(candidate, tag);
        if let Some(i) = text::find(candidate, tag) {
            let tail = candidate.skip(i + tag.len());
            let rest = without_separator(tail);
            assert(rest =~= candidate.skip(candidate.len() - rest.len()));
            assert(rest =~= s.skip(s.len() - rest.len()));
        }
    }
}

/// Removes the one separator that the runtime writes behind an envelope.
pub fn strip_runtime_separator(text: &str) -> (r: &str)
    ensures
        r@ == without_separator(text@),
{
    match text::pop_char(text) {
        None => text,
        Some((first, rest)) => {
            assert(rest@ =~= text@.skip(1));
            let second = text::pop_char(rest);
            if first == '\r' {
                match second {
                    Some(('\n', tail)) => {
                        assert(tail@ =~= text@.skip(2));
                        tail
                    },
                    _ => text,
                }
            } else if first == '\n' {
                rest
            } else if first == ' ' {
                match second {
                    Some((' ', _)) => text,
                    _ => rest,
                }
            } else {
                text
            }
        },
    }
}

/// The tag that closes the envelope that `candidate` opens with.
fn envelope_closing_tag(candidate: &str) -> (r: Option<&'static str>)
    ensures
        match r {
            Some(tag) => closing_tag(candidate@) == Some(tag@),
            None => closing_tag(candidate@) is None,
        },
{
    if text::starts_with(candidate, "<recommended_plugins>") {
        Some("</recommended_plugins>")
    } else if text::starts_with(candidate, "<environment_context>") {
        Some("</environment_context>")
    } else if text::starts_with(candidate, "# AGENTS.md instructions for ") {
        if text::after_first(candidate, "<INSTRUCTIONS>").is_none() {
            return None;
        }
        Some("</INSTRUCTIONS>")
    } else {
        None
    }
}

/// What is left of a user's text behind the runtime envelopes at its start,
/// where that is more than white space.
pub fn visible_user_text(text: &str) -> (r: Option<&str>)
    ensures
        match r {
            Some(visible) => visible@ == past_envelopes(text@) && !text::blank(visible@),
            None => text::blank(past_envelopes(text@)),
        },
{
    let mut text = text;
    let ghost whole = text@;
    loop
        invariant
            past_envelopes(text@) == past_envelopes(whole),
        ensures
            text@ == past_envelopes(whole),
        decreases text@.len(),
    {
        proof {
            after_envelope_is_shorter(text@);
        }
        let candidate = text::trim_start(text);
        let Some(tag) = envelope_closing_tag(candidate) else {
            break;
        };
        let Some(rest) = text::after_first(candidate, tag) else {
            break;
        };
        text = strip_runtime_separator(rest);
    }
    if text::is_blank(text) {
        None
    } else {
        Some(text)
    }
}

// ---------------------------------------------------------------------------
// Laws
// ---------------------------------------------------------------------------

/// The visible text is a suffix of the text: nothing in it is changed.
pub proof fn visible_text_is_a_suffix(s: Seq<char>)
    ensures
        past_envelopes(s).len() <= s.len(),
        past_envelopes(s) == s.skip(s.len() - past_envelopes(s).len()),
    decreases s.len(),
{
    after_envelope_is_shorter(s);
    match after_envelope(s) {
        Some(rest) => {
            visible_text_is_a_suffix(rest);
            let p = past_envelopes(rest);
            assert(p =~= s.skip(s.len() - p.len()));
        },
        None => {
            assert(s.skip(0) =~= s);
        },
    }
}

/// No envelope is left at the start of the visible text, and to look for
/// envelopes in it again changes nothing.
pub proof fn no_envelope_is_left(s: Seq<char>)
    ensures
        after_envelope(past_envelopes(s)) is None,
        past_envelopes(past_envelopes(s)) == past_envelopes(s),
    decreases s.len(),
{
    after_envelope_is_shorter(s);
    if let Some(rest) = after_envelope(s) {
        no_envelope_is_left(rest);
    }
}

/// A text that does not open with a known envelope, or in which the envelope
/// is not closed, is kept whole, with its leading white space.
pub proof fn ordinary_text_is_kept(s: Seq<char>)
    requires
        closing_tag(text::trimmed_start(s)) matches Some(tag) ==> text::find(text::trimmed_start(s), tag) is None,
    ensures
        past_envelopes(s) == s,
{
}

/// An envelope is removed with the white space before it and the one separator
/// behind it, and nothing else is.
pub proof fn text_behind_an_envelope_is_kept(
    space: Seq<char>,
    envelope: Seq<char>,
    tail: Seq<char>,
)
    requires
        text::blank(space),
        complete_envelope(envelope),
    ensures
        past_envelopes(space + envelope + tail) == past_envelopes(without_separator(tail)),
{
    let whole = space + envelope + tail;
    let candidate = envelope + tail;
    assert(whole =~= space + candidate);
    lemma_closing_tag_extends(envelope, tail);
    lemma_envelope_opens(envelope);
    lemma_trimmed_start_of(space, candidate);
    let tag = closing_tag(envelope)->0;
    text::find_is_first(envelope, tag);
    lemma_find_extends(envelope, tail, tag);
    assert(candidate.skip(envelope.len() as int) =~= tail);
    after_envelope_is_shorter(whole);
}

/// A prompt on the line behind an envelope keeps its indentation.
pub proof fn prompts_behind_an_envelope_keep_their_indentation(
    space: Seq<char>,
    envelope: Seq<char>,
    line_break: Seq<char>,
    prompt: Seq<char>,
)
    requires
        text::blank(space),
        complete_envelope(envelope),
        line_break == seq!['\n'] || line_break == seq!['\r', '\n'],
    ensures
        past_envelopes(space + envelope + (line_break + prompt)) == past_envelopes(prompt),
{
    text_behind_an_envelope_is_kept(space, envelope, line_break + prompt);
    assert(without_separator(line_break + prompt) =~= prompt);
}

/// White space in front of a text that does not begin with any is what
/// trimming removes.
proof fn lemma_trimmed_start_of(space: Seq<char>, s: Seq<char>)
    requires
        text::blank(space),
        s.len() > 0,
        !text::whitespace(s[0]),
    ensures
        text::trimmed_start(space + s) == s,
    decreases space.len(),
{
    if space.len() == 0 {
        assert(space + s =~= s);
    } else {
        assert(text::whitespace(space[0]));
        assert((space + s).drop_first() =~= space.drop_first() + s);
        assert forall|i: int| 0 <= i < space.drop_first().len() implies text::whitespace(
            #[trigger] space.drop_first()[i],
        ) by {
            assert(text::whitespace(space[i + 1]));
        }
        lemma_trimmed_start_of(space.drop_first(), s);
    }
}

/// What is found in a text is found at the same place when the text goes on.
proof fn lemma_find_extends(s: Seq<char>, more: Seq<char>, needle: Seq<char>)
    requires
        text::find(s, needle) is Some,
    ensures
        text::find(s + more, needle) == text::find(s, needle),
    decreases s.len(),
{
    text::find_is_first(s, needle);
    assert((s + more).subrange(0, needle.len() as int) =~= s.subrange(0, needle.len() as int));
    if needle.is_prefix_of(s) {
    } else {
        assert((s + more).drop_first() =~= s.drop_first() + more);
        lemma_find_extends(s.drop_first(), more, needle);
    }
}

proof fn lemma_prefix_extends(prefix: Seq<char>, s: Seq<char>, more: Seq<char>)
    ensures
        prefix.is_prefix_of(s) ==> prefix.is_prefix_of(s + more),
{
    if prefix.is_prefix_of(s) {
        assert((s + more).subrange(0, prefix.len() as int) =~= s.subrange(0, prefix.len() as int));
    }
}

/// A text that opens with an envelope does not begin with white space.
proof fn lemma_envelope_opens(s: Seq<char>)
    requires
        closing_tag(s) is Some,
    ensures
        s.len() > 0,
        !text::whitespace(s[0]),
{
    reveal_strlit("<recommended_plugins>");
    reveal_strlit("<environment_context>");
    reveal_strlit("# AGENTS.md instructions for ");
    if "<recommended_plugins>"@.is_prefix_of(s) {
        assert("<recommended_plugins>"@[0] == s[0]);
    } else if "<environment_context>"@.is_prefix_of(s) {
        assert("<environment_context>"@[0] == s[0]);
    } else {
        assert("# AGENTS.md instructions for "@[0] == s[0]);
    }
}

/// The kind of an envelope does not depend on what follows.
proof fn lemma_closing_tag_extends(s: Seq<char>, more: Seq<char>)
    requires
        closing_tag(s) is Some,
    ensures
        closing_tag(s + more) == closing_tag(s),
{
    reveal_strlit("<recommended_plugins>");
    reveal_strlit("<environment_context>");
    reveal_strlit("# AGENTS.md instructions for ");
    let t = s + more;
    lemma_prefix_extends("<recommended_plugins>"@, s, more);
    lemma_prefix_extends("<environment_context>"@, s, more);
    lemma_prefix_extends("# AGENTS.md instructions for "@, s, more);
    if "<recommended_plugins>"@.is_prefix_of(t) {
        assert("<recommended_plugins>"@[1] == t[1]);
    }
    if "<environment_context>"@.is_prefix_of(t) {
        assert("<environment_context>"@[1] == t[1]);
    }
    if "# AGENTS.md instructions for "@.is_prefix_of(s) {
        assert("# AGENTS.md instructions for "@[1] == t[1]);
        if text::find(s, "<INSTRUCTIONS>"@) is Some {
            lemma_find_extends(s, more, "<INSTRUCTIONS>"@);
        }
    } else if "<environment_context>"@.is_prefix_of(s) {
        assert("<environment_context>"@[1] == t[1]);
    }
}

/// One separator is removed: a line feed, with a carriage return before it or
/// not, or a space that stands alone. Any other text stays as it is.
pub proof fn one_separator_is_removed(s: Seq<char>)
    ensures
        without_separator(seq!['\n'] + s) == s,
        without_separator(seq!['\r', '\n'] + s) == s,
        s.len() == 0 || s[0] != ' ' ==> without_separator(seq![' '] + s) == s,
        without_separator(seq![' ', ' '] + s) == seq![' ', ' '] + s,
        s.len() == 0 || (s[0] != '\n' && s[0] != ' ' && s[0] != '\r') ==> without_separator(s) == s,
        s.len() == 0 || s[0] != '\n' ==> without_separator(seq!['\r'] + s) == seq!['\r'] + s,
{
    assert((seq!['\n'] + s).skip(1) =~= s);
    assert((seq!['\r', '\n'] + s).skip(2) =~= s);
    assert((seq![' '] + s).skip(1) =~= s);
}

/// Whether `needle` stands nowhere in `s`.
pub open spec fn absent(s: Seq<char>, needle: Seq<char>) -> bool {
    forall|i: int|
        0 <= i <= s.len() - needle.len() ==> #[trigger] s.subrange(i, i + needle.len()) != needle
}

/// A closing tag behind an opening and a body without it is the first.
proof fn lemma_first_closing(open: Seq<char>, body: Seq<char>, close: Seq<char>, tail: Seq<char>)
    requires
        close.len() >= 2,
        close[0] == '<',
        close[1] == '/',
        forall|k: int| 1 <= k < close.len() ==> close[k] != '<',
        forall|i: int| 
            0 <= i < open.len() && #[trigger] open[i] == '<' ==> i + 1 < open.len() && open[i + 1]
                != '/',
        absent(body, close),
    ensures
        text::find(open + body + close + tail, close) == Some(open.len() + body.len() as int),
{
    let whole = open + body + close + tail;
    let n = open.len() + body.len() as int;
    text::find_is_first(whole, close);
    assert(whole.subrange(n, n + close.len()) =~= close);
    assert(text::occurs_at(whole, close, n));
    assert forall|j: int| text::occurs_at(whole, close, j) implies n <= j by {
        let there = whole.subrange(j, j + close.len());
        assert(there[0] == close[0] && there[1] == close[1]);
        assert(whole[j] == '<' && whole[j + 1] == '/');
        if j < open.len() {
            assert(open[j] == '<');
        } else if j < n {
            if j + close.len() <= n {
                assert(body.subrange(j - open.len(), j - open.len() + close.len()) =~= there);
            } else {
                let k = n - j;
                assert(there[k] == close[k]);
                assert(whole[n] == close[0]);
            }
        }
    }
}

/// Where neither the opening nor what follows holds the closing tag, it is not
/// found.
proof fn lemma_no_closing(open: Seq<char>, rest: Seq<char>, close: Seq<char>)
    requires
        close.len() >= 2,
        close[0] == '<',
        close[1] == '/',
        forall|i: int| 
            0 <= i < open.len() && #[trigger] open[i] == '<' ==> i + 1 < open.len() && open[i + 1]
                != '/',
        absent(rest, close),
    ensures
        text::find(open + rest, close) is None,
{
    let whole = open + rest;
    text::find_is_first(whole, close);
    assert forall|j: int| !text::occurs_at(whole, close, j) by {
        if text::occurs_at(whole, close, j) {
            let there = whole.subrange(j, j + close.len());
            assert(there[0] == close[0] && there[1] == close[1]);
            if j < open.len() {
                assert(open[j] == '<');
            } else {
                assert(rest.subrange(j - open.len(), j - open.len() + close.len()) =~= there);
            }
        }
    }
}

proof fn lemma_tags()
    ensures
        "<recommended_plugins>"@.len() == 21,
        "<environment_context>"@.len() == 21,
        "# AGENTS.md instructions for "@.len() == 29,
        "<recommended_plugins>"@[0] == '<' && "<recommended_plugins>"@[1] == 'r',
        "<environment_context>"@[0] == '<' && "<environment_context>"@[1] == 'e',
        "# AGENTS.md instructions for "@[0] == '#',
        forall|i: int| 1 <= i < 21 ==> "<recommended_plugins>"@[i] != '<',
        forall|i: int| 1 <= i < 21 ==> "<environment_context>"@[i] != '<',
        forall|i: int| 0 <= i < 29 ==> "# AGENTS.md instructions for "@[i] != '<',
        "</recommended_plugins>"@.len() == 22,
        "</environment_context>"@.len() == 22,
        "</INSTRUCTIONS>"@.len() == 15,
        "</recommended_plugins>"@[0] == '<' && "</recommended_plugins>"@[1] == '/',
        "</environment_context>"@[0] == '<' && "</environment_context>"@[1] == '/',
        "</INSTRUCTIONS>"@[0] == '<' && "</INSTRUCTIONS>"@[1] == '/',
        forall|i: int| 1 <= i < 22 ==> "</recommended_plugins>"@[i] != '<',
        forall|i: int| 1 <= i < 22 ==> "</environment_context>"@[i] != '<',
        forall|i: int| 1 <= i < 15 ==> "</INSTRUCTIONS>"@[i] != '<',
        "<INSTRUCTIONS>"@.len() == 14,
        "<INSTRUCTIONS>"@[0] == '<',
{
    reveal_strlit("<recommended_plugins>");
    reveal_strlit("<environment_context>");
    reveal_strlit("# AGENTS.md instructions for ");
    reveal_strlit("</recommended_plugins>");
    reveal_strlit("</environment_context>");
    reveal_strlit("</INSTRUCTIONS>");
    reveal_strlit("<INSTRUCTIONS>");
}

/// Plugin recommendations at the start of a text are removed, with the white
/// space before them, up to the first closing tag and the separator behind it.
pub proof fn recommended_plugins_are_removed(space: Seq<char>, body: Seq<char>, tail: Seq<char>)
    requires
        text::blank(space),
        absent(body, "</recommended_plugins>"@),
    ensures
        past_envelopes(
            space + ("<recommended_plugins>"@ + body + "</recommended_plugins>"@ + tail),
        ) == past_envelopes(without_separator(tail)),
{
    lemma_tags();
    let (open, close) = ("<recommended_plugins>"@, "</recommended_plugins>"@);
    let candidate = open + body + close + tail;
    lemma_first_closing(open, body, close, tail);
    assert(open =~= candidate.subrange(0, open.len() as int));
    lemma_removed(space, candidate, open.len() + body.len() as int, close, tail);
}

/// An environment context at the start of a text is removed, with the white
/// space before it, up to the first closing tag and the separator behind it.
pub proof fn environment_contexts_are_removed(space: Seq<char>, body: Seq<char>, tail: Seq<char>)
    requires
        text::blank(space),
        absent(body, "</environment_context>"@),
    ensures
        past_envelopes(
            space + ("<environment_context>"@ + body + "</environment_context>"@ + tail),
        ) == past_envelopes(without_separator(tail)),
{
    lemma_tags();
    let (open, close) = ("<environment_context>"@, "</environment_context>"@);
    let candidate = open + body + close + tail;
    lemma_first_closing(open, body, close, tail);
    assert(open =~= candidate.subrange(0, open.len() as int));
    assert(candidate[1] == open[1]);
    assert(!"<recommended_plugins>"@.is_prefix_of(candidate)) by {
        if "<recommended_plugins>"@.is_prefix_of(candidate) {
            assert("<recommended_plugins>"@[1] == candidate.subrange(0, 21)[1]);
        }
    }
    lemma_removed(space, candidate, open.len() + body.len() as int, close, tail);
}

/// Agent instructions at the start of a text are removed, with the white space
/// before them, up to the first closing tag and the separator behind it, where
/// the opening tag stands in them or behind them.
pub proof fn agent_instructions_are_removed(space: Seq<char>, body: Seq<char>, tail: Seq<char>)
    requires
        text::blank(space),
        absent(body, "</INSTRUCTIONS>"@),
        !absent(body, "<INSTRUCTIONS>"@) || !absent(tail, "<INSTRUCTIONS>"@),
    ensures
        past_envelopes(
            space + ("# AGENTS.md instructions for "@ + body + "</INSTRUCTIONS>"@ + tail),
        ) == past_envelopes(without_separator(tail)),
{
    lemma_tags();
    let (open, close) = ("# AGENTS.md instructions for "@, "</INSTRUCTIONS>"@);
    let tag = "<INSTRUCTIONS>"@;
    let candidate = open + body + close + tail;
    lemma_first_closing(open, body, close, tail);
    assert(open =~= candidate.subrange(0, open.len() as int));
    lemma_instructions_open(candidate);
    text::find_is_first(candidate, tag);
    if !absent(body, tag) {
        let i = choose|i: int|
            0 <= i <= body.len() - tag.len() && #[trigger] body.subrange(i, i + tag.len()) == tag;
        let j = open.len() + i;
        assert(candidate.subrange(j, j + tag.len()) =~= body.subrange(i, i + tag.len()));
        assert(text::occurs_at(candidate, tag, j));
    } else {
        let i = choose|i: int|
            0 <= i <= tail.len() - tag.len() && #[trigger] tail.subrange(i, i + tag.len()) == tag;
        let j = open.len() + body.len() + close.len() + i;
        assert(candidate.subrange(j, j + tag.len()) =~= tail.subrange(i, i + tag.len()));
        assert(text::occurs_at(candidate, tag, j));
    }
    lemma_removed(space, candidate, open.len() + body.len() as int, close, tail);
}

/// A text that starts with instructions starts with neither of the tags.
proof fn lemma_instructions_open(candidate: Seq<char>)
    requires
        "# AGENTS.md instructions for "@.is_prefix_of(candidate),
    ensures
        !"<recommended_plugins>"@.is_prefix_of(candidate),
        !"<environment_context>"@.is_prefix_of(candidate),
{
    lemma_tags();
    assert(candidate[0] == "# AGENTS.md instructions for "@[0]);
    if "<recommended_plugins>"@.is_prefix_of(candidate) {
        assert("<recommended_plugins>"@[0] == candidate[0]);
    }
    if "<environment_context>"@.is_prefix_of(candidate) {
        assert("<environment_context>"@[0] == candidate[0]);
    }
}

proof fn lemma_removed(
    space: Seq<char>,
    candidate: Seq<char>,
    at: int,
    close: Seq<char>,
    tail: Seq<char>,
)
    requires
        text::blank(space),
        closing_tag(candidate) == Some(close),
        text::find(candidate, close) == Some(at),
        candidate.skip(at + close.len()) =~= tail,
    ensures
        past_envelopes(space + candidate) == past_envelopes(without_separator(tail)),
{
    lemma_envelope_opens(candidate);
    lemma_trimmed_start_of(space, candidate);
    after_envelope_is_shorter(space + candidate);
}

/// A text that starts with none of the three openings, behind its white space,
/// stays whole.
pub proof fn text_without_an_opening_is_kept(space: Seq<char>, s: Seq<char>)
    requires
        text::blank(space),
        s.len() > 0,
        !text::whitespace(s[0]),
        !"<recommended_plugins>"@.is_prefix_of(s),
        !"<environment_context>"@.is_prefix_of(s),
        !"# AGENTS.md instructions for "@.is_prefix_of(s),
    ensures
        past_envelopes(space + s) == space + s,
{
    lemma_trimmed_start_of(space, s);
}

/// A text that starts with an opening whose closing tag stands nowhere behind it
/// stays whole; and so do agent instructions without their opening tag.
pub proof fn text_without_a_closing_is_kept(space: Seq<char>, rest: Seq<char>)
    requires
        text::blank(space),
    ensures
        absent(rest, "</recommended_plugins>"@) ==> past_envelopes(
            space + ("<recommended_plugins>"@ + rest),
        ) == space + ("<recommended_plugins>"@ + rest),
        absent(rest, "</environment_context>"@) ==> past_envelopes(
            space + ("<environment_context>"@ + rest),
        ) == space + ("<environment_context>"@ + rest),
        absent(rest, "</INSTRUCTIONS>"@) || absent(rest, "<INSTRUCTIONS>"@) ==> past_envelopes(
            space + ("# AGENTS.md instructions for "@ + rest),
        ) == space + ("# AGENTS.md instructions for "@ + rest),
{
    lemma_tags();
    let plugins = "<recommended_plugins>"@ + rest;
    let context = "<environment_context>"@ + rest;
    let instructions = "# AGENTS.md instructions for "@ + rest;
    lemma_trimmed_start_of(space, plugins);
    lemma_trimmed_start_of(space, context);
    lemma_trimmed_start_of(space, instructions);
    assert("<recommended_plugins>"@ =~= plugins.subrange(0, 21));
    assert("<environment_context>"@ =~= context.subrange(0, 21));
    assert("# AGENTS.md instructions for "@ =~= instructions.subrange(0, 29));
    if absent(rest, "</recommended_plugins>"@) {
        lemma_no_closing("<recommended_plugins>"@, rest, "</recommended_plugins>"@);
    }
    if absent(rest, "</environment_context>"@) {
        lemma_no_closing("<environment_context>"@, rest, "</environment_context>"@);
        assert(!"<recommended_plugins>"@.is_prefix_of(context)) by {
            assert(context[1] == "<environment_context>"@[1]);
            if "<recommended_plugins>"@.is_prefix_of(context) {
                assert("<recommended_plugins>"@[1] == context.subrange(0, 21)[1]);
            }
        }
    }
    lemma_instructions_open(instructions);
    if absent(rest, "</INSTRUCTIONS>"@) {
        lemma_no_closing("# AGENTS.md instructions for "@, rest, "</INSTRUCTIONS>"@);
    }
    if absent(rest, "<INSTRUCTIONS>"@) {
        let tag = "<INSTRUCTIONS>"@;
        text::find_is_first(instructions, tag);
        assert forall|j: int| !text::occurs_at(instructions, tag, j) by {
            if text::occurs_at(instructions, tag, j) {
                let there = instructions.subrange(j, j + tag.len());
                assert(there[0] == tag[0]);
                if j >= 29 {
                    assert(rest.subrange(j - 29, j - 29 + tag.len()) =~= there);
                }
            }
        }
    }
}

/// A text of white space alone stays as it is.
pub proof fn blank_text_is_kept(s: Seq<char>)
    requires
        text::blank(s),
    ensures
        past_envelopes(s) == s,
{
    lemma_tags();
    text::blank_is_trimmed_empty(s);
}

} // verus!
