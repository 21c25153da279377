//! What holds of every record that is read from a session file.

use vstd::prelude::*;
use vstd::utf8::*;
use crate::envelope;
use crate::json::JsonModel;
use crate::json_text;
use crate::record::{
    EntryKind, ImportedRecord, MessageModel, RecordError, RecordModel, Role, Transcript,
    TranscriptModel,
};
use crate::record;
use crate::text;
use crate::timestamp;
use crate::timestamp::EPOCH_TIMESTAMP;

verus! {

/// Whether `stamp` is a valid timestamp, or the one that stands in for an
/// unknown time.
pub open spec fn dated(stamp: Seq<char>) -> bool {
    timestamp::rfc3339(stamp) || stamp == EPOCH_TIMESTAMP@
}

/// Whether `chars` by `role` show something: more than white space in what a
/// user wrote.
pub open spec fn showing(role: Role, chars: Seq<char>) -> bool {
    chars.len() > 0 && (role == Role::User ==> !text::blank(chars))
}

/// Whether `message` shows something.
pub open spec fn shows_something(message: MessageModel) -> bool {
    showing(message.role, message.content)
}

/// What holds of every transcript: the metadata give an acceptable id, or none;
/// the last timestamp is that of the last message; every timestamp is valid or
/// stands in for an unknown time; every message shows something.
pub open spec fn consistent(transcript: TranscriptModel) -> bool {
    &&& transcript.source_id matches Some(id) ==> record::acceptable_id(id)
    &&& transcript.source_id is Some ==> transcript.seen_metadata
    &&& transcript.created_at is Some <==> transcript.seen_metadata
    &&& transcript.created_at matches Some(stamp) ==> dated(stamp)
    &&& transcript.last_timestamp == (if transcript.messages.len() == 0 {
        None
    } else {
        Some(transcript.messages.last().timestamp)
    })
    &&& forall|i: int|
        0 <= i < transcript.messages.len() ==> dated((#[trigger] transcript.messages[i]).timestamp)
            && shows_something(transcript.messages[i])
}

/// Reading a line keeps a transcript consistent.
pub proof fn reading_keeps_transcripts_consistent(so_far: TranscriptModel, line: Seq<char>)
    requires
        consistent(so_far),
    ensures
        record::line_read(so_far, line) matches Ok(next) ==> consistent(next),
{
    if let Ok(next) = record::line_read(so_far, line) {
        if let Some(entry) = json_text::read_json(line) {
            let stamp = record::entry_timestamp(so_far, entry);
            let kind = record::entry_kind(entry);
            if so_far.messages.len() > 0 {
                assert(dated(so_far.messages[so_far.messages.len() - 1].timestamp));
            }
            assert(dated(stamp));
            if let EntryKind::Message(role) = kind {
                let parts = entry.member("payload"@).member("content"@).items()->0;
                let shown = record::visible_parts(role, parts);
                if shown.len() > 0 {
                    lemma_visible_parts_show(role, parts);
                    lemma_joined_shows(role, shown);
                }
            }
            assert forall|i: int| 0 <= i < next.messages.len() implies dated(
                (#[trigger] next.messages[i]).timestamp,
            ) && shows_something(next.messages[i]) by {
                if i < so_far.messages.len() {
                    assert(next.messages[i] == so_far.messages[i]);
                }
            }
        }
    }
}

proof fn lemma_visible_parts_show(role: Role, parts: Seq<JsonModel>)
    ensures
        forall|i: int|
            0 <= i < record::visible_parts(role, parts).len() ==> showing(
                role,
                #[trigger] record::visible_parts(role, parts)[i],
            ),
    decreases parts.len(),
{
    if parts.len() > 0 {
        lemma_visible_parts_show(role, parts.drop_last());
        let before = record::visible_parts(role, parts.drop_last());
        let all = record::visible_parts(role, parts);
        assert forall|i: int| 0 <= i < all.len() implies showing(role, #[trigger] all[i]) by {
            if i < before.len() {
                assert(showing(role, before[i]));
            } else {
                assert(Some(all[i]) == record::visible_part(role, parts.last()));
            }
        }
    }
}

proof fn lemma_joined_shows(role: Role, shown: Seq<Seq<char>>)
    requires
        shown.len() > 0,
        forall|i: int| 0 <= i < shown.len() ==> showing(role, #[trigger] shown[i]),
    ensures
        showing(role, text::joined(shown, "\n\n"@)),
{
    assert(showing(role, shown[shown.len() - 1]));
    let whole = text::joined(shown, "\n\n"@);
    let last = shown.last();
    let start = whole.len() - last.len();
    assert(forall|i: int| 0 <= i < last.len() ==> whole[start + i] == last[i]);
    if role == Role::User {
        let i = choose|i: int| 0 <= i < last.len() && !text::whitespace(#[trigger] last[i]);
        assert(!text::whitespace(whole[start + i]));
    }
}

/// Every transcript of a file is consistent.
pub proof fn transcripts_are_consistent(so_far: TranscriptModel, lines: Seq<Seq<char>>)
    requires
        consistent(so_far),
    ensures
        record::lines_read(so_far, lines) matches Ok(transcript) ==> consistent(transcript),
    decreases lines.len(),
{
    if lines.len() > 0 {
        reading_keeps_transcripts_consistent(so_far, lines[0]);
        if let Ok(next) = record::line_read(so_far, lines[0]) {
            transcripts_are_consistent(next, lines.drop_first());
        }
    }
}

/// Every record has an acceptable source id, some messages, each of which shows
/// something, a title of one to eighty characters, and timestamps that are
/// valid or stand in for an unknown time; it was updated when its last message
/// was written, and its hash is that of the content.
pub proof fn records_are_complete(bytes: Seq<u8>)
    ensures
        record::recorded(bytes) matches Ok(found) ==> {
            &&& record::acceptable_id(found.source_id)
            &&& found.messages.len() > 0
            &&& forall|i: int|
                0 <= i < found.messages.len() ==> dated((#[trigger] found.messages[i]).timestamp)
                    && shows_something(found.messages[i])
            &&& 0 < found.title.len() <= record::MAX_TITLE_CHARS
            &&& dated(found.created_at)
            &&& found.updated_at == found.messages.last().timestamp
            &&& found.hash == record::blake3_hex(bytes)
        },
{
    let lines = text::lines(decode_utf8(bytes));
    assert(consistent(record::nothing_read()));
    transcripts_are_consistent(record::nothing_read(), lines);
    reveal_strlit("Codex conversation");
}

proof fn lemma_lines_of(s: Seq<char>)
    ensures
        forall|i: int, k: int|
            0 <= i < text::lines(s).len() && 0 <= k < text::lines(s)[i].len()
                ==> #[trigger] text::lines(s)[i][k] != '\n',
        text::blank(record::first_visible(text::lines(s))) ==> text::blank(s),
    decreases s.len(),
{
    if s.len() > 0 {
        text::until_newline_bounds(s);
        let n = text::until_newline(s);
        let lines = text::lines(s);
        if n == s.len() {
            assert(lines =~= seq![s]);
            assert(lines.drop_first() =~= Seq::empty());
        } else {
            let line = text::without_carriage_return(s.take(n));
            let rest = s.skip(n + 1);
            lemma_lines_of(rest);
            assert(lines.drop_first() =~= text::lines(rest));
            assert(lines[0] == line);
            assert forall|i: int, k: int|
                0 <= i < lines.len() && 0 <= k < lines[i].len() implies #[trigger] lines[i][k]
                != '\n' by {
                if i > 0 {
                    assert(lines[i] == text::lines(rest)[i - 1]);
                    assert(text::lines(rest)[i - 1][k] != '\n');
                } else {
                    assert(lines[i][k] == s[k]);
                }
            }
            if text::blank(record::first_visible(lines)) {
                assert(text::blank(line) && text::blank(rest));
                assert forall|k: int| 0 <= k < s.len() implies text::whitespace(#[trigger] s[k]) by {
                    if k < line.len() {
                        assert(text::whitespace(line[k]));
                    } else if k > n {
                        assert(text::whitespace(rest[k - n - 1]));
                    }
                }
            }
        }
    }
}

proof fn lemma_first_visible(lines: Seq<Seq<char>>)
    ensures
        record::first_visible(lines).len() == 0 || lines.contains(record::first_visible(lines)),
    decreases lines.len(),
{
    if lines.len() > 0 && text::blank(lines[0]) {
        let rest = lines.drop_first();
        lemma_first_visible(rest);
        if rest.contains(record::first_visible(rest)) {
            let i = choose|i: int| 0 <= i < rest.len() && rest[i] == record::first_visible(rest);
            assert(lines[i + 1] == record::first_visible(rest));
        }
    } else if lines.len() > 0 {
        assert(lines[0] == record::first_visible(lines));
    }
}

proof fn lemma_first_user(messages: Seq<MessageModel>, at: int)
    requires
        0 <= at < messages.len(),
        messages[at].role == Role::User,
        forall|i: int| 0 <= i < at ==> (#[trigger] messages[i]).role != Role::User,
    ensures
        record::user_headline(messages) == Some(
            record::first_visible(text::lines(messages[at].content)),
        ),
    decreases at,
{
    if at > 0 {
        assert(messages[0].role != Role::User);
        let rest = messages.drop_first();
        assert forall|i: int| 0 <= i < at - 1 implies (#[trigger] rest[i]).role != Role::User by {
            assert(messages[i + 1].role != Role::User);
        }
        lemma_first_user(rest, at - 1);
    }
}

/// A conversation with a message of a user is titled with the first visible line
/// of the first such message: without the white space around it, cut to eighty
/// characters, and never with a line break.
pub proof fn titles_are_the_first_line_of_a_user(messages: Seq<MessageModel>, at: int)
    requires
        0 <= at < messages.len(),
        messages[at].role == Role::User,
        forall|i: int| 0 <= i < at ==> (#[trigger] messages[i]).role != Role::User,
        shows_something(messages[at]),
    ensures
        record::titled(messages) == text::at_most(
            text::trimmed(record::first_visible(text::lines(messages[at].content))),
            80,
        ),
        record::titled(messages).len() > 0,
        forall|i: int|
            0 <= i < record::titled(messages).len() ==> #[trigger] record::titled(messages)[i]
                != '\n',
{
    let content = messages[at].content;
    let line = record::first_visible(text::lines(content));
    lemma_first_user(messages, at);
    lemma_lines_of(content);
    lemma_first_visible(text::lines(content));
    text::blank_is_trimmed_empty(line);
    assert(text::trimmed(line).len() > 0);
    text::trimmed_is_within(line);
    let title = record::titled(messages);
    assert forall|i: int| 0 <= i < title.len() implies #[trigger] title[i] != '\n' by {
        let start = line.len() - text::trimmed_start(line).len();
        assert(title[i] == text::trimmed(line)[i]);
        assert(title[i] == line[start + i]);
        let k = choose|k: int| 0 <= k < text::lines(content).len() && text::lines(content)[k] == line;
        assert(text::lines(content)[k][start + i] != '\n');
    }
}

/// A conversation whose first message of a user is blank has the default title.
pub proof fn titles_default_for_a_blank_first_message(messages: Seq<MessageModel>, at: int)
    requires
        0 <= at < messages.len(),
        messages[at].role == Role::User,
        forall|i: int| 0 <= i < at ==> (#[trigger] messages[i]).role != Role::User,
        text::blank(messages[at].content),
    ensures
        record::titled(messages) == "Codex conversation"@,
{
    let content = messages[at].content;
    let lines = text::lines(content);
    lemma_first_user(messages, at);
    lemma_blank_lines(content);
    the_first_visible_line_is_the_first(lines, lines.len() as int);
    text::blank_is_trimmed_empty(record::first_visible(lines));
    assert(text::blank(record::first_visible(lines)));
}

proof fn lemma_blank_lines(s: Seq<char>)
    requires
        text::blank(s),
    ensures
        forall|i: int| 0 <= i < text::lines(s).len() ==> text::blank(#[trigger] text::lines(s)[i]),
    decreases s.len(),
{
    if s.len() > 0 {
        text::until_newline_bounds(s);
        let n = text::until_newline(s);
        let lines = text::lines(s);
        if n < s.len() {
            let line = text::without_carriage_return(s.take(n));
            let rest = s.skip(n + 1);
            assert forall|k: int| 0 <= k < rest.len() implies text::whitespace(#[trigger] rest[k]) by {
                assert(text::whitespace(s[n + 1 + k]));
            }
            lemma_blank_lines(rest);
            assert forall|i: int| 0 <= i < lines.len() implies text::blank(#[trigger] lines[i]) by {
                if i > 0 {
                    assert(lines[i] == text::lines(rest)[i - 1]);
                } else {
                    assert(lines[0] == line);
                    assert forall|k: int| 0 <= k < line.len() implies text::whitespace(
                        #[trigger] line[k],
                    ) by {
                        assert(text::whitespace(s[k]));
                    }
                }
            }
        }
    }
}

/// A conversation without a message of a user has the default title.
pub proof fn titles_default_without_a_user(messages: Seq<MessageModel>)
    requires
        forall|i: int| 0 <= i < messages.len() ==> (#[trigger] messages[i]).role != Role::User,
    ensures
        record::titled(messages) == "Codex conversation"@,
{
    lemma_no_user(messages);
    reveal_strlit("Codex conversation");
    let title = record::DEFAULT_TITLE@;
    assert(!text::whitespace(title[0]) && !text::whitespace(title.last()));
    assert(text::trimmed(title) == title);
}

proof fn lemma_no_user(messages: Seq<MessageModel>)
    requires
        forall|i: int| 0 <= i < messages.len() ==> (#[trigger] messages[i]).role != Role::User,
    ensures
        record::user_headline(messages) is None,
    decreases messages.len(),
{
    if messages.len() > 0 {
        assert(messages[0].role != Role::User);
        let rest = messages.drop_first();
        assert forall|i: int| 0 <= i < rest.len() implies (#[trigger] rest[i]).role != Role::User by {
            assert(messages[i + 1].role != Role::User);
        }
        lemma_no_user(rest);
    }
}

/// Whether `line` holds the metadata of a session.
pub open spec fn metadata_line(line: Seq<char>) -> bool {
    !text::blank(line) && (json_text::read_json(line) matches Some(entry) && record::entry_kind(
        entry,
    ) is Metadata)
}

proof fn lemma_metadata_stay_seen(so_far: TranscriptModel, lines: Seq<Seq<char>>, at: int)
    requires
        so_far.seen_metadata,
        0 <= at < lines.len(),
        metadata_line(lines[at]),
    ensures
        record::lines_read(so_far, lines) is Err,
    decreases lines.len(),
{
    if at > 0 {
        if let Ok(next) = record::line_read(so_far, lines[0]) {
            lemma_metadata_stay_seen(next, lines.drop_first(), at - 1);
        }
    }
}

/// A file with the metadata of two sessions is rejected, whatever the first of
/// them hold.
pub proof fn second_metadata_are_rejected(
    so_far: TranscriptModel,
    lines: Seq<Seq<char>>,
    first: int,
    second: int,
)
    requires
        0 <= first < second < lines.len(),
        metadata_line(lines[first]),
        metadata_line(lines[second]),
    ensures
        record::lines_read(so_far, lines) is Err,
    decreases lines.len(),
{
    if let Ok(next) = record::line_read(so_far, lines[0]) {
        if first == 0 {
            lemma_metadata_stay_seen(next, lines.drop_first(), second - 1);
        } else {
            second_metadata_are_rejected(next, lines.drop_first(), first - 1, second - 1);
        }
    }
}

/// Whether `line` cannot be read: it is too long, or it is neither blank nor
/// JSON.
pub open spec fn unreadable_line(line: Seq<char>) -> bool {
    encode_utf8(line).len() > record::MAX_LINE_BYTES || (!text::blank(line) && json_text::read_json(
        line,
    ) is None)
}

/// A file with a line that cannot be read is rejected as a whole.
pub proof fn unreadable_lines_spoil_a_file(so_far: TranscriptModel, lines: Seq<Seq<char>>, at: int)
    requires
        0 <= at < lines.len(),
        unreadable_line(lines[at]),
    ensures
        record::lines_read(so_far, lines) is Err,
    decreases lines.len(),
{
    if at > 0 {
        if let Ok(next) = record::line_read(so_far, lines[0]) {
            unreadable_lines_spoil_a_file(next, lines.drop_first(), at - 1);
        }
    }
}

/// An entry that is neither session metadata nor a message by a user or an
/// assistant leaves no trace.
pub proof fn hidden_entries_leave_no_trace(
    so_far: TranscriptModel,
    entry: JsonModel,
    stamp: Seq<char>,
)
    requires
        entry.member("type"@) != JsonModel::Text("session_meta"@),
        entry.member("type"@) == JsonModel::Text("response_item"@) && entry.member(
            "payload"@,
        ).member("type"@) == JsonModel::Text("message"@) ==> entry.member("payload"@).member(
            "role"@,
        ) != JsonModel::Text("user"@) && entry.member("payload"@).member("role"@)
            != JsonModel::Text("assistant"@),
    ensures
        record::absorbed(so_far, entry, stamp) == Ok::<TranscriptModel, RecordError>(so_far),
{
}

/// The timestamp that `entry` has of its own, where it is valid.
pub open spec fn own_timestamp(entry: JsonModel) -> Option<Seq<char>> {
    match entry.member("timestamp"@).text() {
        Some(stamp) => if timestamp::rfc3339(stamp) {
            Some(stamp)
        } else {
            None
        },
        None => None,
    }
}

/// The content parts of a message.
pub open spec fn parts_of(entry: JsonModel) -> Seq<JsonModel> {
    entry.member("payload"@).member("content"@).items()->0
}

/// Whether two lists of content parts by `role` show the same texts, and leave
/// out as many parts.
pub open spec fn show_alike(role: Role, a: Seq<JsonModel>, b: Seq<JsonModel>) -> bool {
    record::visible_parts(role, a) == record::visible_parts(role, b) && record::unsupported_parts(a)
        == record::unsupported_parts(b)
}

/// Whether `a` and `b` agree in all that is read of an entry of their kind: of
/// metadata, the id and the timestamp; of a message, the role, what its parts
/// show, how many of them are left out, and the timestamp where it shows
/// something; of other entries, nothing.
pub open spec fn read_alike(a: JsonModel, b: JsonModel) -> bool {
    match (record::entry_kind(a), record::entry_kind(b)) {
        (EntryKind::Metadata, EntryKind::Metadata) => record::metadata_id(a)
            == record::metadata_id(b) && own_timestamp(a) == own_timestamp(b),
        (EntryKind::Message(role), EntryKind::Message(other)) => {
            &&& role == other
            &&& show_alike(role, parts_of(a), parts_of(b))
            &&& record::visible_parts(role, parts_of(a)).len() > 0 ==> own_timestamp(a)
                == own_timestamp(b)
        },
        (EntryKind::Hidden, EntryKind::Hidden) => true,
        _ => false,
    }
}

/// Nothing else of an entry has any bearing on what is imported.
pub proof fn nothing_else_of_an_entry_is_read(
    so_far: TranscriptModel,
    a: JsonModel,
    b: JsonModel,
)
    requires
        read_alike(a, b),
    ensures
        record::absorbed(so_far, a, record::entry_timestamp(so_far, a)) == record::absorbed(
            so_far,
            b,
            record::entry_timestamp(so_far, b),
        ),
{
}

/// Parts that agree one by one in the text that they show and in whether they
/// are left out are alike together.
pub proof fn parts_are_alike_one_by_one(role: Role, a: Seq<JsonModel>, b: Seq<JsonModel>)
    requires
        a.len() == b.len(),
        forall|i: int|
            0 <= i < a.len() ==> record::visible_part(role, #[trigger] a[i])
                == record::visible_part(role, b[i]) && record::unsupported_part(a[i])
                == record::unsupported_part(b[i]),
    ensures
        show_alike(role, a, b),
    decreases a.len(),
{
    if a.len() > 0 {
        assert(record::visible_part(role, a[a.len() - 1]) == record::visible_part(
            role,
            b[a.len() - 1],
        ));
        assert forall|i: int| 0 <= i < a.drop_last().len() implies record::visible_part(
            role,
            #[trigger] a.drop_last()[i],
        ) == record::visible_part(role, b.drop_last()[i]) && record::unsupported_part(
            a.drop_last()[i],
        ) == record::unsupported_part(b.drop_last()[i]) by {
            assert(record::visible_part(role, a[i]) == record::visible_part(role, b[i]));
        }
        parts_are_alike_one_by_one(role, a.drop_last(), b.drop_last());
    }
}

/// Nothing of a content part but its type and its text has any bearing on what
/// is imported; nor has its text where its type is not imported.
pub proof fn nothing_else_of_a_part_is_read(role: Role, a: JsonModel, b: JsonModel)
    requires
        a.member("type"@) == b.member("type"@),
        a.member("text"@) == b.member("text"@) || !(a.member("type"@).text() matches Some(kind)
            && record::text_kind(kind)),
    ensures
        record::visible_part(role, a) == record::visible_part(role, b),
        record::unsupported_part(a) == record::unsupported_part(b),
{
}

/// Of two parts by a user, what stands in the runtime envelopes at the start of
/// their texts has no bearing on what is imported.
pub proof fn nothing_in_an_envelope_is_read(a: JsonModel, b: JsonModel)
    requires
        a.member("type"@) == b.member("type"@),
        match (a.member("text"@).text(), b.member("text"@).text()) {
            (Some(s), Some(t)) => envelope::past_envelopes(s) == envelope::past_envelopes(t),
            _ => false,
        },
    ensures
        record::visible_part(Role::User, a) == record::visible_part(Role::User, b),
        record::unsupported_part(a) == record::unsupported_part(b),
{
}

/// Whether `a` and `b` agree in the members that are read of some entry: the type
/// and the timestamp, the id, type and role in the payload, and the type and the
/// text of each part of the content there.
pub open spec fn members_alike(a: JsonModel, b: JsonModel) -> bool {
    let p = a.member("payload"@);
    let q = b.member("payload"@);
    &&& a.member("type"@) == b.member("type"@)
    &&& a.member("timestamp"@) == b.member("timestamp"@)
    &&& p.member("id"@) == q.member("id"@)
    &&& p.member("type"@) == q.member("type"@)
    &&& p.member("role"@) == q.member("role"@)
    &&& match (p.member("content"@).items(), q.member("content"@).items()) {
        (Some(x), Some(y)) => x.len() == y.len() && forall|i: int|
            0 <= i < x.len() ==> (#[trigger] x[i]).member("type"@) == y[i].member("type"@)
                && x[i].member("text"@) == y[i].member("text"@),
        (None, None) => true,
        _ => false,
    }
}

/// No other member of an entry, of its payload or of a content part is read,
/// whatever the kind of the entry.
pub proof fn no_other_member_is_read(a: JsonModel, b: JsonModel)
    requires
        members_alike(a, b),
    ensures
        read_alike(a, b),
{
    if let EntryKind::Message(role) = record::entry_kind(a) {
        let (x, y) = (parts_of(a), parts_of(b));
        assert forall|i: int| 0 <= i < x.len() implies record::visible_part(role, #[trigger] x[i])
            == record::visible_part(role, y[i]) && record::unsupported_part(x[i])
            == record::unsupported_part(y[i]) by {
            nothing_else_of_a_part_is_read(role, x[i], y[i]);
        }
        parts_are_alike_one_by_one(role, x, y);
    }
}

/// Whether `entry` leaves no trace: it is neither session metadata nor a message
/// by a user or an assistant that shows something or has parts that are left
/// out.
pub open spec fn traceless_entry(entry: JsonModel) -> bool {
    match record::entry_kind(entry) {
        EntryKind::Metadata => false,
        EntryKind::Message(role) => record::visible_parts(role, parts_of(entry)).len() == 0
            && record::unsupported_parts(parts_of(entry)) == 0,
        EntryKind::Hidden => true,
    }
}

/// Whether `line` leaves no trace: it is blank, or its entry leaves none.
pub open spec fn traceless(line: Seq<char>) -> bool {
    encode_utf8(line).len() <= record::MAX_LINE_BYTES && (text::blank(line) || (
    json_text::read_json(line) matches Some(entry) && traceless_entry(entry)))
}

/// The lines that leave a trace, in their order.
pub open spec fn traced(lines: Seq<Seq<char>>) -> Seq<Seq<char>>
    decreases lines.len(),
{
    if lines.len() == 0 {
        Seq::empty()
    } else if traceless(lines[0]) {
        traced(lines.drop_first())
    } else {
        seq![lines[0]] + traced(lines.drop_first())
    }
}

/// Whether `a` and `b` are the same line, or hold entries that agree in all that
/// is read of an entry.
pub open spec fn lines_alike(a: Seq<char>, b: Seq<char>) -> bool {
    a == b || {
        &&& encode_utf8(a).len() <= record::MAX_LINE_BYTES
        &&& encode_utf8(b).len() <= record::MAX_LINE_BYTES
        &&& !text::blank(a)
        &&& !text::blank(b)
        &&& json_text::read_json(a) is Some
        &&& json_text::read_json(b) is Some
        &&& read_alike(json_text::read_json(a)->0, json_text::read_json(b)->0)
    }
}

proof fn lemma_traceless_lines(so_far: TranscriptModel, lines: Seq<Seq<char>>)
    requires
        so_far.unsupported_content <= usize::MAX,
    ensures
        record::lines_read(so_far, lines) == record::lines_read(so_far, traced(lines)),
    decreases lines.len(),
{
    if lines.len() > 0 {
        let rest = lines.drop_first();
        if traceless(lines[0]) {
            lemma_traceless_lines(so_far, rest);
        } else {
            assert(traced(lines).drop_first() =~= traced(rest));
            if let Ok(next) = record::line_read(so_far, lines[0]) {
                lemma_traceless_lines(next, rest);
            }
        }
    }
}

proof fn lemma_lines_alike(so_far: TranscriptModel, a: Seq<Seq<char>>, b: Seq<Seq<char>>)
    requires
        a.len() == b.len(),
        forall|i: int| 0 <= i < a.len() ==> lines_alike(#[trigger] a[i], b[i]),
    ensures
        record::lines_read(so_far, a) == record::lines_read(so_far, b),
    decreases a.len(),
{
    if a.len() > 0 {
        assert(lines_alike(a[0], b[0]));
        if a[0] != b[0] {
            nothing_else_of_an_entry_is_read(
                so_far,
                json_text::read_json(a[0])->0,
                json_text::read_json(b[0])->0,
            );
        }
        assert(record::line_read(so_far, a[0]) == record::line_read(so_far, b[0]));
        if let Ok(next) = record::line_read(so_far, a[0]) {
            assert forall|i: int| 0 <= i < a.drop_first().len() implies lines_alike(
                #[trigger] a.drop_first()[i],
                b.drop_first()[i],
            ) by {
                assert(lines_alike(a[i + 1], b[i + 1]));
            }
            lemma_lines_alike(next, a.drop_first(), b.drop_first());
        }
    }
}

/// Two files that differ only in what is not read, in lines that leave no trace
/// or in what is not read of an entry of its kind, hold the same record but for
/// the hash of the content; or neither holds one, for the same reason.
pub proof fn nothing_else_of_a_file_is_read(a: Seq<u8>, b: Seq<u8>)
    requires
        valid_utf8(a),
        valid_utf8(b),
        traced(text::lines(decode_utf8(a))).len() == traced(text::lines(decode_utf8(b))).len(),
        forall|i: int|
            0 <= i < traced(text::lines(decode_utf8(a))).len() ==> lines_alike(
                #[trigger] traced(text::lines(decode_utf8(a)))[i],
                traced(text::lines(decode_utf8(b)))[i],
            ),
    ensures
        match (record::recorded(a), record::recorded(b)) {
            (Ok(x), Ok(y)) => y == (RecordModel { hash: y.hash, ..x }),
            (Err(e), Err(f)) => e == f,
            _ => false,
        },
{
    let (x, y) = (text::lines(decode_utf8(a)), text::lines(decode_utf8(b)));
    lemma_traceless_lines(record::nothing_read(), x);
    lemma_traceless_lines(record::nothing_read(), y);
    lemma_lines_alike(record::nothing_read(), traced(x), traced(y));
}

/// Lines behind others are read as if the others had been read before.
pub proof fn lines_are_read_in_order(
    so_far: TranscriptModel,
    first: Seq<Seq<char>>,
    more: Seq<Seq<char>>,
)
    ensures
        record::lines_read(so_far, first + more) == (match record::lines_read(so_far, first) {
            Ok(transcript) => record::lines_read(transcript, more),
            Err(error) => Err(error),
        }),
    decreases first.len(),
{
    if first.len() == 0 {
        assert(first + more =~= more);
    } else {
        assert((first + more).drop_first() =~= first.drop_first() + more);
        if let Ok(next) = record::line_read(so_far, first[0]) {
            lines_are_read_in_order(next, first.drop_first(), more);
        }
    }
}

/// What has been read stays: further lines only put messages behind those that
/// are there.
pub proof fn messages_only_grow(so_far: TranscriptModel, lines: Seq<Seq<char>>)
    ensures
        record::lines_read(so_far, lines) matches Ok(transcript) ==> so_far.messages.is_prefix_of(
            transcript.messages,
        ),
    decreases lines.len(),
{
    if lines.len() > 0 {
        if let Ok(next) = record::line_read(so_far, lines[0]) {
            messages_only_grow(next, lines.drop_first());
            assert(so_far.messages.is_prefix_of(next.messages));
            if let Ok(transcript) = record::lines_read(so_far, lines) {
                assert(so_far.messages =~= transcript.messages.subrange(
                    0,
                    so_far.messages.len() as int,
                )) by {
                    assert forall|i: int| 0 <= i < so_far.messages.len() implies so_far.messages[i]
                        == transcript.messages[i] by {
                        assert(so_far.messages[i] == next.messages[i]);
                        assert(next.messages[i] == transcript.messages.subrange(
                            0,
                            next.messages.len() as int,
                        )[i]);
                    }
                }
            }
        }
    }
}

// ---------------------------------------------------------------------------
// What is shown of a message
// ---------------------------------------------------------------------------

/// A part of type `input_text` or `output_text` shows its text: all of it for an
/// assistant, and what follows the envelopes for a user, where there is anything
/// to show. A part of another type shows nothing and is counted; a part without
/// a type shows nothing and is not.
pub proof fn text_parts_are_shown(part: JsonModel)
    ensures
        ({
            let kind = part.member("type"@);
            let textual = kind == JsonModel::Text("input_text"@) || kind == JsonModel::Text(
                "output_text"@,
            );
            &&& textual ==> match part.member("text"@) {
                JsonModel::Text(chars) => {
                    &&& chars.len() > 0 ==> record::visible_part(Role::Assistant, part) == Some(chars)
                    &&& chars.len() == 0 ==> record::visible_part(Role::Assistant, part) is None
                    &&& text::blank(envelope::past_envelopes(chars)) ==> record::visible_part(
                        Role::User,
                        part,
                    ) is None
                    &&& !text::blank(envelope::past_envelopes(chars)) ==> record::visible_part(
                        Role::User,
                        part,
                    ) == Some(envelope::past_envelopes(chars))
                },
                _ => record::visible_part(Role::Assistant, part) is None && record::visible_part(
                    Role::User,
                    part,
                ) is None,
            }
            &&& !textual ==> record::visible_part(Role::Assistant, part) is None
                && record::visible_part(Role::User, part) is None
            &&& record::unsupported_part(part) <==> kind is Text && !textual
        }),
{
}

/// What two lists of parts show is what the first shows and then what the second
/// shows, and as many parts are left out as in both; a part alone shows its text,
/// if it shows one.
pub proof fn parts_are_shown_in_order(
    role: Role,
    a: Seq<JsonModel>,
    b: Seq<JsonModel>,
    part: JsonModel,
)
    ensures
        record::visible_parts(role, a + b) == record::visible_parts(role, a)
            + record::visible_parts(role, b),
        record::unsupported_parts(a + b) == record::unsupported_parts(a)
            + record::unsupported_parts(b),
        record::visible_parts(role, Seq::empty()) == Seq::<Seq<char>>::empty(),
        record::unsupported_parts(Seq::empty()) == 0,
        record::visible_part(role, part) matches Some(chars) ==> record::visible_parts(
            role,
            seq![part],
        ) == seq![chars],
        record::visible_part(role, part) is None ==> record::visible_parts(role, seq![part])
            == Seq::<Seq<char>>::empty(),
        record::unsupported_parts(seq![part]) == (if record::unsupported_part(part) {
            1nat
        } else {
            0nat
        }),
    decreases b.len(),
{
    reveal_with_fuel(record::visible_parts, 2);
    reveal_with_fuel(record::unsupported_parts, 2);
    assert(seq![part].drop_last() =~= Seq::empty());
    if let Some(chars) = record::visible_part(role, part) {
        assert(record::visible_parts(role, seq![part]) =~= seq![chars]);
    }
    if b.len() == 0 {
        assert(a + b =~= a);
        assert(record::visible_parts(role, a) + record::visible_parts(role, b)
            =~= record::visible_parts(role, a));
    } else {
        parts_are_shown_in_order(role, a, b.drop_last(), part);
        assert((a + b).drop_last() =~= a + b.drop_last());
        assert(record::visible_parts(role, a + b) =~= record::visible_parts(role, a)
            + record::visible_parts(role, b));
    }
}

proof fn lemma_some_part_shows(role: Role, parts: Seq<JsonModel>, at: int)
    requires
        0 <= at < parts.len(),
        record::visible_part(role, parts[at]) is Some,
    ensures
        record::visible_parts(role, parts).len() > 0,
    decreases parts.len(),
{
    if at < parts.len() - 1 {
        lemma_some_part_shows(role, parts.drop_last(), at);
    }
}

// ---------------------------------------------------------------------------
// What an entry is
// ---------------------------------------------------------------------------

/// An entry is the metadata of a session by its type alone, and a message by its
/// type, that of its payload, one of the two roles, and a list of parts.
pub proof fn entries_are_told_by_their_types(entry: JsonModel)
    ensures
        ({
            let payload = entry.member("payload"@);
            let message = entry.member("type"@) == JsonModel::Text("response_item"@)
                && payload.member("type"@) == JsonModel::Text("message"@) && payload.member(
                "content"@,
            ) is Array;
            &&& record::entry_kind(entry) is Metadata <==> entry.member("type"@) == JsonModel::Text(
                "session_meta"@,
            )
            &&& record::entry_kind(entry) == EntryKind::Message(Role::User) <==> message
                && payload.member("role"@) == JsonModel::Text("user"@)
            &&& record::entry_kind(entry) == EntryKind::Message(Role::Assistant) <==> message
                && payload.member("role"@) == JsonModel::Text("assistant"@)
            &&& payload.member("content"@) matches JsonModel::Array(parts) ==> parts_of(entry)
                == parts
        }),
{
    reveal_strlit("session_meta");
    reveal_strlit("response_item");
    reveal_strlit("user");
    reveal_strlit("assistant");
    assert("session_meta"@.len() == 12 && "response_item"@.len() == 13);
    assert("user"@.len() == 4 && "assistant"@.len() == 9);
}

/// The session id in metadata is the text of `id` in their payload, where that
/// is not empty, takes at most 128 bytes and holds no control characters.
pub proof fn metadata_give_an_acceptable_id(entry: JsonModel, id: Seq<char>)
    ensures
        record::metadata_id(entry) == Some(id) <==> {
            &&& entry.member("payload"@).member("id"@) == JsonModel::Text(id)
            &&& id.len() > 0
            &&& encode_utf8(id).len() <= 128
            &&& forall|i: int| 0 <= i < id.len() ==> !text::control(#[trigger] id[i])
        },
{
}

/// The timestamp of an entry is its own where that is valid. For metadata the
/// epoch stands in for it; for a message, the timestamp of the message before it,
/// that of the session, or the epoch.
pub proof fn entries_are_dated_in_turn(so_far: TranscriptModel, entry: JsonModel)
    ensures
        ({
            let stamp = record::entry_timestamp(so_far, entry);
            match own_timestamp(entry) {
                Some(own) => stamp == own,
                None => if entry.member("type"@) == JsonModel::Text("session_meta"@) {
                    stamp == "1970-01-01T00:00:00Z"@
                } else {
                    &&& so_far.last_timestamp matches Some(last) ==> stamp == last
                    &&& so_far.last_timestamp is None ==> {
                        &&& so_far.created_at matches Some(created) ==> stamp == created
                        &&& so_far.created_at is None ==> stamp == "1970-01-01T00:00:00Z"@
                    }
                },
            }
        }),
{
    entries_are_told_by_their_types(entry);
}

// ---------------------------------------------------------------------------
// What a line does
// ---------------------------------------------------------------------------

/// Whether `line` can be read, as `entry`.
pub open spec fn reads_as(line: Seq<char>, entry: JsonModel) -> bool {
    encode_utf8(line).len() <= 4194304 && !text::blank(line) && json_text::read_json(line) == Some(
        entry,
    )
}

/// Every message of a user or an assistant with a part that shows something adds
/// exactly one message, behind all that are there, whoever wrote those: with that
/// role, the texts that its parts show with a blank line between them, and its
/// timestamp.
pub proof fn every_visible_message_is_added(
    so_far: TranscriptModel,
    line: Seq<char>,
    entry: JsonModel,
    role: Role,
    at: int,
)
    requires
        reads_as(line, entry),
        record::entry_kind(entry) == EntryKind::Message(role),
        0 <= at < parts_of(entry).len(),
        record::visible_part(role, parts_of(entry)[at]) is Some,
    ensures
        record::line_read(so_far, line) matches Ok(next) && {
            &&& next.messages.len() == so_far.messages.len() + 1
            &&& forall|i: int|
                0 <= i < so_far.messages.len() ==> next.messages[i] == #[trigger] so_far.messages[i]
            &&& next.messages.last().role == role
            &&& next.messages.last().content == text::joined(
                record::visible_parts(role, parts_of(entry)),
                "\n\n"@,
            )
            &&& next.messages.last().timestamp == record::entry_timestamp(so_far, entry)
            &&& next.last_timestamp == Some(next.messages.last().timestamp)
            &&& next.source_id == so_far.source_id
            &&& next.created_at == so_far.created_at
            &&& next.seen_metadata == so_far.seen_metadata
            &&& so_far.unsupported_content + record::unsupported_parts(parts_of(entry))
                <= usize::MAX ==> next.unsupported_content == so_far.unsupported_content
                + record::unsupported_parts(parts_of(entry))
        },
{
    lemma_some_part_shows(role, parts_of(entry), at);
}

/// A message that shows nothing only adds to the count of parts that are left
/// out.
pub proof fn messages_that_show_nothing_are_not_added(
    so_far: TranscriptModel,
    line: Seq<char>,
    entry: JsonModel,
    role: Role,
)
    requires
        reads_as(line, entry),
        record::entry_kind(entry) == EntryKind::Message(role),
        forall|i: int|
            0 <= i < parts_of(entry).len() ==> record::visible_part(
                role,
                #[trigger] parts_of(entry)[i],
            ) is None,
        so_far.unsupported_content + record::unsupported_parts(parts_of(entry)) <= usize::MAX,
    ensures
        record::line_read(so_far, line) == Ok::<TranscriptModel, RecordError>(
            TranscriptModel {
                source_id: so_far.source_id,
                seen_metadata: so_far.seen_metadata,
                created_at: so_far.created_at,
                messages: so_far.messages,
                unsupported_content: so_far.unsupported_content + record::unsupported_parts(
                    parts_of(entry),
                ),
                last_timestamp: so_far.last_timestamp,
            },
        ),
{
    lemma_no_part_shows(role, parts_of(entry));
}

proof fn lemma_no_part_shows(role: Role, parts: Seq<JsonModel>)
    requires
        forall|i: int| 0 <= i < parts.len() ==> record::visible_part(role, #[trigger] parts[i]) is None,
    ensures
        record::visible_parts(role, parts).len() == 0,
    decreases parts.len(),
{
    if parts.len() > 0 {
        assert(record::visible_part(role, parts[parts.len() - 1]) is None);
        assert forall|i: int| 0 <= i < parts.drop_last().len() implies record::visible_part(
            role,
            #[trigger] parts.drop_last()[i],
        ) is None by {
            assert(record::visible_part(role, parts[i]) is None);
        }
        lemma_no_part_shows(role, parts.drop_last());
    }
}

/// The first metadata of a session give its id and when it was created, and touch
/// nothing else; further metadata are an error.
pub proof fn metadata_name_and_date_the_session(
    so_far: TranscriptModel,
    line: Seq<char>,
    entry: JsonModel,
)
    requires
        reads_as(line, entry),
        entry.member("type"@) == JsonModel::Text("session_meta"@),
    ensures
        so_far.seen_metadata ==> record::line_read(so_far, line) == Err::<
            TranscriptModel,
            RecordError,
        >(RecordError::DuplicateMetadata),
        !so_far.seen_metadata ==> record::line_read(so_far, line) == Ok::<
            TranscriptModel,
            RecordError,
        >(
            TranscriptModel {
                source_id: record::metadata_id(entry),
                seen_metadata: true,
                created_at: Some(
                    match own_timestamp(entry) {
                        Some(own) => own,
                        None => "1970-01-01T00:00:00Z"@,
                    },
                ),
                messages: so_far.messages,
                unsupported_content: so_far.unsupported_content,
                last_timestamp: so_far.last_timestamp,
            },
        ),
{
}

/// A line that is too long, or neither blank nor JSON, is an error of its own; a
/// blank line, and an entry that is neither metadata nor a message, change
/// nothing.
pub proof fn other_lines_change_nothing_or_fail(so_far: TranscriptModel, line: Seq<char>)
    ensures
        encode_utf8(line).len() > 4194304 ==> record::line_read(so_far, line) == Err::<
            TranscriptModel,
            RecordError,
        >(RecordError::LineTooLong),
        encode_utf8(line).len() <= 4194304 && text::blank(line) ==> record::line_read(so_far, line)
            == Ok::<TranscriptModel, RecordError>(so_far),
        encode_utf8(line).len() <= 4194304 && !text::blank(line) && json_text::read_json(
            line,
        ) is None ==> record::line_read(so_far, line) == Err::<TranscriptModel, RecordError>(
            RecordError::InvalidLine,
        ),
        json_text::read_json(line) matches Some(entry) ==> (reads_as(line, entry)
            && record::entry_kind(entry) is Hidden ==> record::line_read(so_far, line) == Ok::<
            TranscriptModel,
            RecordError,
        >(so_far)),
{
}

/// Reading starts with nothing; no lines leave a transcript as it is, and one
/// line is read by itself.
pub proof fn reading_goes_line_by_line(so_far: TranscriptModel, line: Seq<char>)
    ensures
        record::lines_read(so_far, Seq::empty()) == Ok::<TranscriptModel, RecordError>(so_far),
        record::lines_read(so_far, seq![line]) == record::line_read(so_far, line),
        record::nothing_read().messages.len() == 0,
        record::nothing_read().unsupported_content == 0,
        record::nothing_read().source_id is None,
        record::nothing_read().created_at is None,
        record::nothing_read().last_timestamp is None,
        !record::nothing_read().seen_metadata,
{
    reveal_with_fuel(record::lines_read, 2);
    assert(seq![line].drop_first() =~= Seq::empty());
}

/// Whether `line` holds a message of a user or an assistant with a part that
/// shows something.
pub open spec fn visible_message_line(line: Seq<char>) -> bool {
    !text::blank(line) && (json_text::read_json(line) matches Some(entry)
        && record::entry_kind(entry) matches EntryKind::Message(role) && exists|i: int|
        0 <= i < parts_of(entry).len() && record::visible_part(
            role,
            #[trigger] parts_of(entry)[i],
        ) is Some)
}

/// How many of `lines` hold a message that shows something.
pub open spec fn visible_message_lines(lines: Seq<Seq<char>>) -> nat
    decreases lines.len(),
{
    if lines.len() == 0 {
        0
    } else {
        visible_message_lines(lines.drop_first()) + if visible_message_line(lines[0]) {
            1nat
        } else {
            0nat
        }
    }
}

/// There are as many messages as there are lines with a message that shows
/// something.
pub proof fn messages_are_as_many_as_visible_message_lines(
    so_far: TranscriptModel,
    lines: Seq<Seq<char>>,
)
    ensures
        record::lines_read(so_far, lines) matches Ok(transcript) ==> transcript.messages.len()
            == so_far.messages.len() + visible_message_lines(lines),
    decreases lines.len(),
{
    if lines.len() > 0 {
        let line = lines[0];
        if let Ok(next) = record::line_read(so_far, line) {
            messages_are_as_many_as_visible_message_lines(next, lines.drop_first());
            if let Some(entry) = json_text::read_json(line) {
                if let EntryKind::Message(role) = record::entry_kind(entry) {
                    if visible_message_line(line) {
                        let i = choose|i: int|
                            0 <= i < parts_of(entry).len() && record::visible_part(
                                role,
                                #[trigger] parts_of(entry)[i],
                            ) is Some;
                        lemma_some_part_shows(role, parts_of(entry), i);
                    } else if !text::blank(line) {
                        lemma_no_part_shows(role, parts_of(entry));
                    }
                }
            }
        }
    }
}

// ---------------------------------------------------------------------------
// What a file holds
// ---------------------------------------------------------------------------

/// The first visible line is the first that is not blank, if there is one.
pub proof fn the_first_visible_line_is_the_first(lines: Seq<Seq<char>>, at: int)
    requires
        forall|i: int| 0 <= i < at && i < lines.len() ==> text::blank(#[trigger] lines[i]),
    ensures
        0 <= at < lines.len() && !text::blank(lines[at]) ==> record::first_visible(lines)
            == lines[at],
        at >= lines.len() ==> record::first_visible(lines).len() == 0,
    decreases lines.len(),
{
    if at > 0 && lines.len() > 0 {
        assert(text::blank(lines[0]));
        let rest = lines.drop_first();
        assert forall|i: int| 0 <= i < at - 1 && i < rest.len() implies text::blank(
            #[trigger] rest[i],
        ) by {
            assert(text::blank(lines[i + 1]));
        }
        the_first_visible_line_is_the_first(rest, at - 1);
    }
}

/// A record needs an id and a message, and holds all that was read: the id, the
/// messages, when the session was created, when its last message was written, the
/// count of parts that were left out, the title of the messages and the hash.
pub proof fn records_hold_all_that_was_read(transcript: TranscriptModel, hash: Seq<char>)
    ensures
        match transcript.source_id {
            None => record::finished(transcript, hash) == Err::<RecordModel, RecordError>(
                RecordError::MissingSessionId,
            ),
            Some(id) => if transcript.messages.len() == 0 {
                record::finished(transcript, hash) == Err::<RecordModel, RecordError>(
                    RecordError::NoVisibleMessages,
                )
            } else {
                record::finished(transcript, hash) matches Ok(found) && {
                    &&& found.source_id == id
                    &&& found.messages == transcript.messages
                    &&& found.hash == hash
                    &&& found.unsupported_content == transcript.unsupported_content
                    &&& found.title == record::titled(transcript.messages)
                    &&& transcript.created_at matches Some(created) ==> found.created_at == created
                    &&& transcript.created_at is None ==> found.created_at
                        == "1970-01-01T00:00:00Z"@
                    &&& transcript.last_timestamp matches Some(last) ==> found.updated_at == last
                    &&& transcript.last_timestamp is None ==> found.updated_at == found.created_at
                }
            },
        },
{
}

/// The record of a file is that of its lines, with the hash of its content; a
/// file that is no text has none.
pub proof fn files_are_read_by_their_lines(s: Seq<char>, bytes: Seq<u8>)
    ensures
        !valid_utf8(bytes) ==> record::recorded(bytes) == Err::<RecordModel, RecordError>(
            RecordError::NotUtf8,
        ),
        match record::lines_read(record::nothing_read(), text::lines(s)) {
            Ok(transcript) => record::recorded(encode_utf8(s)) == record::finished(
                transcript,
                record::blake3_hex(encode_utf8(s)),
            ),
            Err(error) => record::recorded(encode_utf8(s)) == Err::<RecordModel, RecordError>(error),
        },
{
    encode_utf8_valid_utf8(s);
    encode_utf8_decode_utf8(s);
}

/// A file that goes on with one more visible message holds one more message: the
/// record has those of before and this one, was updated when this one was
/// written, or when the one before was where it has no valid timestamp, and is of
/// the same session.
pub proof fn a_further_message_is_recorded(
    s: Seq<char>,
    line: Seq<char>,
    entry: JsonModel,
    role: Role,
    at: int,
)
    requires
        s.len() == 0 || s.last() == '\n',
        line.len() > 0,
        forall|i: int| 0 <= i < line.len() ==> line[i] != '\n',
        reads_as(line, entry),
        record::entry_kind(entry) == EntryKind::Message(role),
        0 <= at < parts_of(entry).len(),
        record::visible_part(role, parts_of(entry)[at]) is Some,
        record::recorded(encode_utf8(s)) is Ok,
    ensures
        record::recorded(encode_utf8(s + line)) matches Ok(after) && {
            let before = record::recorded(encode_utf8(s))->Ok_0;
            let stamp = match own_timestamp(entry) {
                Some(own) => own,
                None => before.updated_at,
            };
            &&& after.messages == before.messages.push(
                MessageModel {
                    role,
                    content: text::joined(
                        record::visible_parts(role, parts_of(entry)),
                        "\n\n"@,
                    ),
                    timestamp: stamp,
                },
            )
            &&& after.updated_at == stamp
            &&& after.created_at == before.created_at
            &&& after.source_id == before.source_id
        },
{
    files_are_read_by_their_lines(s, Seq::empty());
    files_are_read_by_their_lines(s + line, Seq::empty());
    text::a_further_line_comes_last(s, line);
    let start = record::nothing_read();
    let lines = text::lines(s);
    let transcript = record::lines_read(start, lines)->Ok_0;
    assert(consistent(start));
    transcripts_are_consistent(start, lines);
    assert(lines.push(line) =~= lines + seq![line]);
    lines_are_read_in_order(start, lines, seq![line]);
    reading_goes_line_by_line(transcript, line);
    every_visible_message_is_added(transcript, line, entry, role, at);
    entries_are_dated_in_turn(transcript, entry);
    entries_are_told_by_their_types(entry);
    let next = record::line_read(transcript, line)->Ok_0;
    assert(next.messages =~= transcript.messages.push(next.messages.last()));
}

/// What messages hold is held one by one, in their order; and a record holds all
/// of its fields.
pub proof fn records_show_all_that_they_hold(found: ImportedRecord, i: int)
    requires
        0 <= i < found.messages@.len(),
    ensures
        found@.messages.len() == found.messages@.len(),
        found@.messages[i].role == found.messages@[i].role,
        found@.messages[i].content == found.messages@[i].content@,
        found@.messages[i].timestamp == found.messages@[i].timestamp@,
        found@.source_id == found.source_id@,
        found@.created_at == found.created_at@,
        found@.updated_at == found.updated_at@,
        found@.title == found.title@,
        found@.hash == found.hash@,
        found@.unsupported_content == found.unsupported_content,
{
}

/// A transcript shows all that it holds.
pub proof fn transcripts_show_all_that_they_hold(transcript: Transcript, i: int)
    ensures
        transcript@.source_id == text::optional_chars(transcript.source_id),
        transcript@.seen_metadata == transcript.seen_metadata,
        transcript@.created_at == text::optional_chars(transcript.created_at),
        transcript@.unsupported_content == transcript.unsupported_content,
        transcript@.last_timestamp == text::optional_chars(transcript.last_timestamp),
        transcript@.messages.len() == transcript.messages@.len(),
        0 <= i < transcript.messages@.len() ==> transcript@.messages[i].role
            == transcript.messages@[i].role && transcript@.messages[i].content
            == transcript.messages@[i].content@ && transcript@.messages[i].timestamp
            == transcript.messages@[i].timestamp@,
{
}

} // verus!
