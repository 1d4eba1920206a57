//! The line protocol: one JSON message on each line, and heartbeats in between.
use vstd::prelude::*;
use vstd::string::*;
use vstd::utf8::*;

use crate::codec;
use crate::json::{Json, JsonView};
use crate::text;

verus! {

/// The longest line that is read, in bytes. Tickets, materials and files travel on a single line.
pub const MAX_LINE_SIZE: usize = 128 * 1024 * 1024;

/// A line that is longer than any that is read.
#[derive(Clone, Copy, Debug, PartialEq, Eq, Structural)]
pub struct LineTooLong {
    pub bytes: usize,
}

/// What is told of a line that is too long.
pub open spec fn too_long_text(bytes: usize) -> Seq<char> {
    "Line too long ("@ + text::decimal(bytes as nat) + " bytes, max "@ + text::decimal(
        MAX_LINE_SIZE as nat,
    ) + ")"@
}

impl LineTooLong {
    /// What is told of the line.
    pub fn text(&self) -> (told: String)
        ensures
            told@ == too_long_text(self.bytes),
    {
        let mut told = "Line too long (".to_string();
        told.append(text::decimal_of(self.bytes as u64).as_str());
        told.append(" bytes, max ");
        told.append(text::decimal_of(MAX_LINE_SIZE as u64).as_str());
        told.append(")");
        told
    }
}

/// The message on a line as it came from the connection: without the white space around it. A line
/// of no byte at all, not even the line feed, is the end of the connection.
pub fn read_line(line: &str) -> (message: Result<Option<String>, LineTooLong>)
    ensures
        match message {
            Ok(None) => line@.len() == 0,
            Ok(Some(m)) => line@.len() > 0 && line.spec_bytes().len() <= MAX_LINE_SIZE && m@
                == text::trimmed(line@),
            Err(e) => line.spec_bytes().len() > MAX_LINE_SIZE && e.bytes == line.spec_bytes().len(),
        },
{
    if line.is_empty() {
        return Ok(None);
    }
    let bytes = line.as_bytes().len();
    if bytes > MAX_LINE_SIZE {
        return Err(LineTooLong { bytes });
    }
    Ok(Some(text::trim(line)))
}

/// A message that only shows that the other end is there.
pub open spec fn heartbeat(message: JsonView) -> bool {
    message.text_at("type"@) == Some("ping"@) || message.text_at("type"@) == Some("pong"@)
}

/// The message that a line brings, from what the parser made of it: none where it is not JSON, and
/// none where it is a heartbeat.
pub open spec fn delivered(parsed: Result<JsonView, Seq<char>>) -> Option<JsonView> {
    match parsed {
        Ok(message) => if heartbeat(message) {
            None
        } else {
            Some(message)
        },
        Err(_) => None,
    }
}

/// The message that a line brings, from what the parser made of it.
pub fn deliver(parsed: Result<Json, String>) -> (message: Option<Json>)
    ensures
        delivered(codec::outcome(parsed)) == (match message {
            Some(m) => Some(m@),
            None => None,
        }),
{
    match parsed {
        Ok(message) => {
            let kind = message.text_at("type");
            if text::is_text(kind, "ping") || text::is_text(kind, "pong") {
                None
            } else {
                Some(message)
            }
        },
        Err(_) => None,
    }
}

/// The message that a line brings: none where it is empty, not JSON or a heartbeat.
pub open spec fn brought(line: Seq<char>) -> Option<JsonView> {
    if line.len() == 0 {
        None
    } else {
        delivered(codec::json_text(line))
    }
}

/// The message that a line brings: none where it is empty, not JSON or a heartbeat.
pub fn recv(line: &str) -> (message: Option<Json>)
    ensures
        brought(line@) == (match message {
            Some(m) => Some(m@),
            None => None,
        }),
{
    if line.is_empty() {
        return None;
    }
    deliver(codec::parse(line))
}

/// What a line means to one who waits for a message.
#[derive(Debug, PartialEq, Eq)]
pub enum Received {
    /// The connection is at its end.
    Closed,
    /// The line is longer than any that is read.
    TooLong(LineTooLong),
    /// The line brings nothing.
    Skipped,
    Message(Json),
}

/// What a line means to one who waits for a message.
#[verifier::ext_equal]
pub enum ReceivedView {
    Closed,
    TooLong(nat),
    Skipped,
    Message(JsonView),
}

impl View for Received {
    type V = ReceivedView;

    open spec fn view(&self) -> ReceivedView {
        match self {
            Received::Closed => ReceivedView::Closed,
            Received::TooLong(e) => ReceivedView::TooLong(e.bytes as nat),
            Received::Skipped => ReceivedView::Skipped,
            Received::Message(m) => ReceivedView::Message(m@),
        }
    }
}

/// What a line, as it came from the connection, means to one who waits for a message.
pub open spec fn receive_view(line: Seq<char>) -> ReceivedView {
    if line.len() == 0 {
        ReceivedView::Closed
    } else if encode_utf8(line).len() > MAX_LINE_SIZE {
        ReceivedView::TooLong(encode_utf8(line).len())
    } else {
        match brought(text::trimmed(line)) {
            Some(message) => ReceivedView::Message(message),
            None => ReceivedView::Skipped,
        }
    }
}

/// What a line, as it came from the connection, means to one who waits for a message.
pub fn receive(line: &str) -> (received: Received)
    ensures
        received@ == receive_view(line@),
{
    match read_line(line) {
        Ok(None) => Received::Closed,
        Ok(Some(message)) => match recv(message.as_str()) {
            Some(m) => Received::Message(m),
            None => Received::Skipped,
        },
        Err(e) => Received::TooLong(e),
    }
}

/// What the lines that have come mean to one who waits for a message: what the first of them means that
/// is not skipped.
pub open spec fn received_of(lines: Seq<Seq<char>>) -> ReceivedView
    decreases lines.len(),
{
    if lines.len() == 0 {
        ReceivedView::Skipped
    } else {
        match receive_view(lines[0]) {
            ReceivedView::Skipped => received_of(lines.drop_first()),
            received => received,
        }
    }
}

/// Empty lines, lines that are not JSON and heartbeats do not matter: the first line that is none of
/// these decides, whatever comes before it or after it, and before it one goes on waiting.
pub proof fn first_line_that_counts_decides(lines: Seq<Seq<char>>, i: int)
    requires
        0 <= i <= lines.len(),
        forall|j: int| 0 <= j < i ==> receive_view(#[trigger] lines[j]) is Skipped,
    ensures
        i == lines.len() ==> received_of(lines) is Skipped,
        i < lines.len() && !(receive_view(lines[i]) is Skipped) ==> received_of(lines)
            == receive_view(lines[i]),
    decreases i,
{
    if i > 0 {
        let rest = lines.drop_first();
        assert(receive_view(lines[0]) is Skipped);
        assert forall|j: int| 0 <= j < i - 1 implies receive_view(#[trigger] rest[j]) is Skipped by {
            assert(rest[j] == lines[j + 1]);
        }
        first_line_that_counts_decides(rest, i - 1);
    }
}

/// The line that a message is sent as.
pub open spec fn framed(message: JsonView) -> Seq<char> {
    codec::json_line(message).push('\n')
}

/// The line that a message is sent as. Its only line feed is the one at its end, so one who reads up to
/// a line feed takes this line and nothing of what follows it. Where the message is plain and no
/// heartbeat, it is what the line brings, without the white space around it.
pub fn send(message: &Json) -> (line: String)
    ensures
        line@ == framed(message@),
        forall|i: int|
            0 <= i < line@.len() ==> (#[trigger] line@[i] == '\n' <==> i == line@.len() - 1),
        forall|rest: Seq<char>|
            text::cut_at(#[trigger] (line@ + rest), '\n') == (line@.drop_last(), Some(rest)),
        text::trimmed(line@) == codec::json_line(message@),
        codec::plain(message@, 127) && !heartbeat(message@) ==> brought(text::trimmed(line@)) == Some(
            message@,
        ),
{
    let mut line = codec::line_of(message);
    let ghost written = line@;
    line.push('\n');
    proof {
        assert forall|i: int| 0 <= i < written.len() implies #[trigger] line@[i] != '\n' by {
            assert(written.contains(written[i]));
        }
        text::lemma_trimmed_line(written);
        assert(line@.drop_last() =~= written);
        assert forall|rest: Seq<char>|
            text::cut_at(#[trigger] (line@ + rest), '\n') == (line@.drop_last(), Some(rest)) by {
            text::lemma_cut_at(written, '\n', rest);
            assert(line@ + rest =~= written + seq!['\n'] + rest);
        }
    }
    line
}

/// A JSON line whose type is neither `ping` nor `pong`, or that has none, brings the value that it
/// spells, and one whose type is one of the two brings nothing. So does a line that is not JSON, and an
/// empty one.
pub proof fn only_pings_and_pongs_are_passed_over(line: Seq<char>)
    ensures
        match codec::json_text(line) {
            Ok(value) => {
                &&& line.len() > 0 && value.text_at("type"@) != Some("ping"@) && value.text_at("type"@)
                    != Some("pong"@) ==> brought(line) == Some(value)
                &&& value.text_at("type"@) == Some("ping"@) ==> brought(line) is None
                &&& value.text_at("type"@) == Some("pong"@) ==> brought(line) is None
            },
            Err(_) => brought(line) is None,
        },
        line.len() == 0 ==> brought(line) is None,
{
}

/// The same of what the parser has made of a line.
pub proof fn only_pings_and_pongs_are_not_delivered(value: JsonView, words: Seq<char>)
    ensures
        value.text_at("type"@) != Some("ping"@) && value.text_at("type"@) != Some("pong"@) ==> delivered(
            Ok(value),
        ) == Some(value),
        value.text_at("type"@) == Some("ping"@) || value.text_at("type"@) == Some("pong"@) ==> delivered(
            Ok(value),
        ) is None,
        delivered(Err(words)) is None,
        heartbeat(value) <==> value.text_at("type"@) == Some("ping"@) || value.text_at("type"@) == Some(
            "pong"@,
        ),
{
}

/// A line as it comes from the connection, with white space around a message that begins and ends with
/// something else: it brings the value that the message spells where its type is neither `ping` nor
/// `pong`, and is skipped where it is one of the two or the message is not JSON. A line of white space
/// alone is skipped.
pub proof fn lines_bring_what_they_spell(before: Seq<char>, message: Seq<char>, after: Seq<char>)
    requires
        forall|i: int| 0 <= i < before.len() ==> text::white_space(#[trigger] before[i]),
        forall|i: int| 0 <= i < after.len() ==> text::white_space(#[trigger] after[i]),
        message.len() > 0 ==> !text::white_space(message[0]) && !text::white_space(message.last()),
        (before + message + after).len() > 0,
        encode_utf8(before + message + after).len() <= 134217728,
    ensures
        ({
            let received = receive_view(before + message + after);
            &&& message.len() == 0 ==> received == ReceivedView::Skipped
            &&& message.len() > 0 ==> match codec::json_text(message) {
                Ok(value) => if value.text_at("type"@) == Some("ping"@) || value.text_at("type"@) == Some(
                    "pong"@,
                ) {
                    received == ReceivedView::Skipped
                } else {
                    received == ReceivedView::Message(value)
                },
                Err(_) => received == ReceivedView::Skipped,
            }
        }),
{
    text::trimming_undoes_padding(before, message, after);
}

/// A line of no character at all is the end of the connection, and one of more than 128 MiB is refused,
/// whatever it holds.
pub proof fn ends_and_long_lines_are_told(line: Seq<char>)
    ensures
        line.len() == 0 ==> receive_view(line) == ReceivedView::Closed,
        line.len() > 0 && encode_utf8(line).len() > 134217728 ==> receive_view(line)
            == ReceivedView::TooLong(encode_utf8(line).len()),
        line.len() > 0 && encode_utf8(line).len() <= 134217728 ==> receive_view(line) is Skipped
            || receive_view(line) is Message,
{
}

/// What is told of a line that is too long names its bytes and the most that are read.
pub proof fn long_lines_are_told_with_their_size(bytes: usize, digits: Seq<char>)
    requires
        text::all_digits(digits),
        digits[0] != '0',
        text::number_of(digits) == bytes,
    ensures
        too_long_text(bytes) == "Line too long ("@ + digits + " bytes, max 134217728)"@,
{
    text::digits_are_those_of_their_number(digits);
    reveal_strlit(" bytes, max 134217728)");
    reveal_strlit(" bytes, max ");
    reveal_strlit(")");
    reveal_strlit("134217728");
    assert("134217728"@ =~= seq!['1', '3', '4', '2', '1', '7', '7', '2', '8']);
    assert(text::number_of("134217728"@) == 134217728) by {
        reveal_with_fuel(text::number_of, 10);
        let s = "134217728"@;
        assert(s.drop_last() =~= seq!['1', '3', '4', '2', '1', '7', '7', '2']);
        assert(s.drop_last().drop_last() =~= seq!['1', '3', '4', '2', '1', '7', '7']);
        assert(seq!['1', '3', '4', '2', '1', '7', '7', '2'].drop_last() =~= seq!['1', '3', '4', '2', '1', '7', '7']);
        assert(seq!['1', '3', '4', '2', '1', '7', '7'].drop_last() =~= seq!['1', '3', '4', '2', '1', '7']);
        assert(seq!['1', '3', '4', '2', '1', '7'].drop_last() =~= seq!['1', '3', '4', '2', '1']);
        assert(seq!['1', '3', '4', '2', '1'].drop_last() =~= seq!['1', '3', '4', '2']);
        assert(seq!['1', '3', '4', '2'].drop_last() =~= seq!['1', '3', '4']);
        assert(seq!['1', '3', '4'].drop_last() =~= seq!['1', '3']);
        assert(seq!['1', '3'].drop_last() =~= seq!['1']);
        assert(seq!['1'].drop_last() =~= Seq::<char>::empty());
    }
    text::digits_are_those_of_their_number("134217728"@);
    assert(too_long_text(bytes) =~= "Line too long ("@ + digits + " bytes, max 134217728)"@);
}

/// The line of a message is what is written of it and a line feed.
pub proof fn lines_end_with_a_line_feed(message: JsonView)
    ensures
        framed(message) == codec::json_line(message) + seq!['\n'],
        MAX_LINE_SIZE == 134217728,
{
}

/// What was received is what the view says of it.
pub proof fn received_lines_say_what_they_are(message: Json, error: LineTooLong)
    ensures
        Received::Closed@ == ReceivedView::Closed,
        Received::Skipped@ == ReceivedView::Skipped,
        Received::Message(message)@ == ReceivedView::Message(message@),
        Received::TooLong(error)@ == ReceivedView::TooLong(error.bytes as nat),
{
}

}
