use crate::tentacle::LogLine;
use vstd::prelude::*;
use vstd::string::StringExecFns;

verus! {

/// How chrono writes the time `ms` milliseconds after the epoch, in UTC, as
/// `%H:%M:%S.%3f %d-%m-%Y`.
pub uninterp spec fn timestamp_text(ms: int) -> Seq<char>;

/// The times that chrono can represent lie between the years -262143 and
/// 262142; this bound, about 253 millennia either side of the epoch, is well
/// within them.
pub const RENDERABLE_MILLIS: i64 = 8_000_000_000_000_000;

/// Relies on chrono's `DateTime::from_timestamp_millis`, which gives `None`
/// only for a time out of its range, and on its `format` with the pattern
/// above, whose result is written out as a `String`.
#[verifier::external_body]
fn render_timestamp(ms: i64) -> (r: Option<String>)
    ensures
        -RENDERABLE_MILLIS <= ms <= RENDERABLE_MILLIS ==> r is Some,
        r matches Some(s) ==> s@ == timestamp_text(ms as int),
{
    match chrono::DateTime::from_timestamp_millis(ms) {
        Some(t) => Some(t.format("%H:%M:%S.%3f %d-%m-%Y").to_string()),
        None => None,
    }
}

/// The plain-text form of a line whose time reads `stamp`.
pub open spec fn text_line_of(stamp: Seq<char>, message: Seq<char>) -> Seq<char> {
    stamp + " "@ + message + "\n"@
}

/// A line in plain text, its time already rendered as `stamp`.
pub fn text_line_with(stamp: &str, line: &LogLine) -> (r: String)
    ensures
        r@ == text_line_of(stamp@, line.message@),
{
    proof {
        reveal_strlit(" ");
        reveal_strlit("\n");
    }
    let mut s = String::from_str(stamp);
    s.append(" ");
    s.append(line.message.as_str());
    s.append("\n");
    s
}

/// A line in plain text: its time, a space, its message and a newline;
/// `None` for a time that cannot be rendered.
pub fn text_line(line: &LogLine) -> (r: Option<String>)
    ensures
        -RENDERABLE_MILLIS <= line.timestamp <= RENDERABLE_MILLIS ==> r is Some,
        r matches Some(s) ==> s@ == text_line_of(timestamp_text(line.timestamp as int), line.message@),
{
    match render_timestamp(line.timestamp) {
        Some(stamp) => Some(text_line_with(stamp.as_str(), line)),
        None => None,
    }
}

} // verus!
