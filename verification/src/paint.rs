//! Terminal colours, from the `colored` crate.
//!
//! Whether `colored` writes escape codes depends on the environment (`NO_COLOR`,
//! `CLICOLOR`, `CLICOLOR_FORCE`, and whether standard output is a terminal), so a
//! painted text is one of two things: the text itself, or the text between a style
//! code and the reset code.

use vstd::prelude::*;
use colored::Colorize;

verus! {

/// The reset sequence `ESC [ 0 m` that `colored` writes after a styled text.
pub open spec fn reset_code() -> Seq<char> {
    seq!['\u{1b}', '[', '0', 'm']
}

/// `s` holds the reset sequence somewhere.
pub open spec fn has_reset(s: Seq<char>) -> bool {
    exists|i: int| 0 <= i && i + 4 <= s.len() && #[trigger] s.subrange(i, i + 4) == reset_code()
}

/// `ESC [ code m`, then the text, then the reset sequence.
pub open spec fn styled(code: Seq<char>, text: Seq<char>) -> Seq<char> {
    seq!['\u{1b}', '['] + code + seq!['m'] + text + reset_code()
}

/// `out` is what `colored` may print for `text` in the style `code`: the plain text
/// when colours are off, the styled text when they are on. (A text that itself holds
/// the reset sequence is rewritten by `colored`; nothing is claimed of it.)
pub open spec fn painted(out: Seq<char>, code: Seq<char>, text: Seq<char>) -> bool {
    has_reset(text) || out == text || out == styled(code, text)
}

/// The style codes that `colored` writes for the colours this program uses.
pub open spec fn yellow_code() -> Seq<char> {
    seq!['3', '3']
}

pub open spec fn purple_code() -> Seq<char> {
    seq!['3', '5']
}

pub open spec fn green_code() -> Seq<char> {
    seq!['3', '2']
}

pub open spec fn dimmed_code() -> Seq<char> {
    seq!['2']
}

/// The text in yellow, with `colored`'s `Colorize::yellow` and `Display`.
#[verifier::external_body]
pub(crate) fn yellow(text: &str) -> (r: String)
    ensures
        painted(r@, yellow_code(), text@),
{
    text.yellow().to_string()
}

/// The text in purple, with `colored`'s `Colorize::purple` and `Display`.
#[verifier::external_body]
pub(crate) fn purple(text: &str) -> (r: String)
    ensures
        painted(r@, purple_code(), text@),
{
    text.purple().to_string()
}

/// The text in green, with `colored`'s `Colorize::green` and `Display`.
#[verifier::external_body]
pub(crate) fn green(text: &str) -> (r: String)
    ensures
        painted(r@, green_code(), text@),
{
    text.green().to_string()
}

/// The text dimmed, with `colored`'s `Colorize::dimmed` and `Display`.
#[verifier::external_body]
pub(crate) fn dimmed(text: &str) -> (r: String)
    ensures
        painted(r@, dimmed_code(), text@),
{
    text.dimmed().to_string()
}

} // verus!
