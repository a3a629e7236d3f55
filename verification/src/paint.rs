//! Terminal colouring through `yansi`.
use vstd::prelude::*;

verus! {

/// The ANSI escape character.
pub open spec fn esc() -> char {
    '\u{1b}'
}

/// `text` wrapped in the ANSI codes that set the foreground colour `code`
/// (a digit) and reset all styles afterwards.
pub open spec fn painted(code: char, text: Seq<char>) -> Seq<char> {
    seq![esc(), '[', '3', code, 'm'] + text + seq![esc(), '[', '0', 'm']
}

/// What displaying a coloured `text` may give: `yansi` writes the colour
/// codes around the text while painting is enabled (a process-wide switch)
/// and the bare text while it is disabled.
pub open spec fn paint_outcome(code: char, text: Seq<char>, shown: Seq<char>) -> bool {
    shown == text || shown == painted(code, text)
}

/// `yansi::Paint::red` displayed: the text wrapped in the codes for red
/// (`ESC[31m` ... `ESC[0m`), or the bare text when painting is disabled.
#[verifier::external_body]
pub(crate) fn paint_red(text: String) -> (r: String)
    ensures
        paint_outcome('1', text@, r@),
{
    format!("{}", yansi::Paint::red(text))
}

/// `yansi::Paint::green` displayed: the text wrapped in the codes for green
/// (`ESC[32m` ... `ESC[0m`), or the bare text when painting is disabled.
#[verifier::external_body]
pub(crate) fn paint_green(text: String) -> (r: String)
    ensures
        paint_outcome('2', text@, r@),
{
    format!("{}", yansi::Paint::green(text))
}

/// `yansi::Paint::yellow` displayed: the text wrapped in the codes for yellow
/// (`ESC[33m` ... `ESC[0m`), or the bare text when painting is disabled.
#[verifier::external_body]
pub(crate) fn paint_yellow(text: String) -> (r: String)
    ensures
        paint_outcome('3', text@, r@),
{
    format!("{}", yansi::Paint::yellow(text))
}

/// `yansi::Paint::blue` displayed: the text wrapped in the codes for blue
/// (`ESC[34m` ... `ESC[0m`), or the bare text when painting is disabled.
#[verifier::external_body]
pub(crate) fn paint_blue(text: String) -> (r: String)
    ensures
        paint_outcome('4', text@, r@),
{
    format!("{}", yansi::Paint::blue(text))
}

/// `yansi::Paint::magenta` displayed: the text wrapped in the codes for
/// magenta (`ESC[35m` ... `ESC[0m`), or the bare text when painting is
/// disabled.
#[verifier::external_body]
pub(crate) fn paint_magenta(text: String) -> (r: String)
    ensures
        paint_outcome('5', text@, r@),
{
    format!("{}", yansi::Paint::magenta(text))
}

} // verus!
