//! Terminal styling of report text, through the `colored` crate. Whether the
//! styles are written depends on the terminal and the environment when the
//! text is shown; either way the text itself is shown, and when styles are
//! written they come as a style sequence before it and the reset sequence
//! after it.
use vstd::prelude::*;
use colored::Colorize;

verus! {

/// The sequence that ends styled text.
pub open spec fn reset_code() -> Seq<char> {
    seq!['\u{1b}', '[', '0', 'm']
}

/// Whether the text holds the reset sequence somewhere (`colored` rewrites
/// such sequences inside styled text).
pub open spec fn holds_reset(t: Seq<char>) -> bool {
    exists|i: int| 0 <= i && i + 4 <= t.len() && #[trigger] t.subrange(i, i + 4) == reset_code()
}

/// How `colored` shows styled text (its `Display`): the text alone when
/// colors are off or the text carries no style, or else a style sequence, the
/// text and the reset sequence. Text that holds the reset sequence itself is
/// rewritten, and nothing is claimed of it.
pub open spec fn shown_as(out: Seq<char>, text: Seq<char>) -> bool {
    holds_reset(text) || out == text || exists|p: Seq<char>| out == p + text + reset_code()
}

/// `Colorize::red` on a string slice, shown (`Display`): the text styled red.
#[verifier::external_body]
pub(crate) fn red(text: &str) -> (r: String)
    ensures
        shown_as(r@, text@),
{
    text.red().to_string()
}

/// `Colorize::bright_red` on a string slice, shown: the text styled bright red.
#[verifier::external_body]
pub(crate) fn bright_red(text: &str) -> (r: String)
    ensures
        shown_as(r@, text@),
{
    text.bright_red().to_string()
}

/// `Colorize::yellow` on a string slice, shown: the text styled yellow.
#[verifier::external_body]
pub(crate) fn yellow(text: &str) -> (r: String)
    ensures
        shown_as(r@, text@),
{
    text.yellow().to_string()
}

/// `Colorize::blue` on a string slice, shown: the text styled blue.
#[verifier::external_body]
pub(crate) fn blue(text: &str) -> (r: String)
    ensures
        shown_as(r@, text@),
{
    text.blue().to_string()
}

/// `Colorize::green` on a string slice, shown: the text styled green.
#[verifier::external_body]
pub(crate) fn green(text: &str) -> (r: String)
    ensures
        shown_as(r@, text@),
{
    text.green().to_string()
}

/// `Colorize::red`, then `Colorize::bold`, shown: the text styled bold red.
#[verifier::external_body]
pub(crate) fn bold_red(text: &str) -> (r: String)
    ensures
        shown_as(r@, text@),
{
    text.red().bold().to_string()
}

/// `Colorize::yellow`, then `Colorize::bold`, shown: the text styled bold
/// yellow.
#[verifier::external_body]
pub(crate) fn bold_yellow(text: &str) -> (r: String)
    ensures
        shown_as(r@, text@),
{
    text.yellow().bold().to_string()
}

/// `Colorize::blue`, then `Colorize::bold`, shown: the text styled bold blue.
#[verifier::external_body]
pub(crate) fn bold_blue(text: &str) -> (r: String)
    ensures
        shown_as(r@, text@),
{
    text.blue().bold().to_string()
}

} // verus!
