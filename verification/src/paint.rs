//! Colours and styles of terminal text.
use owo_colors::OwoColorize;
use vstd::prelude::*;

verus! {

/// Text between the sequence that begins a style and the one that ends it.
pub open spec fn styled(begin: Seq<char>, s: Seq<char>, end: Seq<char>) -> Seq<char> {
    begin + s + end
}

/// Text in bold.
pub open spec fn bold_text(s: Seq<char>) -> Seq<char> {
    styled("\u{1b}[1m"@, s, "\u{1b}[0m"@)
}

/// Dimmed text.
pub open spec fn dimmed_text(s: Seq<char>) -> Seq<char> {
    styled("\u{1b}[2m"@, s, "\u{1b}[0m"@)
}

/// Text in red.
pub open spec fn red_text(s: Seq<char>) -> Seq<char> {
    styled("\u{1b}[31m"@, s, "\u{1b}[39m"@)
}

/// Text in green.
pub open spec fn green_text(s: Seq<char>) -> Seq<char> {
    styled("\u{1b}[32m"@, s, "\u{1b}[39m"@)
}

/// Text in yellow.
pub open spec fn yellow_text(s: Seq<char>) -> Seq<char> {
    styled("\u{1b}[33m"@, s, "\u{1b}[39m"@)
}

/// Text in blue.
pub open spec fn blue_text(s: Seq<char>) -> Seq<char> {
    styled("\u{1b}[34m"@, s, "\u{1b}[39m"@)
}

/// `OwoColorize::bold`: begins bold type before the text, and resets every style after it.
#[verifier::external_body]
pub(crate) fn bold(s: &str) -> (r: String)
    ensures
        r@ == bold_text(s@),
{
    s.bold().to_string()
}

/// `OwoColorize::dimmed`: begins dim type before the text, and resets every style after it.
#[verifier::external_body]
pub(crate) fn dimmed(s: &str) -> (r: String)
    ensures
        r@ == dimmed_text(s@),
{
    s.dimmed().to_string()
}

/// `OwoColorize::red`: sets the foreground red before the text, and to the default after it.
#[verifier::external_body]
pub(crate) fn red(s: &str) -> (r: String)
    ensures
        r@ == red_text(s@),
{
    s.red().to_string()
}

/// `OwoColorize::green`: sets the foreground green before the text, and to the default after it.
#[verifier::external_body]
pub(crate) fn green(s: &str) -> (r: String)
    ensures
        r@ == green_text(s@),
{
    s.green().to_string()
}

/// `OwoColorize::yellow`: sets the foreground yellow before the text, and to the default after it.
#[verifier::external_body]
pub(crate) fn yellow(s: &str) -> (r: String)
    ensures
        r@ == yellow_text(s@),
{
    s.yellow().to_string()
}

/// `OwoColorize::blue`: sets the foreground blue before the text, and to the default after it.
#[verifier::external_body]
pub(crate) fn blue(s: &str) -> (r: String)
    ensures
        r@ == blue_text(s@),
{
    s.blue().to_string()
}

/// How heavy something is, as a colour.
#[derive(Clone, Copy, Debug, PartialEq, Eq, Structural)]
pub enum Hue {
    /// Heaviest.
    Red,
    Yellow,
    /// Lightest.
    Green,
}

/// Text in the given colour.
pub open spec fn painted(hue: Hue, s: Seq<char>) -> Seq<char> {
    match hue {
        Hue::Red => red_text(s),
        Hue::Yellow => yellow_text(s),
        Hue::Green => green_text(s),
    }
}

/// Text in the given colour.
pub fn paint(hue: Hue, s: &str) -> (r: String)
    ensures
        r@ == painted(hue, s@),
{
    match hue {
        Hue::Red => red(s),
        Hue::Yellow => yellow(s),
        Hue::Green => green(s),
    }
}

} // verus!
