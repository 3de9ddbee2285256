//! The text the diff pane shows: jj's coloured output parsed into
//! ratatui's styled [`Text`], modelled by the plain characters of its
//! lines.
use vstd::prelude::*;

use ansi_to_tui::IntoText;
use ratatui::text::Text;

use crate::text::lines;

verus! {

#[verifier::external_type_specification]
#[verifier::external_body]
pub struct ExText<'a>(Text<'a>);

#[verifier::external_type_specification]
#[verifier::external_body]
pub struct ExAnsiError(ansi_to_tui::Error);

/// The characters of each line of a styled text, styling left out.
pub uninterp spec fn text_lines(t: Text<'static>) -> Seq<Seq<char>>;

/// The lines ansi-to-tui reads from `s`, their escape sequences turned
/// into styles.
pub uninterp spec fn ansi_lines(s: Seq<char>) -> Seq<Seq<char>>;

/// The lines of `s` as unstyled text: one empty line for an empty `s`.
pub open spec fn raw_lines(s: Seq<char>) -> Seq<Seq<char>> {
    if s.len() == 0 {
        seq![Seq::empty()]
    } else {
        lines(s)
    }
}

/// ratatui's `Text::from(String)` (`Text::raw`): the lines of `s`, split
/// as `str::lines` splits them, and one empty line for an empty `s`.
#[verifier::external_body]
pub(crate) fn text_of(s: String) -> (t: Text<'static>)
    ensures
        text_lines(t) == raw_lines(s@),
{
    Text::from(s)
}

/// `Text::default()`: no lines.
#[verifier::external_body]
pub(crate) fn empty_text() -> (t: Text<'static>)
    ensures
        text_lines(t) == Seq::<Seq<char>>::empty(),
{
    Text::default()
}

/// ansi-to-tui's `IntoText::into_text` on the bytes of `s`. Its parser
/// stops at the first line it cannot read and returns what it read so
/// far, so the result is always `Ok`.
#[verifier::external_body]
fn ansi_text(s: &str) -> (r: Result<Text<'static>, ansi_to_tui::Error>)
    ensures
        r is Ok,
        r matches Ok(t) ==> text_lines(t) == ansi_lines(s@),
{
    s.as_bytes().into_text()
}

/// `Extend` of `Text` with the lines of another text: they follow its
/// own.
#[verifier::external_body]
pub(crate) fn text_extend(t: &mut Text<'static>, more: Text<'static>)
    ensures
        text_lines(*final(t)) == text_lines(*old(t)) + text_lines(more),
{
    t.extend(more);
}

/// `Text::clone`: the same lines.
#[verifier::external_body]
pub(crate) fn text_clone(t: &Text<'static>) -> (r: Text<'static>)
    ensures
        text_lines(r) == text_lines(*t),
{
    t.clone()
}

/// The number of lines of `t` (`t.lines.len()`).
#[verifier::external_body]
pub(crate) fn line_count(t: &Text<'static>) -> (n: usize)
    ensures
        n == text_lines(*t).len(),
{
    t.lines.len()
}

/// `s` read as coloured text: its escape sequences become styles.
pub fn colored(s: &str) -> (t: Text<'static>)
    ensures
        text_lines(t) == ansi_lines(s@),
{
    match ansi_text(s) {
        Ok(t) => t,
        Err(_) => empty_text(),
    }
}

} // verus!
