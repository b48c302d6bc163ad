//! Painting rendered lines for a terminal. Whether escape codes are added
//! depends on the environment and on the terminal, so a colored segment is
//! printed either as it is or wrapped in its color's codes; plain segments
//! are printed as they are.
use crate::column::{StyledText, TextColor};
use crate::render::line_view;
use colored::Colorize;
use vstd::prelude::*;
use vstd::string::StringExecFns;

verus! {

/// `text` wrapped in the escape codes that select the color with code
/// `code` and then reset it.
pub open spec fn escaped(text: Seq<char>, code: Seq<char>) -> Seq<char> {
    "\u{1b}["@ + code + "m"@ + text + "\u{1b}[0m"@
}

/// The code of a (non-plain) color.
pub open spec fn color_code(c: TextColor) -> Seq<char> {
    match c {
        TextColor::Green => "92"@,
        TextColor::Yellow => "93"@,
        TextColor::Red => "91"@,
        TextColor::Plain => Seq::empty(),
    }
}

/// Relies on colored's `Colorize::bright_green` and the `Display` of the
/// `ColoredString` it returns: the text, wrapped in the color's escape codes
/// when colors are on; a text without escapes is left as it is inside them.
#[verifier::external_body]
fn paint_green(text: &str) -> (r: String)
    ensures
        text@.len() <= r@.len(),
        !text@.contains('\u{1b}') ==> r@ == text@ || r@ == escaped(text@, "92"@),
{
    text.bright_green().to_string()
}

/// Relies on colored's `Colorize::bright_yellow` and the `Display` of the
/// `ColoredString` it returns: the text, wrapped in the color's escape codes
/// when colors are on; a text without escapes is left as it is inside them.
#[verifier::external_body]
fn paint_yellow(text: &str) -> (r: String)
    ensures
        text@.len() <= r@.len(),
        !text@.contains('\u{1b}') ==> r@ == text@ || r@ == escaped(text@, "93"@),
{
    text.bright_yellow().to_string()
}

/// Relies on colored's `Colorize::bright_red` and the `Display` of the
/// `ColoredString` it returns: the text, wrapped in the color's escape codes
/// when colors are on; a text without escapes is left as it is inside them.
#[verifier::external_body]
fn paint_red(text: &str) -> (r: String)
    ensures
        text@.len() <= r@.len(),
        !text@.contains('\u{1b}') ==> r@ == text@ || r@ == escaped(text@, "91"@),
{
    text.bright_red().to_string()
}

/// The texts of the segments, one after the other.
pub open spec fn joined(segments: Seq<(Seq<char>, TextColor)>) -> Seq<char>
    decreases segments.len(),
{
    if segments.len() == 0 {
        Seq::empty()
    } else {
        joined(segments.drop_last()) + segments.last().0
    }
}

/// A segment as it is printed: plain text as it is, colored text painted.
pub fn paint(segment: &StyledText) -> (r: String)
    ensures
        segment.color == TextColor::Plain ==> r@ == segment.text@,
        segment.color != TextColor::Plain && !segment.text@.contains('\u{1b}') ==> r@
            == segment.text@ || r@ == escaped(segment.text@, color_code(segment.color)),
        segment.text@.len() <= r@.len(),
{
    match segment.color {
        TextColor::Plain => segment.text.clone(),
        TextColor::Green => paint_green(segment.text.as_str()),
        TextColor::Yellow => paint_yellow(segment.text.as_str()),
        TextColor::Red => paint_red(segment.text.as_str()),
    }
}

/// A line as it is printed: its segments painted, one after the other.
pub fn paint_line(line: &Vec<StyledText>) -> (r: String)
    ensures
        (forall|i: int| 0 <= i < line@.len() ==> (#[trigger] line@[i]).color == TextColor::Plain)
            ==> r@ == joined(line_view(*line)),
        joined(line_view(*line)).len() <= r@.len(),
{
    let ghost segs = line_view(*line);
    let mut r = String::new();
    let mut i: usize = 0;
    while i < line.len()
        invariant
            i <= line@.len(),
            segs == line_view(*line),
            joined(segs.take(i as int)).len() <= r@.len(),
            (forall|j: int| 0 <= j < i ==> (#[trigger] line@[j]).color == TextColor::Plain) ==> r@
                == joined(segs.take(i as int)),
        decreases line@.len() - i,
    {
        let piece = paint(&line[i]);
        r.append(piece.as_str());
        proof {
            assert(segs.take(i + 1).drop_last() =~= segs.take(i as int));
            assert(segs.take(i + 1).last() == segs[i as int]);
        }
        i = i + 1;
    }
    assert(segs.take(line@.len() as int) =~= segs);
    r
}

} // verus!
