//! Lines of text with styles.

use vstd::prelude::*;

verus! {

/// The colors that are used.
#[derive(Clone, Copy, Debug, PartialEq, Eq, Structural)]
pub enum TextColor {
    Plain,
    Cyan,
    Green,
    Red,
    Yellow,
    LightGreen,
    LightRed,
    DarkGray,
}

/// How a piece of text looks.
#[derive(Clone, Copy, Debug, PartialEq, Eq, Structural)]
pub struct TextStyle {
    pub bold: bool,
    pub dim: bool,
    pub italic: bool,
    pub underlined: bool,
    pub color: TextColor,
}

/// Text as it is.
pub open spec fn plain_style() -> TextStyle {
    TextStyle {
        bold: false,
        dim: false,
        italic: false,
        underlined: false,
        color: TextColor::Plain,
    }
}

/// Dim text.
pub open spec fn dim_style() -> TextStyle {
    TextStyle { dim: true, ..plain_style() }
}

/// Bold text.
pub open spec fn bold_style() -> TextStyle {
    TextStyle { bold: true, ..plain_style() }
}

/// Text of a color.
pub open spec fn color_style(color: TextColor) -> TextStyle {
    TextStyle { color, ..plain_style() }
}

impl TextStyle {
    /// Text as it is.
    pub fn plain() -> (result: TextStyle)
        ensures
            result == plain_style(),
    {
        TextStyle {
            bold: false,
            dim: false,
            italic: false,
            underlined: false,
            color: TextColor::Plain,
        }
    }

    /// Dim text.
    pub fn dim() -> (result: TextStyle)
        ensures
            result == dim_style(),
    {
        TextStyle {
            bold: false,
            dim: true,
            italic: false,
            underlined: false,
            color: TextColor::Plain,
        }
    }

    /// Bold text.
    pub fn bold() -> (result: TextStyle)
        ensures
            result == bold_style(),
    {
        TextStyle {
            bold: true,
            dim: false,
            italic: false,
            underlined: false,
            color: TextColor::Plain,
        }
    }

    /// Text of a color.
    pub fn color(color: TextColor) -> (result: TextStyle)
        ensures
            result == color_style(color),
    {
        TextStyle { bold: false, dim: false, italic: false, underlined: false, color }
    }
}

/// A piece of text with one style.
#[derive(Debug)]
pub struct StyledText {
    pub text: String,
    pub style: TextStyle,
}

/// A piece of text with one style, as a value.
pub type StyledView = (Seq<char>, TextStyle);

impl View for StyledText {
    type V = StyledView;

    open spec fn view(&self) -> StyledView {
        (self.text@, self.style)
    }
}

/// A line of text.
pub type StyledLine = Vec<StyledText>;

/// A line of text, as a value.
pub open spec fn line_view(line: StyledLine) -> Seq<StyledView> {
    line@.map_values(|piece: StyledText| piece@)
}

/// Lines of text, as values.
pub open spec fn lines_view(lines: Seq<StyledLine>) -> Seq<Seq<StyledView>> {
    lines.map_values(|line: StyledLine| line_view(line))
}

/// Adds a piece of text to a line.
pub fn push_text(line: &mut StyledLine, text: String, style: TextStyle)
    ensures
        line_view(*final(line)) == line_view(*old(line)).push((text@, style)),
{
    line.push(StyledText { text, style });
    assert(line_view(*line) =~= line_view(*old(line)).push((text@, style)));
}

/// Adds a line.
pub fn push_line(lines: &mut Vec<StyledLine>, line: StyledLine)
    ensures
        lines_view(final(lines)@) == lines_view(old(lines)@).push(line_view(line)),
{
    lines.push(line);
    assert(lines_view(lines@) =~= lines_view(old(lines)@).push(line_view(line)));
}

/// A line of one piece of text.
pub fn single_line(text: String, style: TextStyle) -> (result: StyledLine)
    ensures
        line_view(result) == seq![(text@, style)],
{
    let mut line: StyledLine = Vec::new();
    push_text(&mut line, text, style);
    assert(line_view(line) =~= seq![(text@, style)]);
    line
}

/// Dim text is dim, bold text bold and colored text colored, and each is
/// otherwise as plain text, which is neither bold nor dim, neither italic nor
/// underlined, and of no color.
pub proof fn lemma_styles(color: TextColor)
    ensures
        !plain_style().bold && !plain_style().dim && !plain_style().italic
            && !plain_style().underlined && plain_style().color is Plain,
        dim_style() == (TextStyle { dim: true, ..plain_style() }),
        bold_style() == (TextStyle { bold: true, ..plain_style() }),
        color_style(color) == (TextStyle { color, ..plain_style() }),
        dim_style().dim && !dim_style().bold,
        bold_style().bold && !bold_style().dim,
        color_style(color).color == color,
{
}

/// A line shows its pieces in their order, each with its own text and style.
pub proof fn lemma_lines_as_values(line: StyledLine, i: int)
    requires
        0 <= i < line@.len(),
    ensures
        line_view(line).len() == line@.len(),
        line_view(line)[i].0 == line@[i].text@,
        line_view(line)[i].1 == line@[i].style,
{
}

} // verus!
