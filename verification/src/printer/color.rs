//! The colours of the output.

use vstd::prelude::*;

verus! {

/// A colour of a terminal.
#[derive(Clone, Copy, Debug, PartialEq, Eq, Structural)]
pub enum Color {
    Black,
    Blue,
    Green,
    Red,
    Cyan,
    Magenta,
    Yellow,
    White,
    /// One of the 256 colours of the extended palette.
    Ansi256(u8),
    /// Red, green and blue.
    Rgb(u8, u8, u8),
}

/// How text is shown: its colours and its style.
#[derive(Clone, Copy, Debug, PartialEq, Eq, Structural)]
pub struct ColorSpec {
    pub fg_color: Option<Color>,
    pub bg_color: Option<Color>,
    pub bold: bool,
    pub intense: bool,
    pub underline: bool,
    pub dimmed: bool,
    pub italic: bool,
    /// Whether what was set before is cleared first.
    pub reset: bool,
    pub strikethrough: bool,
}

impl Default for ColorSpec {
    fn default() -> (spec: ColorSpec)
        ensures
            spec == ColorSpec::plain(),
    {
        ColorSpec::new()
    }
}

impl ColorSpec {
    /// No colour and no style.
    pub open spec fn plain() -> ColorSpec {
        ColorSpec {
            fg_color: None,
            bg_color: None,
            bold: false,
            intense: false,
            underline: false,
            dimmed: false,
            italic: false,
            reset: true,
            strikethrough: false,
        }
    }

    /// Whether there is neither a colour nor a style.
    pub open spec fn spec_is_none(&self) -> bool {
        self.fg_color is None && self.bg_color is None && !self.bold && !self.underline
            && !self.dimmed && !self.italic && !self.intense && !self.strikethrough
    }

    /// No colour and no style.
    pub fn new() -> (spec: ColorSpec)
        ensures
            spec == ColorSpec::plain(),
    {
        ColorSpec {
            fg_color: None,
            bg_color: None,
            bold: false,
            intense: false,
            underline: false,
            dimmed: false,
            italic: false,
            reset: true,
            strikethrough: false,
        }
    }

    /// Whether there is neither a colour nor a style.
    #[verifier::when_used_as_spec(spec_is_none)]
    pub fn is_none(&self) -> (yes: bool)
        ensures
            yes == self.spec_is_none(),
    {
        self.fg_color.is_none() && self.bg_color.is_none() && !self.bold && !self.underline
            && !self.dimmed && !self.italic && !self.intense && !self.strikethrough
    }
}

/// The colours of the four parts of the output.
#[derive(Clone, Copy, Debug, PartialEq, Eq, Structural)]
pub struct ColorSpecs {
    /// For the path of a file.
    path: ColorSpec,
    /// For a line number.
    line: ColorSpec,
    /// For a column number.
    column: ColorSpec,
    /// For a match.
    matched: ColorSpec,
}

/// The foreground `fg`, bold or not, and nothing else.
pub open spec fn spec_config_color(fg: Color, bold: bool) -> ColorSpec {
    ColorSpec { fg_color: Some(fg), bold, ..ColorSpec::plain() }
}

fn config_color(fg: Color, bold: bool) -> (spec: ColorSpec)
    ensures
        spec == spec_config_color(fg, bold),
{
    let mut spec = ColorSpec::new();
    spec.fg_color = Some(fg);
    spec.bold = bold;
    spec
}

impl Default for ColorSpecs {
    /// Paths in magenta, line numbers in green, column numbers plain,
    /// matches in bold red.
    fn default() -> (specs: ColorSpecs)
        ensures
            specs.spec_path() == spec_config_color(Color::Magenta, false),
            specs.spec_line() == spec_config_color(Color::Green, false),
            specs.spec_column() == ColorSpec::plain(),
            specs.spec_matched() == spec_config_color(Color::Red, true),
    {
        ColorSpecs {
            path: config_color(Color::Magenta, false),
            line: config_color(Color::Green, false),
            column: ColorSpec::default(),
            matched: config_color(Color::Red, true),
        }
    }
}

impl ColorSpecs {
    pub closed spec fn spec_path(&self) -> ColorSpec {
        self.path
    }

    pub closed spec fn spec_line(&self) -> ColorSpec {
        self.line
    }

    pub closed spec fn spec_column(&self) -> ColorSpec {
        self.column
    }

    pub closed spec fn spec_matched(&self) -> ColorSpec {
        self.matched
    }

    /// Colours for the four parts of the output.
    pub fn new(path: ColorSpec, line: ColorSpec, column: ColorSpec, matched: ColorSpec) -> (specs:
        ColorSpecs)
        ensures
            specs.spec_path() == path,
            specs.spec_line() == line,
            specs.spec_column() == column,
            specs.spec_matched() == matched,
    {
        ColorSpecs { path, line, column, matched }
    }

    /// For the path of a file.
    pub fn path(&self) -> (spec: &ColorSpec)
        ensures
            *spec == self.spec_path(),
    {
        &self.path
    }

    /// For a line number.
    pub fn line(&self) -> (spec: &ColorSpec)
        ensures
            *spec == self.spec_line(),
    {
        &self.line
    }

    /// For a column number.
    pub fn column(&self) -> (spec: &ColorSpec)
        ensures
            *spec == self.spec_column(),
    {
        &self.column
    }

    /// For a match.
    pub fn matched(&self) -> (spec: &ColorSpec)
        ensures
            *spec == self.spec_matched(),
    {
        &self.matched
    }
}

} // verus!
