//! Control styles and colours, with the Win32 style bits they stand for.
use vstd::prelude::*;

verus! {

/// Push-button appearance.
#[derive(Debug, Clone, Copy, PartialEq, Eq, Structural)]
pub enum ButtonStyle {
    Normal,
    Flat,
    Default,
}

impl Default for ButtonStyle {
    fn default() -> (r: ButtonStyle)
        ensures
            r == ButtonStyle::Normal,
    {
        ButtonStyle::Normal
    }
}

impl ButtonStyle {
    /// The `BS_*` window-style bits: none, `BS_FLAT`, `BS_DEFPUSHBUTTON`.
    pub fn win32_style(self) -> (r: u32)
        ensures
            r == match self {
                ButtonStyle::Normal => 0u32,
                ButtonStyle::Flat => 0x8000u32,
                ButtonStyle::Default => 0x0001u32,
            },
    {
        match self {
            ButtonStyle::Normal => 0,
            ButtonStyle::Flat => 0x00008000,
            ButtonStyle::Default => 0x00000001,
        }
    }
}

/// Check-box behaviour.
#[derive(Debug, Clone, Copy, PartialEq, Eq, Structural)]
pub enum CheckBoxStyle {
    /// `BS_AUTOCHECKBOX`
    Auto,
    /// `BS_CHECKBOX`
    Manual,
    /// `BS_3STATE`
    ThreeState,
    /// `BS_AUTO3STATE`
    Auto3State,
}

impl Default for CheckBoxStyle {
    fn default() -> (r: CheckBoxStyle)
        ensures
            r == CheckBoxStyle::Auto,
    {
        CheckBoxStyle::Auto
    }
}

/// The `BS_*` window-style bits of a check-box style: `BS_AUTOCHECKBOX`,
/// `BS_CHECKBOX`, `BS_3STATE`, `BS_AUTO3STATE`.
pub open spec fn checkbox_style_bits(s: CheckBoxStyle) -> u32 {
    match s {
        CheckBoxStyle::Auto => 0x0003u32,
        CheckBoxStyle::Manual => 0x0002u32,
        CheckBoxStyle::ThreeState => 0x0005u32,
        CheckBoxStyle::Auto3State => 0x0006u32,
    }
}

impl CheckBoxStyle {
    /// The `BS_*` window-style bits.
    pub fn win32_style(self) -> (r: u32)
        ensures
            r == checkbox_style_bits(self),
            r == match self {
                CheckBoxStyle::Auto => 0x0003u32,
                CheckBoxStyle::Manual => 0x0002u32,
                CheckBoxStyle::ThreeState => 0x0005u32,
                CheckBoxStyle::Auto3State => 0x0006u32,
            },
    {
        match self {
            CheckBoxStyle::Auto => 0x0003,
            CheckBoxStyle::Manual => 0x0002,
            CheckBoxStyle::ThreeState => 0x0005,
            CheckBoxStyle::Auto3State => 0x0006,
        }
    }
}

/// Combo-box flavour.
#[derive(Debug, Clone, Copy, PartialEq, Eq, Structural)]
pub enum ComboBoxStyle {
    DropdownList,
    Dropdown,
    Simple,
}

impl Default for ComboBoxStyle {
    fn default() -> (r: ComboBoxStyle)
        ensures
            r == ComboBoxStyle::DropdownList,
    {
        ComboBoxStyle::DropdownList
    }
}

impl ComboBoxStyle {
    /// The `CBS_*` window-style bits.
    pub fn win32_style(self) -> (r: u32)
        ensures
            r == match self {
                ComboBoxStyle::Simple => 0x0001u32,
                ComboBoxStyle::Dropdown => 0x0002u32,
                ComboBoxStyle::DropdownList => 0x0003u32,
            },
    {
        match self {
            ComboBoxStyle::Simple => 0x0001,
            ComboBoxStyle::Dropdown => 0x0002,
            ComboBoxStyle::DropdownList => 0x0003,
        }
    }
}

/// Date-time picker format.
#[derive(Debug, Clone, Copy, PartialEq, Eq, Structural)]
pub enum DateTimeFormat {
    ShortDate,
    LongDate,
    Time,
    ShortDateCentury,
}

impl Default for DateTimeFormat {
    fn default() -> (r: DateTimeFormat)
        ensures
            r == DateTimeFormat::ShortDate,
    {
        DateTimeFormat::ShortDate
    }
}

impl DateTimeFormat {
    /// The `DTS_*` window-style bits.
    pub fn win32_style(self) -> (r: u32)
        ensures
            r == match self {
                DateTimeFormat::ShortDate => 0x0000u32,
                DateTimeFormat::Time => 0x0009u32,
                DateTimeFormat::LongDate => 0x0004u32,
                DateTimeFormat::ShortDateCentury => 0x000Cu32,
            },
    {
        match self {
            DateTimeFormat::ShortDate => 0x0000,
            DateTimeFormat::Time => 0x0009,
            DateTimeFormat::LongDate => 0x0004,
            DateTimeFormat::ShortDateCentury => 0x000C,
        }
    }
}

/// Text-edit flavour.
#[derive(Debug, Clone, Copy, PartialEq, Eq, Structural)]
pub enum EditStyle {
    SingleLine,
    MultiLine,
    ReadOnly,
    Password,
    Number,
}

impl Default for EditStyle {
    fn default() -> (r: EditStyle)
        ensures
            r == EditStyle::SingleLine,
    {
        EditStyle::SingleLine
    }
}

impl EditStyle {
    /// The `ES_*` window-style bits.
    pub fn win32_style(self) -> (r: u32)
        ensures
            r == match self {
                EditStyle::SingleLine => 0u32,
                EditStyle::MultiLine => 0x0004u32,
                EditStyle::ReadOnly => 0x0800u32,
                EditStyle::Password => 0x0020u32,
                EditStyle::Number => 0x2000u32,
            },
    {
        match self {
            EditStyle::SingleLine => 0,
            EditStyle::MultiLine => 0x0004,
            EditStyle::ReadOnly => 0x0800,
            EditStyle::Password => 0x0020,
            EditStyle::Number => 0x2000,
        }
    }
}

/// A colour as a Win32 `COLORREF` (`0x00BBGGRR`).
#[derive(Debug, Clone, Copy, PartialEq, Eq, Structural)]
pub struct Color(pub u32);

impl Color {
    /// White, `0x00FFFFFF`.
    pub fn white() -> (c: Color)
        ensures
            c.0 == 0x00FFFFFF,
    {
        Color(0x00FFFFFF)
    }

    /// Black, `0x00000000`.
    pub fn black() -> (c: Color)
        ensures
            c.0 == 0,
    {
        Color(0x00000000)
    }

    /// Gray, `0x00808080`.
    pub fn gray() -> (c: Color)
        ensures
            c.0 == 0x00808080,
    {
        Color(0x00808080)
    }

    /// Light gray, `0x00E0E0E0`.
    pub fn light_gray() -> (c: Color)
        ensures
            c.0 == 0x00E0E0E0,
    {
        Color(0x00E0E0E0)
    }

    /// The colour with the given red, green and blue components.
    pub fn rgb(r: u8, g: u8, b: u8) -> (c: Color)
        ensures
            c.0 == r + 256 * g + 65536 * b,
    {
        let v: u32 = (r as u32) | ((g as u32) << 8u32) | ((b as u32) << 16u32);
        assert(((r as u32) | ((g as u32) << 8u32) | ((b as u32) << 16u32)) == r + 256 * g + 65536 * b)
            by (bit_vector);
        Color(v)
    }

    /// The `COLORREF` value.
    pub fn to_colorref(self) -> (r: u32)
        ensures
            r == self.0,
    {
        self.0
    }
}

impl From<u32> for Color {
    fn from(v: u32) -> (c: Color) {
        Color(v)
    }
}

impl vstd::std_specs::convert::FromSpecImpl<u32> for Color {
    open spec fn obeys_from_spec() -> bool {
        true
    }

    open spec fn from_spec(v: u32) -> Color {
        Color(v)
    }
}

} // verus!
