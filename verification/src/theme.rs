//! The colour themes of the workspace.
use vstd::prelude::*;

verus! {

/// An RGB colour.
#[derive(Debug, Clone, Copy, PartialEq, Eq, Structural)]
pub struct Rgb(pub u8, pub u8, pub u8);

/// The colour palette of one theme.
#[derive(Debug, Clone, Copy)]
pub struct ThemeData {
    pub name: &'static str,
    pub background: Rgb,
    pub surface: Rgb,
    pub surface_alt: Rgb,
    pub accent: Rgb,
    pub accent_soft: Rgb,
    pub secondary: Rgb,
    pub text: Rgb,
    pub muted: Rgb,
    pub success: Rgb,
}

/// Available application themes.
#[derive(Debug, Clone, Copy, PartialEq, Eq, Structural)]
pub enum ThemeKind {
    SmokedAmber,
    Bluish,
    Greenish,
    Metallic,
    Dracula,
}

/// How many themes there are.
pub const THEME_COUNT: usize = 5;

/// The themes in the order the settings list them.
pub open spec fn theme_at(i: int) -> ThemeKind {
    if i == 0 {
        ThemeKind::SmokedAmber
    } else if i == 1 {
        ThemeKind::Bluish
    } else if i == 2 {
        ThemeKind::Greenish
    } else if i == 3 {
        ThemeKind::Metallic
    } else {
        ThemeKind::Dracula
    }
}

pub open spec fn theme_name(k: ThemeKind) -> Seq<char> {
    match k {
        ThemeKind::SmokedAmber => "Smoked Amber"@,
        ThemeKind::Bluish => "Bluish"@,
        ThemeKind::Greenish => "Greenish"@,
        ThemeKind::Metallic => "Metallic"@,
        ThemeKind::Dracula => "Dracula"@,
    }
}

/// The colours (as RGB) of a theme: background, surface, surface_alt,
/// accent, accent_soft, secondary, text, muted, success.
pub open spec fn palette(k: ThemeKind) -> Seq<Rgb> {
    match k {
        ThemeKind::SmokedAmber => seq![
            Rgb(9, 7, 6),
            Rgb(31, 20, 15),
            Rgb(43, 26, 18),
            Rgb(255, 154, 64),
            Rgb(191, 101, 42),
            Rgb(255, 102, 91),
            Rgb(255, 242, 226),
            Rgb(171, 126, 94),
            Rgb(119, 214, 166),
        ],
        ThemeKind::Bluish => seq![
            Rgb(8, 10, 18),
            Rgb(16, 22, 38),
            Rgb(22, 30, 50),
            Rgb(88, 166, 255),
            Rgb(55, 120, 200),
            Rgb(128, 180, 255),
            Rgb(220, 230, 255),
            Rgb(120, 140, 180),
            Rgb(100, 220, 170),
        ],
        ThemeKind::Greenish => seq![
            Rgb(6, 14, 6),
            Rgb(16, 32, 16),
            Rgb(22, 44, 22),
            Rgb(100, 220, 100),
            Rgb(60, 160, 60),
            Rgb(150, 240, 150),
            Rgb(220, 255, 220),
            Rgb(100, 160, 100),
            Rgb(80, 200, 120),
        ],
        ThemeKind::Metallic => seq![
            Rgb(14, 14, 16),
            Rgb(30, 30, 34),
            Rgb(42, 42, 48),
            Rgb(200, 200, 220),
            Rgb(140, 140, 160),
            Rgb(170, 180, 210),
            Rgb(230, 230, 240),
            Rgb(120, 120, 140),
            Rgb(120, 220, 170),
        ],
        ThemeKind::Dracula => seq![
            Rgb(40, 42, 54),
            Rgb(68, 71, 90),
            Rgb(80, 84, 106),
            Rgb(189, 147, 249),
            Rgb(139, 92, 200),
            Rgb(255, 121, 198),
            Rgb(248, 248, 242),
            Rgb(140, 142, 160),
            Rgb(80, 250, 123),
        ],
    }
}

pub open spec fn colours_of(t: ThemeData) -> Seq<Rgb> {
    seq![
        t.background,
        t.surface,
        t.surface_alt,
        t.accent,
        t.accent_soft,
        t.secondary,
        t.text,
        t.muted,
        t.success,
    ]
}

/// The brightness of a colour, as the sum of its channels.
pub open spec fn brightness(c: Rgb) -> int {
    c.0 as int + c.1 as int + c.2 as int
}

/// Every theme is dark: its background is darker than its surface, the
/// surface darker than the alternate surface, and the text brighter than
/// all three and than the muted text. The settings list the five themes in
/// the order Smoked Amber, Bluish, Greenish, Metallic, Dracula, each once,
/// under its own name.
pub proof fn law_dark_themes(k: ThemeKind)
    ensures
        brightness(palette(k)[0]) < brightness(palette(k)[1]),
        brightness(palette(k)[1]) < brightness(palette(k)[2]),
        brightness(palette(k)[2]) < brightness(palette(k)[6]),
        brightness(palette(k)[7]) < brightness(palette(k)[6]),
        palette(k).len() == 9,
        exists|i: int| 0 <= i < THEME_COUNT && theme_at(i) == k,
        theme_name(theme_at(0)) == "Smoked Amber"@,
        theme_name(theme_at(1)) == "Bluish"@,
        theme_name(theme_at(2)) == "Greenish"@,
        theme_name(theme_at(3)) == "Metallic"@,
        theme_name(theme_at(4)) == "Dracula"@,
{
    match k {
        ThemeKind::SmokedAmber => assert(theme_at(0) == k),
        ThemeKind::Bluish => assert(theme_at(1) == k),
        ThemeKind::Greenish => assert(theme_at(2) == k),
        ThemeKind::Metallic => assert(theme_at(3) == k),
        ThemeKind::Dracula => assert(theme_at(4) == k),
    }
}

impl ThemeKind {
    /// The theme at a position of the settings list (positions wrap).
    pub fn at(i: usize) -> (k: ThemeKind)
        ensures
            k == theme_at((i % THEME_COUNT) as int),
    {
        let j = i % THEME_COUNT;
        if j == 0 {
            ThemeKind::SmokedAmber
        } else if j == 1 {
            ThemeKind::Bluish
        } else if j == 2 {
            ThemeKind::Greenish
        } else if j == 3 {
            ThemeKind::Metallic
        } else {
            ThemeKind::Dracula
        }
    }

    pub fn name(self) -> (s: &'static str)
        ensures
            s@ == theme_name(self),
    {
        match self {
            ThemeKind::SmokedAmber => "Smoked Amber",
            ThemeKind::Bluish => "Bluish",
            ThemeKind::Greenish => "Greenish",
            ThemeKind::Metallic => "Metallic",
            ThemeKind::Dracula => "Dracula",
        }
    }

    /// The palette of the theme.
    pub fn data(self) -> (t: ThemeData)
        ensures
            t.name@ == theme_name(self),
            colours_of(t) == palette(self),
    {
        let t = match self {
            ThemeKind::SmokedAmber => ThemeData {
                name: self.name(),
                background: Rgb(9, 7, 6),
                surface: Rgb(31, 20, 15),
                surface_alt: Rgb(43, 26, 18),
                accent: Rgb(255, 154, 64),
                accent_soft: Rgb(191, 101, 42),
                secondary: Rgb(255, 102, 91),
                text: Rgb(255, 242, 226),
                muted: Rgb(171, 126, 94),
                success: Rgb(119, 214, 166),
            },
            ThemeKind::Bluish => ThemeData {
                name: self.name(),
                background: Rgb(8, 10, 18),
                surface: Rgb(16, 22, 38),
                surface_alt: Rgb(22, 30, 50),
                accent: Rgb(88, 166, 255),
                accent_soft: Rgb(55, 120, 200),
                secondary: Rgb(128, 180, 255),
                text: Rgb(220, 230, 255),
                muted: Rgb(120, 140, 180),
                success: Rgb(100, 220, 170),
            },
            ThemeKind::Greenish => ThemeData {
                name: self.name(),
                background: Rgb(6, 14, 6),
                surface: Rgb(16, 32, 16),
                surface_alt: Rgb(22, 44, 22),
                accent: Rgb(100, 220, 100),
                accent_soft: Rgb(60, 160, 60),
                secondary: Rgb(150, 240, 150),
                text: Rgb(220, 255, 220),
                muted: Rgb(100, 160, 100),
                success: Rgb(80, 200, 120),
            },
            ThemeKind::Metallic => ThemeData {
                name: self.name(),
                background: Rgb(14, 14, 16),
                surface: Rgb(30, 30, 34),
                surface_alt: Rgb(42, 42, 48),
                accent: Rgb(200, 200, 220),
                accent_soft: Rgb(140, 140, 160),
                secondary: Rgb(170, 180, 210),
                text: Rgb(230, 230, 240),
                muted: Rgb(120, 120, 140),
                success: Rgb(120, 220, 170),
            },
            ThemeKind::Dracula => ThemeData {
                name: self.name(),
                background: Rgb(40, 42, 54),
                surface: Rgb(68, 71, 90),
                surface_alt: Rgb(80, 84, 106),
                accent: Rgb(189, 147, 249),
                accent_soft: Rgb(139, 92, 200),
                secondary: Rgb(255, 121, 198),
                text: Rgb(248, 248, 242),
                muted: Rgb(140, 142, 160),
                success: Rgb(80, 250, 123),
            },
        };
        assert(colours_of(t) =~= palette(self));
        t
    }
}

} // verus!
