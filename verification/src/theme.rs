//! Theme resolution, the application's color tokens, and the terminal
//! palette that puts the terminal's text and background on those tokens.
//! The palette that follows the widget toolkit's colors instead is in
//! `widget_theme`; both keep the same sixteen ANSI colors, so command-line
//! color semantics do not change with the theme.

use vstd::prelude::*;

use crate::model::ThemeSetting;
use crate::terminal::{RgbColor, TerminalColors};

verus! {

/// The theme in effect once the system setting is resolved.
#[derive(Clone, Copy, Debug, PartialEq, Eq, Structural)]
pub enum ResolvedTheme {
    Light,
    Dark,
}

/// The widget colors of a theme, as `0xRRGGBB`.
#[derive(Clone, Copy, Debug, PartialEq, Eq, Structural)]
pub struct ThemeTokens {
    pub surface: u32,
    pub text: u32,
    pub muted: u32,
    pub border: u32,
    pub accent: u32,
    pub danger: u32,
    pub selection: u32,
}

/// The theme a setting resolves to: the system's choice for `System`.
pub open spec fn resolved_theme(setting: ThemeSetting, system_is_dark: bool) -> ResolvedTheme {
    match setting {
        ThemeSetting::Light => ResolvedTheme::Light,
        ThemeSetting::Dark => ResolvedTheme::Dark,
        ThemeSetting::System => if system_is_dark {
            ResolvedTheme::Dark
        } else {
            ResolvedTheme::Light
        },
    }
}

/// The widget colors of each theme.
pub open spec fn theme_tokens(theme: ResolvedTheme) -> ThemeTokens {
    match theme {
        ResolvedTheme::Dark => ThemeTokens {
            surface: 0x111318,
            text: 0xe6e8eb,
            muted: 0x9aa0aa,
            border: 0x2a2e37,
            accent: 0xe58a3a,
            danger: 0xe06c75,
            selection: 0x315a78,
        },
        ResolvedTheme::Light => ThemeTokens {
            surface: 0xfafaf8,
            text: 0x202124,
            muted: 0x68707a,
            border: 0xd8dadd,
            accent: 0xc45d00,
            danger: 0xb4232c,
            selection: 0xb8d8f0,
        },
    }
}

/// The sixteen ANSI colors of the dark terminal palette, as `0xRRGGBB`.
pub open spec fn dark_ansi(i: int) -> u32 {
    if i == 0 {
        0x1b1d23
    } else if i == 1 {
        0xe06c75
    } else if i == 2 {
        0x98c379
    } else if i == 3 {
        0xe5c07b
    } else if i == 4 {
        0x61afef
    } else if i == 5 {
        0xc678dd
    } else if i == 6 {
        0x56b6c2
    } else if i == 7 {
        0xabb2bf
    } else if i == 8 {
        0x5c6370
    } else if i == 9 {
        0xff7b86
    } else if i == 10 {
        0xb3e98c
    } else if i == 11 {
        0xffd68a
    } else if i == 12 {
        0x76c7ff
    } else if i == 13 {
        0xd99bff
    } else if i == 14 {
        0x70e1ed
    } else {
        0xf5f7fa
    }
}

/// The sixteen ANSI colors of the light terminal palette, as `0xRRGGBB`.
pub open spec fn light_ansi(i: int) -> u32 {
    if i == 0 {
        0x202124
    } else if i == 1 {
        0xb4232c
    } else if i == 2 {
        0x2f7d32
    } else if i == 3 {
        0x8a5a00
    } else if i == 4 {
        0x005fb8
    } else if i == 5 {
        0x7a3e9d
    } else if i == 6 {
        0x007a7a
    } else if i == 7 {
        0xdadce0
    } else if i == 8 {
        0x5f6368
    } else if i == 9 {
        0xd93025
    } else if i == 10 {
        0x188038
    } else if i == 11 {
        0xb06000
    } else if i == 12 {
        0x1967d2
    } else if i == 13 {
        0x9334e6
    } else if i == 14 {
        0x008b8b
    } else {
        0xffffff
    }
}

/// The ANSI color `i` of a theme's terminal palette, as `0xRRGGBB`.
pub open spec fn theme_ansi(theme: ResolvedTheme, i: int) -> u32 {
    match theme {
        ResolvedTheme::Dark => dark_ansi(i),
        ResolvedTheme::Light => light_ansi(i),
    }
}

/// The color of `0xRRGGBB`.
pub open spec fn hex_rgb(hex: u32) -> RgbColor {
    RgbColor { red: ((hex >> 16u32) & 0xffu32) as u8, green: ((hex >> 8u32) & 0xffu32) as u8, blue: (hex & 0xffu32) as u8 }
}

/// The color of `0xRRGGBB`.
pub fn rgb_color(hex: u32) -> (c: RgbColor)
    ensures
        c == hex_rgb(hex),
{
    RgbColor::new(((hex >> 16u32) & 0xffu32) as u8, ((hex >> 8u32) & 0xffu32) as u8, (hex & 0xffu32) as u8)
}

/// `0xRRGGBB` of a color.
pub open spec fn rgb_hex_of(c: RgbColor) -> u32 {
    ((c.red as u32) << 16u32) | ((c.green as u32) << 8u32) | (c.blue as u32)
}

/// `0xRRGGBB` of a color.
pub fn rgb_hex(c: RgbColor) -> (hex: u32)
    ensures
        hex == rgb_hex_of(c),
{
    ((c.red as u32) << 16u32) | ((c.green as u32) << 8u32) | (c.blue as u32)
}

/// Reading a color's hex back gives the color.
pub proof fn law_hex_round_trips(c: RgbColor)
    ensures
        hex_rgb(rgb_hex_of(c)) == c,
{
    let r = c.red;
    let g = c.green;
    let b = c.blue;
    let h = rgb_hex_of(c);
    assert(((h >> 16u32) & 0xffu32) as u8 == r && ((h >> 8u32) & 0xffu32) as u8 == g && (h & 0xffu32) as u8 == b) by (bit_vector)
        requires
            h == ((r as u32) << 16u32) | ((g as u32) << 8u32) | (b as u32);
}

fn palette(hex: [u32; 16]) -> (colors: [RgbColor; 16])
    ensures
        forall|i: int| 0 <= i < 16 ==> #[trigger] colors@[i] == hex_rgb(hex@[i]),
{
    let colors = [
        rgb_color(hex[0]),
        rgb_color(hex[1]),
        rgb_color(hex[2]),
        rgb_color(hex[3]),
        rgb_color(hex[4]),
        rgb_color(hex[5]),
        rgb_color(hex[6]),
        rgb_color(hex[7]),
        rgb_color(hex[8]),
        rgb_color(hex[9]),
        rgb_color(hex[10]),
        rgb_color(hex[11]),
        rgb_color(hex[12]),
        rgb_color(hex[13]),
        rgb_color(hex[14]),
        rgb_color(hex[15]),
    ];
    assert forall|i: int| 0 <= i < 16 implies #[trigger] colors@[i] == hex_rgb(hex@[i]) by {}
    colors
}

impl ResolvedTheme {
    /// Resolves a theme setting against the system's dark mode.
    pub fn resolve(setting: ThemeSetting, system_is_dark: bool) -> (r: Self)
        ensures
            r == resolved_theme(setting, system_is_dark),
    {
        match setting {
            ThemeSetting::Light => ResolvedTheme::Light,
            ThemeSetting::Dark => ResolvedTheme::Dark,
            ThemeSetting::System => if system_is_dark {
                ResolvedTheme::Dark
            } else {
                ResolvedTheme::Light
            },
        }
    }

    /// The widget colors of the theme.
    pub fn tokens(self) -> (t: ThemeTokens)
        ensures
            t == theme_tokens(self),
    {
        match self {
            ResolvedTheme::Dark => ThemeTokens {
                surface: 0x111318,
                text: 0xe6e8eb,
                muted: 0x9aa0aa,
                border: 0x2a2e37,
                accent: 0xe58a3a,
                danger: 0xe06c75,
                selection: 0x315a78,
            },
            ResolvedTheme::Light => ThemeTokens {
                surface: 0xfafaf8,
                text: 0x202124,
                muted: 0x68707a,
                border: 0xd8dadd,
                accent: 0xc45d00,
                danger: 0xb4232c,
                selection: 0xb8d8f0,
            },
        }
    }

    /// The terminal palette of the theme: text on the surface color, the
    /// cursor in the text color, and the theme's sixteen ANSI colors.
    pub fn terminal_colors(self) -> (c: TerminalColors)
        ensures
            c.foreground == hex_rgb(theme_tokens(self).text),
            c.background == hex_rgb(theme_tokens(self).surface),
            c.cursor == hex_rgb(theme_tokens(self).text),
            forall|i: int| 0 <= i < 16 ==> #[trigger] c.ansi@[i] == hex_rgb(theme_ansi(self, i)),
    {
        let tokens = self.tokens();
        let hex: [u32; 16] = match self {
            ResolvedTheme::Dark => [
                0x1b1d23, 0xe06c75, 0x98c379, 0xe5c07b, 0x61afef, 0xc678dd, 0x56b6c2, 0xabb2bf,
                0x5c6370, 0xff7b86, 0xb3e98c, 0xffd68a, 0x76c7ff, 0xd99bff, 0x70e1ed, 0xf5f7fa,
            ],
            ResolvedTheme::Light => [
                0x202124, 0xb4232c, 0x2f7d32, 0x8a5a00, 0x005fb8, 0x7a3e9d, 0x007a7a, 0xdadce0,
                0x5f6368, 0xd93025, 0x188038, 0xb06000, 0x1967d2, 0x9334e6, 0x008b8b, 0xffffff,
            ],
        };
        assert(forall|i: int| 0 <= i < 16 ==> #[trigger] hex@[i] == theme_ansi(self, i));
        TerminalColors {
            foreground: rgb_color(tokens.text),
            background: rgb_color(tokens.surface),
            cursor: rgb_color(tokens.text),
            ansi: palette(hex),
        }
    }
}

} // verus!
