//! The theme as the widget toolkit sees it, and the terminal palette that
//! goes with it: text, background and cursor follow the widget palette
//! family, while the sixteen ANSI colors stay the fixed ones of the theme,
//! so that changing the widget theme never alters the meaning of colored
//! command-line output.

use vstd::prelude::*;

use crate::model::ThemeSetting;
use crate::terminal::TerminalColors;
use crate::theme::{hex_rgb, rgb_color, theme_ansi};

verus! {

/// The widget theme in effect once the system setting is resolved.
#[derive(Clone, Copy, Debug, PartialEq, Eq, Structural)]
pub enum ResolvedTheme {
    Light,
    Dark,
}

/// The widget theme a setting resolves to: the system's choice for `System`.
pub open spec fn resolved_widget_theme(setting: ThemeSetting, system_is_dark: bool) -> ResolvedTheme {
    match setting {
        ThemeSetting::Light => ResolvedTheme::Light,
        ThemeSetting::Dark => ResolvedTheme::Dark,
        ThemeSetting::System => if system_is_dark {
            ResolvedTheme::Dark
        } else {
            ResolvedTheme::Light
        },
    }
}

/// The application theme of the same mode.
pub open spec fn same_mode(theme: ResolvedTheme) -> crate::theme::ResolvedTheme {
    match theme {
        ResolvedTheme::Dark => crate::theme::ResolvedTheme::Dark,
        ResolvedTheme::Light => crate::theme::ResolvedTheme::Light,
    }
}

/// The terminal text (and cursor) color of a widget theme, as `0xRRGGBB`.
pub open spec fn widget_terminal_text(theme: ResolvedTheme) -> u32 {
    match theme {
        ResolvedTheme::Dark => 0xdfe2e9,
        ResolvedTheme::Light => 0x202124,
    }
}

/// The terminal background of a widget theme, as `0xRRGGBB`.
pub open spec fn widget_terminal_background(theme: ResolvedTheme) -> u32 {
    match theme {
        ResolvedTheme::Dark => 0x16181d,
        ResolvedTheme::Light => 0xf3f4f6,
    }
}

impl ResolvedTheme {
    /// Resolves a theme setting against the system's dark mode.
    pub fn resolve(setting: ThemeSetting, system_is_dark: bool) -> (r: Self)
        ensures
            r == resolved_widget_theme(setting, system_is_dark),
    {
        match setting {
            ThemeSetting::Light => ResolvedTheme::Light,
            ThemeSetting::Dark => ResolvedTheme::Dark,
            ThemeSetting::System => if system_is_dark {
                ResolvedTheme::Dark
            } else {
                ResolvedTheme::Light
            },
        }
    }

    /// The terminal palette of the widget theme: text, background and the
    /// cursor (in the text color) from the widget palette family, and the
    /// sixteen ANSI colors of the theme of the same mode.
    pub fn terminal_colors(self) -> (c: TerminalColors)
        ensures
            c.foreground == hex_rgb(widget_terminal_text(self)),
            c.background == hex_rgb(widget_terminal_background(self)),
            c.cursor == hex_rgb(widget_terminal_text(self)),
            forall|i: int|
                0 <= i < 16 ==> #[trigger] c.ansi@[i] == hex_rgb(theme_ansi(same_mode(self), i)),
    {
        let (text, background, fixed): (u32, u32, TerminalColors) = match self {
            ResolvedTheme::Dark => (0xdfe2e9, 0x16181d, crate::theme::ResolvedTheme::Dark.terminal_colors()),
            ResolvedTheme::Light => (0x202124, 0xf3f4f6, crate::theme::ResolvedTheme::Light.terminal_colors()),
        };
        TerminalColors {
            foreground: rgb_color(text),
            background: rgb_color(background),
            cursor: rgb_color(text),
            ansi: fixed.ansi,
        }
    }
}

} // verus!
