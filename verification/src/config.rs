//! User configuration: the new-workspace path template, the open/agent
//! commands, the preview switch, the color theme and the key bindings. Every
//! field has a working default, so the picker runs with no config file.

use vstd::prelude::*;
use crate::keymap::{default_bindings, KeyBindings};
use crate::jj::owned;

verus! {

/// A terminal color: a named color, 24-bit RGB, or a 256-color palette index.
#[derive(Debug, Clone, Copy, PartialEq, Eq, Structural)]
pub enum Color {
    Reset,
    Black,
    Red,
    Green,
    Yellow,
    Blue,
    Magenta,
    Cyan,
    Gray,
    DarkGray,
    LightRed,
    LightGreen,
    LightYellow,
    LightBlue,
    LightMagenta,
    LightCyan,
    White,
    Rgb(u8, u8, u8),
    Indexed(u8),
}

/// Color roles for the picker UI.
#[derive(Debug, Clone, Copy, PartialEq, Eq, Structural)]
pub struct Theme {
    /// Prompt `> ` and fuzzy-match highlight.
    pub accent: Color,
    /// Selected-row marker and accent (overlay) borders.
    pub marker: Color,
    /// Name text of the selected row.
    pub selected: Color,
    /// Name text of non-selected rows and the footer counts.
    pub normal: Color,
    /// Secondary text: flags, paths, `[empty]`, preview border, footer keys.
    pub dim: Color,
    /// Background of the selected row.
    pub selection_bg: Color,
    /// Conflict markers and the forget-confirm border.
    pub conflict: Color,
    /// Stale-workspace marker.
    pub stale: Color,
}

/// The legacy palette, which a config with no `[theme]` table keeps.
pub open spec fn default_theme() -> Theme {
    Theme {
        accent: Color::Yellow,
        marker: Color::Cyan,
        selected: Color::White,
        normal: Color::Gray,
        dim: Color::DarkGray,
        selection_bg: Color::DarkGray,
        conflict: Color::Red,
        stale: Color::Yellow,
    }
}

impl Default for Theme {
    fn default() -> (r: Self)
        ensures
            r == default_theme(),
    {
        Theme {
            accent: Color::Yellow,
            marker: Color::Cyan,
            selected: Color::White,
            normal: Color::Gray,
            dim: Color::DarkGray,
            selection_bg: Color::DarkGray,
            conflict: Color::Red,
            stale: Color::Yellow,
        }
    }
}

/// User configuration.
#[derive(Debug, Clone, PartialEq)]
pub struct Config {
    /// Template for new-workspace paths. Placeholders: {parent} {repo} {name}.
    pub path_template: String,
    /// Command run by the open action (after cd); `${EDITOR:-vi}` means the editor.
    pub edit_cmd: String,
    /// Command run by the agent action (after cd): the coding agent.
    pub agent_cmd: String,
    /// Whether the preview pane is shown.
    pub preview: bool,
    /// Color theme (the `[theme]` table).
    pub theme: Theme,
    /// Keybindings (the `[keys]` table).
    pub keys: KeyBindings,
}

/// The default configuration.
pub open spec fn is_default_config(c: Config) -> bool {
    &&& c.path_template@ == "{parent}/{repo}.{name}"@
    &&& c.edit_cmd@ == "${EDITOR:-vi}"@
    &&& c.agent_cmd@ == "codex"@
    &&& c.preview
    &&& c.theme == default_theme()
    &&& c.keys == default_bindings()
}

impl Default for Config {
    fn default() -> (r: Self)
        ensures
            is_default_config(r),
    {
        Config {
            path_template: owned("{parent}/{repo}.{name}"),
            edit_cmd: owned("${EDITOR:-vi}"),
            agent_cmd: owned("codex"),
            preview: true,
            theme: Theme::default(),
            keys: KeyBindings::default(),
        }
    }
}

} // verus!
