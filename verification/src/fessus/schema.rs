//! The shape of `~/.config/fessus.toml`.
use vstd::prelude::*;

verus! {

/// The whole of `fessus.toml`.
pub struct FessusConfig {
    pub fessus: Fessus,
    pub window: Window,
    pub bar: Bar,
    pub launcher: Launcher,
    pub notifications: Notifications,
    pub radial: Radial,
    pub workspaces: Workspaces,
    pub keybindings: Keybindings,
    pub autostart: Option<Autostart>,
    pub hardware: Option<Hardware>,
}

/// `[fessus]`: look and feel.
pub struct Fessus {
    /// `"sway"` (the default) or `"hyprland"`.
    pub compositor: Option<String>,
    pub accent_color: String,
    pub theme: String,
    pub font: String,
    pub icon_theme: String,
    pub cursor_theme: String,
    pub cursor_size: u32,
    pub wallpaper: String,
}

/// `[window]`: gaps and borders, in pixels.
pub struct Window {
    pub gaps_inner: u32,
    pub gaps_outer: u32,
    pub border: u32,
}

/// `[bar]`.
pub struct Bar {
    pub position: String,
    pub clock_format: String,
    pub show_battery: bool,
    pub show_network: bool,
    pub show_bluetooth: bool,
    pub show_tray: bool,
}

/// `[launcher]`.
pub struct Launcher {
    pub provider: String,
}

/// `[notifications]`.
pub struct Notifications {
    pub position: String,
    pub timeout: u32,
    pub max_visible: u32,
}

/// `[radial]`: the corner menu and the apps pinned on it.
pub struct Radial {
    pub corner: String,
    pub pinned: Vec<String>,
}

/// `[workspaces]`.
pub struct Workspaces {
    pub count: u32,
}

/// `[keybindings]`; `mod_key` is the file's `mod`.
pub struct Keybindings {
    pub mod_key: String,
    pub terminal: String,
}

/// `[autostart]`.
pub struct Autostart {
    pub apps: Vec<String>,
}

/// `[hardware]`.
pub struct Hardware {
    pub touchscreen: bool,
    pub auto_rotate: bool,
}

} // verus!
