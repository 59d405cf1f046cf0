//! The settings of the desktop application, and the store that holds the
//! current ones.
//!
//! The store is an ordinary value that its owner passes around; reading the
//! settings file and writing it back are the owner's part.

use vstd::prelude::*;

use crate::reader::copy_optional;
use crate::text::str_eq;

verus! {

/// Size and place of the main window.
#[derive(Clone, Debug)]
pub struct WindowPreferences {
    pub width: u32,
    pub height: u32,
    pub x: Option<i32>,
    pub y: Option<i32>,
    pub maximized: bool,
}

/// How the application starts and closes.
#[derive(Clone, Debug)]
pub struct BehaviorPreferences {
    pub start_minimized: bool,
    pub minimize_to_tray: bool,
    pub launch_at_login: bool,
}

/// The global keyboard shortcuts.
#[derive(Clone, Debug)]
pub struct ShortcutPreferences {
    pub toggle_window: String,
    pub quick_switcher: String,
    pub new_spec: String,
}

/// How updates are looked for.
#[derive(Clone, Debug)]
pub struct UpdatePreferences {
    pub auto_check: bool,
    pub auto_install: bool,
    pub channel: String,
}

/// How the application looks.
#[derive(Clone, Debug)]
pub struct AppearancePreferences {
    pub theme: String,
}

/// All settings.
#[derive(Clone, Debug)]
pub struct DesktopConfig {
    pub window: WindowPreferences,
    pub behavior: BehaviorPreferences,
    pub shortcuts: ShortcutPreferences,
    pub updates: UpdatePreferences,
    pub appearance: AppearancePreferences,
    pub active_project_id: Option<String>,
}

/// The model of a [`DesktopConfig`].
pub struct ConfigView {
    pub width: u32,
    pub height: u32,
    pub x: Option<i32>,
    pub y: Option<i32>,
    pub maximized: bool,
    pub start_minimized: bool,
    pub minimize_to_tray: bool,
    pub launch_at_login: bool,
    pub toggle_window: Seq<char>,
    pub quick_switcher: Seq<char>,
    pub new_spec: Seq<char>,
    pub auto_check: bool,
    pub auto_install: bool,
    pub channel: Seq<char>,
    pub theme: Seq<char>,
    pub active_project_id: Option<Seq<char>>,
}

impl View for DesktopConfig {
    type V = ConfigView;

    open spec fn view(&self) -> ConfigView {
        ConfigView {
            width: self.window.width,
            height: self.window.height,
            x: self.window.x,
            y: self.window.y,
            maximized: self.window.maximized,
            start_minimized: self.behavior.start_minimized,
            minimize_to_tray: self.behavior.minimize_to_tray,
            launch_at_login: self.behavior.launch_at_login,
            toggle_window: self.shortcuts.toggle_window@,
            quick_switcher: self.shortcuts.quick_switcher@,
            new_spec: self.shortcuts.new_spec@,
            auto_check: self.updates.auto_check,
            auto_install: self.updates.auto_install,
            channel: self.updates.channel@,
            theme: self.appearance.theme@,
            active_project_id: self.active_project_id.deep_view(),
        }
    }
}

/// The settings of a fresh installation.
pub open spec fn default_config() -> ConfigView {
    ConfigView {
        width: 1400,
        height: 900,
        x: None,
        y: None,
        maximized: false,
        start_minimized: false,
        minimize_to_tray: true,
        launch_at_login: false,
        toggle_window: "CommandOrControl+Shift+L"@,
        quick_switcher: "CommandOrControl+Shift+K"@,
        new_spec: "CommandOrControl+Shift+N"@,
        auto_check: true,
        auto_install: false,
        channel: "stable"@,
        theme: "system"@,
        active_project_id: None,
    }
}

/// Whether `theme` is a known theme.
pub open spec fn is_known_theme(theme: Seq<char>) -> bool {
    theme == "light"@ || theme == "dark"@ || theme == "system"@
}

/// Whether `channel` is a known update channel.
pub open spec fn is_known_channel(channel: Seq<char>) -> bool {
    channel == "stable"@ || channel == "beta"@
}

/// Settings with an unknown theme replaced by `system` and an unknown update
/// channel by `stable`.
pub open spec fn normalized(c: ConfigView) -> ConfigView {
    ConfigView {
        theme: if is_known_theme(c.theme) {
            c.theme
        } else {
            "system"@
        },
        channel: if is_known_channel(c.channel) {
            c.channel
        } else {
            "stable"@
        },
        ..c
    }
}

/// The settings to start with, given what was decoded from the settings
/// file: those, normalized; the defaults where there is nothing decoded.
pub open spec fn loaded_config(decoded: Option<ConfigView>) -> ConfigView {
    match decoded {
        Some(c) => normalized(c),
        None => default_config(),
    }
}

impl Default for DesktopConfig {
    fn default() -> (r: DesktopConfig)
        ensures
            r@ == default_config(),
    {
        DesktopConfig {
            window: WindowPreferences {
                width: 1400,
                height: 900,
                x: None,
                y: None,
                maximized: false,
            },
            behavior: BehaviorPreferences {
                start_minimized: false,
                minimize_to_tray: true,
                launch_at_login: false,
            },
            shortcuts: ShortcutPreferences {
                toggle_window: "CommandOrControl+Shift+L".to_owned(),
                quick_switcher: "CommandOrControl+Shift+K".to_owned(),
                new_spec: "CommandOrControl+Shift+N".to_owned(),
            },
            updates: UpdatePreferences {
                auto_check: true,
                auto_install: false,
                channel: "stable".to_owned(),
            },
            appearance: AppearancePreferences { theme: "system".to_owned() },
            active_project_id: None,
        }
    }
}

impl DesktopConfig {
    /// A copy of these settings.
    pub fn duplicate(&self) -> (r: DesktopConfig)
        ensures
            r@ == self@,
    {
        DesktopConfig {
            window: WindowPreferences {
                width: self.window.width,
                height: self.window.height,
                x: self.window.x,
                y: self.window.y,
                maximized: self.window.maximized,
            },
            behavior: BehaviorPreferences {
                start_minimized: self.behavior.start_minimized,
                minimize_to_tray: self.behavior.minimize_to_tray,
                launch_at_login: self.behavior.launch_at_login,
            },
            shortcuts: ShortcutPreferences {
                toggle_window: self.shortcuts.toggle_window.clone(),
                quick_switcher: self.shortcuts.quick_switcher.clone(),
                new_spec: self.shortcuts.new_spec.clone(),
            },
            updates: UpdatePreferences {
                auto_check: self.updates.auto_check,
                auto_install: self.updates.auto_install,
                channel: self.updates.channel.clone(),
            },
            appearance: AppearancePreferences { theme: self.appearance.theme.clone() },
            active_project_id: copy_optional(&self.active_project_id),
        }
    }

    /// The settings to start with: what was decoded from the settings file,
    /// normalized; the defaults where the file could not be read or decoded.
    pub fn load_or_default(decoded: Option<DesktopConfig>) -> (r: DesktopConfig)
        ensures
            r@ == loaded_config(decoded.deep_view()),
    {
        match decoded {
            Some(config) => {
                let mut config = config;
                normalize_config(&mut config);
                config
            },
            None => DesktopConfig::default(),
        }
    }
}

impl DeepView for DesktopConfig {
    type V = ConfigView;

    open spec fn deep_view(&self) -> ConfigView {
        self@
    }
}

/// Replaces an unknown theme by `system` and an unknown update channel by
/// `stable`.
pub fn normalize_config(config: &mut DesktopConfig)
    ensures
        final(config)@ == normalized(old(config)@),
{
    let theme = config.appearance.theme.as_str();
    let theme_known = str_eq(theme, "light") || str_eq(theme, "dark") || str_eq(theme, "system");
    if !theme_known {
        config.appearance.theme = "system".to_owned();
    }
    let channel = config.updates.channel.as_str();
    let channel_known = str_eq(channel, "stable") || str_eq(channel, "beta");
    if !channel_known {
        config.updates.channel = "stable".to_owned();
    }
}

/// Holds the current settings.
pub struct ConfigStore {
    current: DesktopConfig,
}

impl View for ConfigStore {
    type V = ConfigView;

    closed spec fn view(&self) -> ConfigView {
        self.current@
    }
}

impl ConfigStore {
    /// A store that starts with what was decoded from the settings file,
    /// normalized, or with the defaults.
    pub fn new(decoded: Option<DesktopConfig>) -> (r: ConfigStore)
        ensures
            r@ == loaded_config(decoded.deep_view()),
    {
        ConfigStore { current: DesktopConfig::load_or_default(decoded) }
    }
}

/// A copy of the current settings.
pub fn read_config(store: &ConfigStore) -> (r: DesktopConfig)
    ensures
        r@ == store@,
{
    store.current.duplicate()
}

/// Replaces the current settings. Returns the settings to persist.
pub fn update_config(store: &mut ConfigStore, update: DesktopConfig) -> (r: DesktopConfig)
    ensures
        final(store)@ == update@,
        r@ == update@,
{
    let copy = update.duplicate();
    store.current = update;
    copy
}

/// Changes the current settings by `mutator`. Returns the settings to
/// persist.
pub fn mutate_config<F>(store: &mut ConfigStore, mutator: F) -> (r: DesktopConfig) where
    F: FnOnce(DesktopConfig) -> DesktopConfig,

    requires
        forall|c: DesktopConfig| mutator.requires((c,)),
    ensures
        exists|before: DesktopConfig, after: DesktopConfig|
            before@ == old(store)@ && mutator.ensures((before,), after) && final(store)@ == after@,
        r@ == final(store)@,
{
    let before = store.current.duplicate();
    let after = mutator(before);
    let copy = after.duplicate();
    store.current = after;
    copy
}

} // verus!
