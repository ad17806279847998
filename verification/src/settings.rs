//! The user's settings and the manager that holds the current ones.
//!
//! Reading and writing the settings file is the caller's part: the manager
//! is given what was read and hands out what is to be written.

use vstd::prelude::*;

verus! {

/// All settings.
#[derive(Debug)]
pub struct Settings {
    pub hotkey: HotkeySettings,
    pub appearance: AppearanceSettings,
    pub cache: CacheSettings,
    pub behavior: BehaviorSettings,
    pub performance: PerformanceSettings,
}

/// The global shortcuts.
#[derive(Debug)]
pub struct HotkeySettings {
    pub enabled: bool,
    pub primary: String,
    pub secondary: String,
}

/// The look of the popup.
#[derive(Debug)]
pub struct AppearanceSettings {
    pub theme: String,
    pub font_size: String,
    pub animations: bool,
    pub reduced_motion: bool,
}

/// The size and the lifetime of the cache.
#[derive(Debug, Clone, Copy)]
pub struct CacheSettings {
    pub max_size: usize,
    pub clear_on_exit: bool,
    pub preload_common: bool,
}

/// How the popup behaves.
#[derive(Debug, Clone, Copy)]
pub struct BehaviorSettings {
    pub close_on_click_outside: bool,
    pub close_on_escape: bool,
    pub copy_on_select: bool,
    pub show_frequency: bool,
    pub auto_search: bool,
    /// In milliseconds.
    pub search_delay: u32,
}

/// Switches that trade speed for power.
#[derive(Debug, Clone, Copy)]
pub struct PerformanceSettings {
    pub enable_metrics: bool,
    pub low_power_mode: bool,
    pub gpu_acceleration: bool,
}

/// Whether `a` and `b` hold the same settings.
pub open spec fn same_settings(a: Settings, b: Settings) -> bool {
    &&& a.hotkey.enabled == b.hotkey.enabled
    &&& a.hotkey.primary@ == b.hotkey.primary@
    &&& a.hotkey.secondary@ == b.hotkey.secondary@
    &&& a.appearance.theme@ == b.appearance.theme@
    &&& a.appearance.font_size@ == b.appearance.font_size@
    &&& a.appearance.animations == b.appearance.animations
    &&& a.appearance.reduced_motion == b.appearance.reduced_motion
    &&& a.cache == b.cache
    &&& a.behavior == b.behavior
    &&& a.performance == b.performance
}

impl Clone for Settings {
    fn clone(&self) -> (copy: Settings)
        ensures
            same_settings(copy, *self),
    {
        Settings {
            hotkey: HotkeySettings {
                enabled: self.hotkey.enabled,
                primary: self.hotkey.primary.clone(),
                secondary: self.hotkey.secondary.clone(),
            },
            appearance: AppearanceSettings {
                theme: self.appearance.theme.clone(),
                font_size: self.appearance.font_size.clone(),
                animations: self.appearance.animations,
                reduced_motion: self.appearance.reduced_motion,
            },
            cache: self.cache,
            behavior: self.behavior,
            performance: self.performance,
        }
    }
}

/// Whether `s` holds the settings of a fresh installation.
pub open spec fn is_default(s: Settings) -> bool {
    &&& s.hotkey.enabled
    &&& s.hotkey.primary@ == "Alt+J"@
    &&& s.hotkey.secondary@ == "Ctrl+Shift+D"@
    &&& s.appearance.theme@ == "dark"@
    &&& s.appearance.font_size@ == "medium"@
    &&& s.appearance.animations
    &&& !s.appearance.reduced_motion
    &&& s.cache == (CacheSettings { max_size: 10_000, clear_on_exit: false, preload_common: true })
    &&& s.behavior == (BehaviorSettings {
        close_on_click_outside: true,
        close_on_escape: true,
        copy_on_select: false,
        show_frequency: true,
        auto_search: true,
        search_delay: 300,
    })
    &&& s.performance == (PerformanceSettings {
        enable_metrics: true,
        low_power_mode: false,
        gpu_acceleration: true,
    })
}

impl Default for Settings {
    fn default() -> (settings: Settings)
        ensures
            is_default(settings),
    {
        Settings {
            hotkey: HotkeySettings {
                enabled: true,
                primary: "Alt+J".to_owned(),
                secondary: "Ctrl+Shift+D".to_owned(),
            },
            appearance: AppearanceSettings {
                theme: "dark".to_owned(),
                font_size: "medium".to_owned(),
                animations: true,
                reduced_motion: false,
            },
            cache: CacheSettings { max_size: 10_000, clear_on_exit: false, preload_common: true },
            behavior: BehaviorSettings {
                close_on_click_outside: true,
                close_on_escape: true,
                copy_on_select: false,
                show_frequency: true,
                auto_search: true,
                search_delay: 300,
            },
            performance: PerformanceSettings {
                enable_metrics: true,
                low_power_mode: false,
                gpu_acceleration: true,
            },
        }
    }
}

/// Holds the current settings and the place they are kept at.
pub struct SettingsManager {
    settings_path: String,
    current_settings: Settings,
}

impl SettingsManager {
    /// The place the settings are kept at.
    pub closed spec fn path(&self) -> Seq<char> {
        self.settings_path@
    }

    /// The current settings.
    pub closed spec fn current(&self) -> Settings {
        self.current_settings
    }

    /// A manager for the settings kept at `settings_path`. `stored` is what
    /// was read from there; when nothing readable was there the settings of
    /// a fresh installation are used.
    pub fn with_stored(settings_path: String, stored: Option<Settings>) -> (manager: SettingsManager)
        ensures
            manager.path() == settings_path@,
            match stored {
                Some(settings) => manager.current() == settings,
                None => is_default(manager.current()),
            },
    {
        let current_settings = match stored {
            Some(settings) => settings,
            None => Settings::default(),
        };
        SettingsManager { settings_path, current_settings }
    }

    /// The current settings.
    pub fn get_settings(&self) -> (settings: &Settings)
        ensures
            *settings == self.current(),
    {
        &self.current_settings
    }

    /// The place the settings are kept at.
    pub fn settings_path(&self) -> (path: &str)
        ensures
            path@ == self.path(),
    {
        self.settings_path.as_str()
    }

    /// Makes `settings` the current settings, once they have been written.
    pub fn save_settings(&mut self, settings: Settings)
        ensures
            final(self).current() == settings,
            final(self).path() == old(self).path(),
    {
        self.current_settings = settings;
    }
}

} // verus!
