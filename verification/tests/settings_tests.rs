use lightning_dictionary::settings::{Settings, SettingsManager};

#[test]
fn default_settings() {
    let s = Settings::default();
    assert!(s.hotkey.enabled);
    assert_eq!(s.hotkey.primary, "Alt+J");
    assert_eq!(s.hotkey.secondary, "Ctrl+Shift+D");
    assert_eq!(s.appearance.theme, "dark");
    assert_eq!(s.appearance.font_size, "medium");
    assert!(s.appearance.animations);
    assert!(!s.appearance.reduced_motion);
    assert_eq!(s.cache.max_size, 10_000);
    assert!(!s.cache.clear_on_exit);
    assert!(s.cache.preload_common);
    assert!(s.behavior.close_on_click_outside);
    assert!(s.behavior.close_on_escape);
    assert!(!s.behavior.copy_on_select);
    assert!(s.behavior.show_frequency);
    assert!(s.behavior.auto_search);
    assert_eq!(s.behavior.search_delay, 300);
    assert!(s.performance.enable_metrics);
    assert!(!s.performance.low_power_mode);
    assert!(s.performance.gpu_acceleration);
}

#[test]
fn manager_holds_what_was_stored_or_the_defaults() {
    let fresh = SettingsManager::with_stored("/tmp/settings.json".to_string(), None);
    assert_eq!(fresh.settings_path(), "/tmp/settings.json");
    assert_eq!(fresh.get_settings().appearance.theme, "dark");

    let mut custom = Settings::default();
    custom.appearance.theme = "light".to_string();
    custom.cache.max_size = 5;
    let mut manager = SettingsManager::with_stored("p".to_string(), Some(custom));
    assert_eq!(manager.get_settings().appearance.theme, "light");
    assert_eq!(manager.get_settings().cache.max_size, 5);

    let mut next = Settings::default();
    next.behavior.search_delay = 10;
    manager.save_settings(next);
    assert_eq!(manager.get_settings().behavior.search_delay, 10);
    assert_eq!(manager.get_settings().appearance.theme, "dark");
    assert_eq!(manager.settings_path(), "p");
}

#[test]
fn cloned_settings_are_the_same() {
    let mut s = Settings::default();
    s.hotkey.primary = "Alt+K".to_string();
    s.behavior.search_delay = 7;
    let copy = s.clone();
    assert_eq!(copy.hotkey.primary, "Alt+K");
    assert_eq!(copy.hotkey.secondary, "Ctrl+Shift+D");
    assert_eq!(copy.appearance.theme, "dark");
    assert_eq!(copy.behavior.search_delay, 7);
    assert_eq!(copy.cache.max_size, 10_000);
}
