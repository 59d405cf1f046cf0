use leanspec::config::{
    mutate_config, normalize_config, read_config, update_config, ConfigStore, DesktopConfig,
};

#[test]
fn defaults_are_those_of_a_fresh_installation() {
    let config = DesktopConfig::default();
    assert_eq!(config.window.width, 1400);
    assert_eq!(config.window.height, 900);
    assert_eq!(config.window.x, None);
    assert_eq!(config.window.y, None);
    assert!(!config.window.maximized);
    assert!(!config.behavior.start_minimized);
    assert!(config.behavior.minimize_to_tray);
    assert!(!config.behavior.launch_at_login);
    assert_eq!(config.shortcuts.toggle_window, "CommandOrControl+Shift+L");
    assert_eq!(config.shortcuts.quick_switcher, "CommandOrControl+Shift+K");
    assert_eq!(config.shortcuts.new_spec, "CommandOrControl+Shift+N");
    assert!(config.updates.auto_check);
    assert!(!config.updates.auto_install);
    assert_eq!(config.updates.channel, "stable");
    assert_eq!(config.appearance.theme, "system");
    assert_eq!(config.active_project_id, None);
}

#[test]
fn unknown_theme_and_channel_are_replaced() {
    let mut config = DesktopConfig::default();
    config.appearance.theme = "neon".to_string();
    config.updates.channel = "nightly".to_string();
    config.window.width = 800;
    config.active_project_id = Some("p".to_string());
    normalize_config(&mut config);
    assert_eq!(config.appearance.theme, "system");
    assert_eq!(config.updates.channel, "stable");
    assert_eq!(config.window.width, 800);
    assert_eq!(config.active_project_id, Some("p".to_string()));
}

#[test]
fn known_theme_and_channel_are_kept() {
    for theme in ["light", "dark", "system"] {
        for channel in ["stable", "beta"] {
            let mut config = DesktopConfig::default();
            config.appearance.theme = theme.to_string();
            config.updates.channel = channel.to_string();
            normalize_config(&mut config);
            assert_eq!(config.appearance.theme, theme);
            assert_eq!(config.updates.channel, channel);
        }
    }
    let mut config = DesktopConfig::default();
    config.appearance.theme = "Dark".to_string();
    normalize_config(&mut config);
    assert_eq!(config.appearance.theme, "system");
}

#[test]
fn store_starts_with_what_was_decoded_or_the_defaults() {
    let store = ConfigStore::new(None);
    assert_eq!(read_config(&store).appearance.theme, "system");
    assert_eq!(read_config(&store).window.width, 1400);
    let mut decoded = DesktopConfig::default();
    decoded.appearance.theme = "dark".to_string();
    decoded.updates.channel = "weekly".to_string();
    decoded.window.height = 600;
    let store = ConfigStore::new(Some(decoded));
    let config = read_config(&store);
    assert_eq!(config.appearance.theme, "dark");
    assert_eq!(config.updates.channel, "stable");
    assert_eq!(config.window.height, 600);
    let loaded = DesktopConfig::load_or_default(None);
    assert_eq!(loaded.updates.channel, "stable");
}

#[test]
fn update_replaces_the_current_settings() {
    let mut store = ConfigStore::new(None);
    let mut update = DesktopConfig::default();
    update.behavior.start_minimized = true;
    update.appearance.theme = "anything".to_string();
    let persisted = update_config(&mut store, update);
    assert!(persisted.behavior.start_minimized);
    assert!(read_config(&store).behavior.start_minimized);
    assert_eq!(read_config(&store).appearance.theme, "anything");
}

#[test]
fn mutate_changes_the_current_settings() {
    let mut store = ConfigStore::new(None);
    let persisted = mutate_config(&mut store, |mut config: DesktopConfig| {
        config.active_project_id = Some("abc".to_string());
        config
    });
    assert_eq!(persisted.active_project_id, Some("abc".to_string()));
    assert_eq!(read_config(&store).active_project_id, Some("abc".to_string()));
    assert_eq!(read_config(&store).window.width, 1400);
    let copy = read_config(&store).duplicate();
    assert_eq!(copy.active_project_id, Some("abc".to_string()));
}
