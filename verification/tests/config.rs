use printcher::config::{
    config_dir_in, config_from_file, config_path_in, default_pattern, first_run_config, Config, ConfigFields,
    ImageFormat, Theme,
};

fn empty_fields() -> ConfigFields {
    ConfigFields {
        start_on_login: None,
        tray_enabled: None,
        theme: None,
        dyslexia_font: None,
        folder: None,
        format: None,
        pattern: None,
        auto_copy: None,
    }
}

#[test]
fn default_config_has_autostart_off() {
    assert!(!Config::default().start_on_login);
}

#[test]
fn theme_defaults_to_system() {
    assert_eq!(Config::default().theme, Theme::System);
}

#[test]
fn load_without_file_returns_default() {
    let cfg = config_from_file(None);
    assert!(!cfg.start_on_login);
}

#[test]
fn save_then_load_round_trips() {
    let saved = Config { start_on_login: true, ..Default::default() };
    let back = Config::from_fields(saved.to_fields());
    assert!(back.start_on_login);
    assert_eq!(back.pattern, saved.pattern);
    assert_eq!(back.tray_enabled, saved.tray_enabled);
}

#[test]
fn tray_enabled_defaults_to_true_when_missing_from_an_existing_config_file() {
    // A file that holds only `start_on_login = true`.
    let fields = ConfigFields { start_on_login: Some(true), ..empty_fields() };
    assert!(config_from_file(Some(fields)).tray_enabled, "configs antigos não devem perder o ícone da bandeja sozinhos");
}

#[test]
fn load_or_init_enables_tray_by_default() {
    let cfg = first_run_config();
    assert!(cfg.tray_enabled);
}

#[test]
fn first_run_config_turns_autostart_and_copy_on() {
    let cfg = first_run_config();
    assert!(cfg.start_on_login);
    assert!(cfg.auto_copy);
    assert!(!cfg.dyslexia_font);
    assert_eq!(cfg.pattern, "printcher_%Y-%m-%d_%H-%M-%S");
    assert_eq!(cfg.format, ImageFormat::Png);
    assert_eq!(cfg.theme, Theme::System);
    assert_eq!(cfg.folder, None);
}

#[test]
fn default_config_is_all_off_with_an_empty_pattern() {
    let cfg = Config::default();
    assert!(!cfg.tray_enabled);
    assert!(!cfg.auto_copy);
    assert!(!cfg.dyslexia_font);
    assert_eq!(cfg.pattern, "");
    assert_eq!(cfg.format, ImageFormat::Png);
    assert_eq!(cfg.folder, None);
}

#[test]
fn missing_settings_take_their_defaults() {
    let cfg = config_from_file(Some(empty_fields()));
    assert!(!cfg.start_on_login);
    assert!(cfg.tray_enabled);
    assert!(cfg.auto_copy);
    assert_eq!(cfg.pattern, default_pattern());
    assert_eq!(cfg.theme, Theme::System);
    assert_eq!(cfg.format, ImageFormat::Png);
}

#[test]
fn settings_in_the_file_win_over_defaults() {
    let fields = ConfigFields {
        tray_enabled: Some(false),
        theme: Some(Theme::Dark),
        folder: Some("/home/ana/Capturas".to_string()),
        format: Some(ImageFormat::WebP),
        pattern: Some("captura_%n".to_string()),
        auto_copy: Some(false),
        dyslexia_font: Some(true),
        ..empty_fields()
    };
    let cfg = Config::from_fields(fields);
    assert!(!cfg.tray_enabled);
    assert!(!cfg.auto_copy);
    assert!(cfg.dyslexia_font);
    assert_eq!(cfg.theme, Theme::Dark);
    assert_eq!(cfg.format, ImageFormat::WebP);
    assert_eq!(cfg.pattern, "captura_%n");
    assert_eq!(cfg.folder.as_deref(), Some("/home/ana/Capturas"));
}

#[test]
fn every_setting_survives_writing_and_reading() {
    let cfg = Config {
        start_on_login: true,
        tray_enabled: false,
        theme: Theme::Light,
        dyslexia_font: true,
        folder: Some("/tmp/capturas".to_string()),
        format: ImageFormat::Jpg,
        pattern: "x_%d".to_string(),
        auto_copy: false,
    };
    let back = Config::from_fields(cfg.to_fields());
    assert_eq!(back.start_on_login, cfg.start_on_login);
    assert_eq!(back.tray_enabled, cfg.tray_enabled);
    assert_eq!(back.theme, cfg.theme);
    assert_eq!(back.dyslexia_font, cfg.dyslexia_font);
    assert_eq!(back.folder, cfg.folder);
    assert_eq!(back.format, cfg.format);
    assert_eq!(back.pattern, cfg.pattern);
    assert_eq!(back.auto_copy, cfg.auto_copy);
}

#[test]
fn extension_follows_the_format() {
    assert_eq!(ImageFormat::Png.extension(), "png");
    assert_eq!(ImageFormat::Jpg.extension(), "jpg");
    assert_eq!(ImageFormat::WebP.extension(), "webp");
}

#[test]
fn config_dir_prefers_the_config_home_then_the_home() {
    assert_eq!(
        config_dir_in(Some("/home/ana/.config".to_string()), Some("/home/ana".to_string())).as_deref(),
        Some("/home/ana/.config/printcher")
    );
    assert_eq!(config_dir_in(None, Some("/home/ana".to_string())).as_deref(), Some("/home/ana/printcher"));
    assert_eq!(config_dir_in(None, None), None);
    assert_eq!(config_path_in("/home/ana/.config/printcher"), "/home/ana/.config/printcher/config.toml");
}

#[test]
fn an_unreadable_file_gives_the_default_settings() {
    let cfg = config_from_file(None);
    assert!(!cfg.start_on_login);
    assert!(!cfg.tray_enabled);
    assert!(!cfg.auto_copy);
    assert!(!cfg.dyslexia_font);
    assert_eq!(cfg.theme, Theme::System);
    assert_eq!(cfg.format, ImageFormat::Png);
    assert_eq!(cfg.folder, None);
    assert_eq!(cfg.pattern, "");
}
