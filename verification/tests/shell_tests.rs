use desktop_shell::config::Config;
use desktop_shell::config::StartupError;
use desktop_shell::window::startup_appearance;
use desktop_shell::window::toggle_fullscreen;
use desktop_shell::window::toggle_titlebar;
use desktop_shell::window::FullscreenAction;
use desktop_shell::window::TitleVisibility;
use desktop_shell::window::TitlebarAction;
use desktop_shell::window::TitlebarSettings;

#[test]
fn startup_without_credential_is_refused() {
    let r = Config::from_env_value(None);
    assert!(matches!(r, Err(StartupError::MissingCredential)));
}

#[test]
fn get_api_key_returns_configured_credential() {
    let config = Config::from_env_value(Some(String::from("sk-test-123"))).unwrap();
    assert_eq!(config.get_api_key(), "sk-test-123");
}

#[test]
fn get_api_key_is_byte_for_byte() {
    let credential = String::from("a\u{00e9}b c\t!");
    let config = Config::from_env_value(Some(credential.clone())).unwrap();
    assert_eq!(config.get_api_key().as_bytes(), credential.as_bytes());
}

#[test]
fn toggle_titlebar_without_window_is_noop() {
    let first = toggle_titlebar(false, true);
    let second = toggle_titlebar(false, false);
    assert_eq!(first, TitlebarAction::NoEffect);
    assert_eq!(second, TitlebarAction::NoEffect);
}

#[test]
fn toggle_titlebar_show_applies_visible_title() {
    let r = toggle_titlebar(true, true);
    assert_eq!(
        r,
        TitlebarAction::Apply(TitlebarSettings {
            transparent: true,
            visibility: TitleVisibility::Visible,
        })
    );
}

#[test]
fn toggle_titlebar_hide_applies_hidden_title() {
    let r = toggle_titlebar(true, false);
    assert_eq!(
        r,
        TitlebarAction::Apply(TitlebarSettings {
            transparent: true,
            visibility: TitleVisibility::Hidden,
        })
    );
}

#[test]
fn startup_appearance_asks_for_the_documented_chrome() {
    let a = startup_appearance();
    assert!(a.translucent_background);
    assert!(a.titlebar_transparent);
    assert!(a.full_size_content);
    assert!(a.restorable);
}

#[test]
fn toggle_fullscreen_with_window_toggles() {
    assert_eq!(toggle_fullscreen(true), FullscreenAction::ToggleNative);
}

#[test]
fn toggle_fullscreen_without_window_is_noop() {
    assert_eq!(toggle_fullscreen(false), FullscreenAction::NoEffect);
}
