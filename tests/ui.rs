use rustr_core::i18n::{I18n, Language};
use rustr_core::ui::{format_timestamp, Composer, DebugTestRunner, FontConfig, FontFamily, Onboarding, OnboardingStep, SettingsView, TestStep};

#[test]
fn languages() {
    assert_eq!(Language::all(), vec![Language::Japanese, Language::English]);
    assert_eq!(Language::Japanese.code(), "ja");
    assert_eq!(Language::English.name(), "English");
    assert_eq!(Language::Japanese.name(), "日本語");
}

#[test]
fn strings_follow_language() {
    let mut t = I18n::new(Language::English);
    assert_eq!(t.app_name(), "Rustr");
    assert_eq!(t.onboarding_welcome_title(), "🦀 Welcome to Rustr");
    assert_eq!(t.composer_char_count(12), "12 chars");
    t.set_language(Language::Japanese);
    assert_eq!(*t.language(), Language::Japanese);
    assert_eq!(t.onboarding_welcome_title(), "🦀 Rustrへようこそ");
    assert_eq!(t.composer_char_count(3), "3 文字");
    assert_eq!(t.settings_preview_english(), "English: Hello, World!");
    let d = I18n::default();
    assert_eq!(*d.language(), Language::Japanese);
}

#[test]
fn fonts_and_settings() {
    assert_eq!(FontFamily::all(), vec![FontFamily::NotoSansJP, FontFamily::SystemDefault]);
    assert_eq!(FontFamily::SystemDefault.name(), "System Default");
    let mut v = SettingsView::new(FontConfig::default());
    assert_eq!(v.font_config().font_family, FontFamily::NotoSansJP);
    assert!(!v.is_font_changed());
    v.select_font(FontFamily::SystemDefault);
    assert!(v.is_font_changed());
}

#[test]
fn composer_and_onboarding() {
    let mut c = Composer::new();
    c.text.push_str("draft");
    c.clear();
    assert!(c.text.is_empty());
    let o = Onboarding::new();
    assert_eq!(o.step, OnboardingStep::Welcome);
    assert!(o.error_message.is_none());
}

#[test]
fn debug_runner_status() {
    assert_eq!(DebugTestRunner::new(false).get_status_text(), "");
    let mut r = DebugTestRunner::new(true);
    assert!(r.is_enabled());
    assert_eq!(r.get_status_text(), "🧪 Debug Test: Step 0/7 - Idle (frame: 0)");
    r.advance_step();
    r.advance_step();
    r.advance_step();
    assert!(matches!(r.current_step(), TestStep::OpenChannel { channel_id } if channel_id == "test_channel_001"));
    assert_eq!(r.get_status_text(), "🧪 Debug Test: Step 3/7 - OpenChannel { channel_id: \"test_channel_001\" } (frame: 0)");
    for _ in 0..4 {
        r.advance_step();
    }
    assert!(matches!(r.current_step(), TestStep::Completed));
    assert_eq!(r.get_status_text(), "✅ Debug Test: COMPLETED");
}

#[test]
fn timestamps_show_age() {
    assert_eq!(format_timestamp(1000, 1059), "59s ago");
    assert_eq!(format_timestamp(1000, 1060), "1m ago");
    assert_eq!(format_timestamp(0, 7199), "1h ago");
    assert_eq!(format_timestamp(0, 86400 * 3 + 5), "3d ago");
    assert_eq!(format_timestamp(100, 90), "-10s ago");
}
