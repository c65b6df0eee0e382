use transcendental_crypto::Config;
use transcendental_crypto::Translations;
use transcendental_crypto::i18n::{str_eq, validation_error};

#[test]
fn english_table_holds_english_strings() {
    let t = Translations::english();
    assert_eq!(t.window_title, "Transcendental Encryption Tool");
    assert_eq!(t.encrypt_tab, "Encrypt");
    assert_eq!(t.decrypt_tab, "Decrypt");
    assert_eq!(t.kilobyte, "KB");
    assert_eq!(t.error_no_input, "Please select an input file.");
    assert_eq!(t.error_no_output, "Please select an output file.");
    assert_eq!(t.error_no_seed, "Please enter a password/seed.");
    assert_eq!(t.cancel, "Cancel");
    assert_eq!(t.file_dialog_filter, "All Files (*.*)\0*.*\0");
}

#[test]
fn turkish_table_holds_turkish_strings() {
    let t = Translations::turkish();
    assert_eq!(t.window_title, "Aşkın Şifreleme Aracı");
    assert_eq!(t.encrypt_tab, "Şifrele");
    assert_eq!(t.decrypt_tab, "Şifre Çöz");
    assert_eq!(t.kilobyte, "KB");
    assert_eq!(t.error_no_input, "Lütfen bir girdi dosyası seçin.");
    assert_eq!(t.cancel, "İptal");
}

#[test]
fn default_language_is_english() {
    let t = Translations::default();
    assert_eq!(t.window_title, "Transcendental Encryption Tool");
}

#[test]
fn language_code_selects_table() {
    let tr = Translations::for_language_code("tr");
    assert_eq!(tr.window_title, "Aşkın Şifreleme Aracı");
    let en = Translations::for_language_code("en");
    assert_eq!(en.window_title, "Transcendental Encryption Tool");
    let other = Translations::for_language_code("");
    assert_eq!(other.window_title, "Transcendental Encryption Tool");
}

#[test]
fn str_eq_compares_contents() {
    assert!(str_eq("tr", "tr"));
    assert!(!str_eq("tr", "en"));
    assert!(!str_eq("tr", "trk"));
    assert!(str_eq("", ""));
    assert!(str_eq("Çöz", "Çöz"));
}

#[test]
fn validation_reports_first_missing_field() {
    let t = Translations::english();
    assert_eq!(
        validation_error(&t, false, true, true),
        Some("Please select an input file.".to_string())
    );
    assert_eq!(
        validation_error(&t, true, false, true),
        Some("Please select an output file.".to_string())
    );
    assert_eq!(
        validation_error(&t, true, true, false),
        Some("Please enter a password/seed.".to_string())
    );
    assert_eq!(validation_error(&t, false, false, false),
        Some("Please select an input file.".to_string()));
    assert_eq!(validation_error(&t, true, true, true), None);
}

#[test]
fn config_holds_language_code() {
    let c = Config { language: "tr".to_string() };
    assert_eq!(c.language, "tr");
}
