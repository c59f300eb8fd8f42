use robrix::i18n::{
    language_dropdown_labels, load_dictionary, tr, tr_fmt, tr_key, AppLanguage, I18nKey, Translations,
};

const EN: &str = r#"{
    "language.option.english": "English",
    "language.option.chinese_simplified": "Chinese (Simplified)",
    "settings.labs.translation.title": "Real-time Translation",
    "room_screen.thread_summary.n_replies": "{n} replies",
    "only.english": "Only in English"
}"#;

const ZH: &str = r#"{
    "language.option.english": "英语",
    "language.option.chinese_simplified": "简体中文",
    "settings.labs.translation.title": "实时翻译",
    "room_screen.thread_summary.n_replies": "{n} 条回复"
}"#;

fn translations() -> Translations {
    Translations::from_json(EN, ZH)
}

#[test]
fn language_codes_and_dropdown_positions() {
    assert_eq!(AppLanguage::English.code(), "en");
    assert_eq!(AppLanguage::ChineseSimplified.code(), "zh-CN");
    assert_eq!(AppLanguage::from_dropdown_index(0), AppLanguage::English);
    assert_eq!(AppLanguage::from_dropdown_index(1), AppLanguage::ChineseSimplified);
    assert_eq!(AppLanguage::from_dropdown_index(7), AppLanguage::English);
    for language in AppLanguage::ALL {
        assert_eq!(AppLanguage::from_dropdown_index(language.dropdown_index()), language);
    }
}

#[test]
fn lookups_fall_back_to_english_then_to_the_key() {
    let t = translations();
    assert_eq!(tr_key(&t, AppLanguage::ChineseSimplified, "settings.labs.translation.title"), "实时翻译");
    assert_eq!(tr_key(&t, AppLanguage::English, "settings.labs.translation.title"), "Real-time Translation");
    assert_eq!(tr_key(&t, AppLanguage::ChineseSimplified, "only.english"), "Only in English");
    assert_eq!(tr_key(&t, AppLanguage::ChineseSimplified, "missing.key"), "missing.key");
}

#[test]
fn placeholders_are_replaced_in_order() {
    let t = translations();
    assert_eq!(tr_fmt(&t, AppLanguage::English, "room_screen.thread_summary.n_replies", &[("n", "3")]), "3 replies");
    assert_eq!(tr_fmt(&t, AppLanguage::ChineseSimplified, "room_screen.thread_summary.n_replies", &[("n", "3")]), "3 条回复");
    assert_eq!(tr_fmt(&t, AppLanguage::English, "only.english", &[]), "Only in English");
}

#[test]
fn fixed_keys_and_dropdown_labels() {
    let t = translations();
    assert_eq!(tr(&t, AppLanguage::ChineseSimplified, I18nKey::LanguageOptionEnglish), "英语");
    assert_eq!(tr(&t, AppLanguage::English, I18nKey::LanguageTitle), "settings.preferences.language.title");
    assert_eq!(
        language_dropdown_labels(&t, AppLanguage::English),
        vec!["English".to_string(), "Chinese (Simplified)".to_string()],
    );
}

#[test]
fn malformed_dictionary_is_empty() {
    let d = load_dictionary("not json");
    assert!(!d.contains_key("language.option.english"));
    let d = load_dictionary(EN);
    assert!(d.contains_key("language.option.english"));
    assert_eq!(d.get("only.english").map(|s| s.as_str()), Some("Only in English"));
}
