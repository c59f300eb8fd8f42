//! UI languages and translated strings.
//!
//! Each language has a dictionary from translation keys to texts, loaded
//! from a JSON object of strings.  A lookup falls back to the English text,
//! and then to the key itself.

use std::collections::BTreeMap;
use vstd::prelude::*;
use crate::text::{replace_all, replaced, str_eq};

verus! {

broadcast use vstd::seq::group_seq_axioms, vstd::seq_lib::group_seq_properties;

/// App UI language preference stored in persisted app state.
#[derive(Clone, Copy, Debug, PartialEq, Eq, Structural)]
pub enum AppLanguage {
    English,
    ChineseSimplified,
}

impl Default for AppLanguage {
    /// English, the language the app starts in.
    fn default() -> (language: Self)
        ensures
            language == AppLanguage::English,
    {
        AppLanguage::English
    }
}

impl AppLanguage {
    /// All languages, in the order of the language dropdown.
    pub const ALL: [AppLanguage; 2] = [AppLanguage::English, AppLanguage::ChineseSimplified];

    /// The locale code of this language.
    pub fn code(self) -> (code: &'static str)
        ensures
            code@ == (match self {
                AppLanguage::English => "en"@,
                AppLanguage::ChineseSimplified => "zh-CN"@,
            }),
    {
        match self {
            AppLanguage::English => "en",
            AppLanguage::ChineseSimplified => "zh-CN",
        }
    }

    /// The language at `index` in the dropdown; English for any index past the end.
    pub open spec fn language_at(index: usize) -> AppLanguage {
        if index == 1 { AppLanguage::ChineseSimplified } else { AppLanguage::English }
    }

    /// The position of a language in the dropdown.
    pub open spec fn position(self) -> usize {
        match self {
            AppLanguage::English => 0usize,
            AppLanguage::ChineseSimplified => 1usize,
        }
    }

    /// The language at `index` in the dropdown; English for any index past the end.
    pub fn from_dropdown_index(index: usize) -> (language: AppLanguage)
        ensures
            language == Self::language_at(index),
    {
        if index == 1 {
            AppLanguage::ChineseSimplified
        } else {
            AppLanguage::English
        }
    }

    /// The position of this language in the dropdown.
    pub fn dropdown_index(self) -> (index: usize)
        ensures
            index == self.position(),
    {
        match self {
            AppLanguage::English => 0,
            AppLanguage::ChineseSimplified => 1,
        }
    }
}

/// The fixed keys that settings screens translate.
#[derive(Clone, Copy, Debug, PartialEq, Eq, Structural)]
pub enum I18nKey {
    AllSettingsTitle,
    SettingsCategoryAccount,
    SettingsCategoryPreferences,
    SettingsCategoryLabs,
    SettingsCategoryContribute,
    LanguageTitle,
    ApplicationLanguageLabel,
    LanguageReloadHint,
    LanguageOptionEnglish,
    LanguageOptionChineseSimplified,
}

/// The dictionary key of each fixed key.
pub open spec fn key_text(key: I18nKey) -> Seq<char> {
    match key {
        I18nKey::AllSettingsTitle => "settings.all_settings_title"@,
        I18nKey::SettingsCategoryAccount => "settings.category.account"@,
        I18nKey::SettingsCategoryPreferences => "settings.category.preferences"@,
        I18nKey::SettingsCategoryLabs => "settings.category.labs"@,
        I18nKey::SettingsCategoryContribute => "settings.category.contribute"@,
        I18nKey::LanguageTitle => "settings.preferences.language.title"@,
        I18nKey::ApplicationLanguageLabel => "settings.preferences.language.application_label"@,
        I18nKey::LanguageReloadHint => "settings.preferences.language.reload_hint"@,
        I18nKey::LanguageOptionEnglish => "language.option.english"@,
        I18nKey::LanguageOptionChineseSimplified => "language.option.chinese_simplified"@,
    }
}

impl I18nKey {
    fn as_str(self) -> (s: &'static str)
        ensures
            s@ == key_text(self),
    {
        match self {
            I18nKey::AllSettingsTitle => "settings.all_settings_title",
            I18nKey::SettingsCategoryAccount => "settings.category.account",
            I18nKey::SettingsCategoryPreferences => "settings.category.preferences",
            I18nKey::SettingsCategoryLabs => "settings.category.labs",
            I18nKey::SettingsCategoryContribute => "settings.category.contribute",
            I18nKey::LanguageTitle => "settings.preferences.language.title",
            I18nKey::ApplicationLanguageLabel => "settings.preferences.language.application_label",
            I18nKey::LanguageReloadHint => "settings.preferences.language.reload_hint",
            I18nKey::LanguageOptionEnglish => "language.option.english",
            I18nKey::LanguageOptionChineseSimplified => "language.option.chinese_simplified",
        }
    }
}

/// The key/value pairs of the JSON object of strings in `text` (each key
/// once, a repeated key keeping its last value), or `None` when `text` is
/// not such an object.  No clause says in which order the pairs come.
pub uninterp spec fn json_string_map(text: Seq<char>) -> Option<Seq<(Seq<char>, Seq<char>)>>;

/// Key/value pairs as plain values.
pub open spec fn pairs_view(pairs: Seq<(String, String)>) -> Seq<(Seq<char>, Seq<char>)> {
    pairs.map_values(|p: (String, String)| (p.0@, p.1@))
}

/// No key occurs twice.
pub open spec fn distinct_keys(pairs: Seq<(Seq<char>, Seq<char>)>) -> bool {
    forall|i: int, j: int| 0 <= i < j < pairs.len() ==> #[trigger] pairs[i].0 != #[trigger] pairs[j].0
}

/// `serde_json::from_str` into a `BTreeMap<String, String>`: the entries of
/// the JSON object of strings in `text`, or `None` when `text` is not one.
/// The map holds each key once.
#[verifier::external_body]
fn parse_json_string_map(text: &str) -> (entries: Option<Vec<(String, String)>>)
    ensures
        match entries {
            None => json_string_map(text@) is None,
            Some(v) => json_string_map(text@) == Some(pairs_view(v@)) && distinct_keys(pairs_view(v@)),
        },
{
    serde_json::from_str::<BTreeMap<String, String>>(text).ok().map(|map| map.into_iter().collect())
}

/// The text for `key` in `pairs`, if it has one.
pub open spec fn lookup_text(pairs: Seq<(Seq<char>, Seq<char>)>, key: Seq<char>) -> Option<Seq<char>> {
    if exists|i: int| 0 <= i < pairs.len() && #[trigger] pairs[i].0 == key {
        Some(pairs[choose|i: int| 0 <= i < pairs.len() && #[trigger] pairs[i].0 == key].1)
    } else {
        None
    }
}

/// The translations of one language.
pub struct Dictionary {
    entries: Vec<(String, String)>,
}

impl Dictionary {
    pub closed spec fn pairs(&self) -> Seq<(Seq<char>, Seq<char>)> {
        pairs_view(self.entries@)
    }

    pub closed spec fn wf(&self) -> bool {
        distinct_keys(self.pairs())
    }

    /// The text for `key`, if this dictionary has one.
    pub fn get(&self, key: &str) -> (text: Option<&String>)
        requires
            self.wf(),
        ensures
            match text {
                Some(t) => lookup_text(self.pairs(), key@) == Some(t@),
                None => lookup_text(self.pairs(), key@) is None,
            },
    {
        let mut i: usize = 0;
        while i < self.entries.len()
            invariant
                0 <= i <= self.entries@.len(),
                self.wf(),
                forall|k: int| 0 <= k < i ==> self.entries@[k].0@ != key@,
            decreases self.entries@.len() - i,
        {
            if str_eq(self.entries[i].0.as_str(), key) {
                proof {
                    let pairs = self.pairs();
                    assert(pairs[i as int].0 == key@);
                    let c = choose|c: int| 0 <= c < pairs.len() && #[trigger] pairs[c].0 == key@;
                    assert(c == i);
                }
                return Some(&self.entries[i].1);
            }
            i += 1;
        }
        proof {
            let pairs = self.pairs();
            assert forall|c: int| 0 <= c < pairs.len() implies #[trigger] pairs[c].0 != key@ by {
                assert(pairs[c].0 == self.entries@[c].0@);
            }
        }
        None
    }

    /// Whether this dictionary has a text for `key`.
    pub fn contains_key(&self, key: &str) -> (found: bool)
        requires
            self.wf(),
        ensures
            found == (lookup_text(self.pairs(), key@) is Some),
    {
        self.get(key).is_some()
    }
}

/// The dictionary read from `json`, a JSON object of strings; empty when
/// `json` is not such an object.
pub fn load_dictionary(json: &str) -> (dictionary: Dictionary)
    ensures
        dictionary.wf(),
        dictionary.pairs() == match json_string_map(json@) {
            Some(pairs) => pairs,
            None => Seq::empty(),
        },
{
    match parse_json_string_map(json) {
        Some(entries) => Dictionary { entries },
        None => {
            let d = Dictionary { entries: Vec::new() };
            assert(d.pairs() =~= Seq::empty());
            d
        },
    }
}

/// The dictionaries of all languages.
pub struct Translations {
    pub english: Dictionary,
    pub chinese_simplified: Dictionary,
}

impl Translations {
    pub open spec fn wf(&self) -> bool {
        self.english.wf() && self.chinese_simplified.wf()
    }

    pub open spec fn pairs_of(&self, language: AppLanguage) -> Seq<(Seq<char>, Seq<char>)> {
        match language {
            AppLanguage::English => self.english.pairs(),
            AppLanguage::ChineseSimplified => self.chinese_simplified.pairs(),
        }
    }

    /// The dictionaries read from the JSON texts of each language.
    pub fn from_json(english_json: &str, chinese_simplified_json: &str) -> (t: Translations)
        ensures
            t.wf(),
            t.english.pairs() == match json_string_map(english_json@) {
                Some(pairs) => pairs,
                None => Seq::empty(),
            },
            t.chinese_simplified.pairs() == match json_string_map(chinese_simplified_json@) {
                Some(pairs) => pairs,
                None => Seq::empty(),
            },
    {
        Translations {
            english: load_dictionary(english_json),
            chinese_simplified: load_dictionary(chinese_simplified_json),
        }
    }
}

/// The dictionary of `language`.
pub fn dictionary(translations: &Translations, language: AppLanguage) -> (d: &Dictionary)
    ensures
        d.pairs() == translations.pairs_of(language),
{
    match language {
        AppLanguage::English => &translations.english,
        AppLanguage::ChineseSimplified => &translations.chinese_simplified,
    }
}

/// The text shown for `key` in `language`: its own text, else the English
/// text, else the key itself.
pub open spec fn translated(translations: Translations, language: AppLanguage, key: Seq<char>) -> Seq<char> {
    match lookup_text(translations.pairs_of(language), key) {
        Some(t) => t,
        None => match lookup_text(translations.english.pairs(), key) {
            Some(t) => t,
            None => key,
        },
    }
}

/// The text for `key` in `language`, falling back to English and then to
/// the key itself.
pub fn tr_key<'a>(translations: &'a Translations, language: AppLanguage, key: &'a str) -> (text: &'a str)
    requires
        translations.wf(),
    ensures
        text@ == translated(*translations, language, key@),
{
    match dictionary(translations, language).get(key) {
        Some(text) => text.as_str(),
        None => match dictionary(translations, AppLanguage::English).get(key) {
            Some(text) => text.as_str(),
            None => key,
        },
    }
}

/// `template` with each placeholder `{name}` of `vars`, in order, replaced by its value.
pub open spec fn formatted(template: Seq<char>, vars: Seq<(&str, &str)>) -> Seq<char>
    decreases vars.len(),
{
    if vars.len() == 0 {
        template
    } else {
        formatted(
            replaced(template, seq!['{'] + vars[0].0@ + seq!['}'], vars[0].1@),
            vars.drop_first(),
        )
    }
}

/// The text for `key` in `language`, with each placeholder `{name}` of
/// `vars`, in order, replaced by its value.
pub fn tr_fmt(translations: &Translations, language: AppLanguage, key: &str, vars: &[(&str, &str)]) -> (text: String)
    requires
        translations.wf(),
    ensures
        text@ == formatted(translated(*translations, language, key@), vars@),
{
    let mut output = tr_key(translations, language, key).to_owned();
    let mut i: usize = 0;
    while i < vars.len()
        invariant
            0 <= i <= vars@.len(),
            formatted(translated(*translations, language, key@), vars@) == formatted(output@, vars@.skip(i as int)),
        decreases vars@.len() - i,
    {
        let (name, value) = vars[i];
        let mut placeholder = String::new();
        crate::text::string_push(&mut placeholder, '{');
        crate::text::string_push_str(&mut placeholder, name);
        crate::text::string_push(&mut placeholder, '}');
        proof {
            assert(placeholder@ =~= seq!['{'] + name@ + seq!['}']);
            assert(vars@.skip(i as int).drop_first() =~= vars@.skip(i + 1));
        }
        output = replace_all(output.as_str(), placeholder.as_str(), value);
        i += 1;
    }
    output
}

/// The text for the fixed key `key` in `language`.
pub fn tr<'a>(translations: &'a Translations, language: AppLanguage, key: I18nKey) -> (text: &'a str)
    requires
        translations.wf(),
    ensures
        text@ == translated(*translations, language, key_text(key)),
{
    tr_key(translations, language, key.as_str())
}

/// Distinct fixed keys are looked up under distinct dictionary keys, so no
/// two of them can show each other's text.
pub proof fn lemma_key_text_injective(a: I18nKey, b: I18nKey)
    ensures
        key_text(a) == key_text(b) <==> a == b,
{
    reveal_strlit("settings.all_settings_title");
    reveal_strlit("settings.category.account");
    reveal_strlit("settings.category.preferences");
    reveal_strlit("settings.category.labs");
    reveal_strlit("settings.category.contribute");
    reveal_strlit("settings.preferences.language.title");
    reveal_strlit("settings.preferences.language.application_label");
    reveal_strlit("settings.preferences.language.reload_hint");
    reveal_strlit("language.option.english");
    reveal_strlit("language.option.chinese_simplified");
    if key_text(a) == key_text(b) {
        assert(key_text(a).len() == key_text(b).len());
    }
}

/// Each settings category's title is looked up under `settings.category.`
/// followed by the category's name.
pub proof fn lemma_category_keys()
    ensures
        key_text(I18nKey::SettingsCategoryAccount) == "settings.category."@ + "account"@,
        key_text(I18nKey::SettingsCategoryPreferences) == "settings.category."@ + "preferences"@,
        key_text(I18nKey::SettingsCategoryLabs) == "settings.category."@ + "labs"@,
        key_text(I18nKey::SettingsCategoryContribute) == "settings.category."@ + "contribute"@,
{
    reveal_strlit("settings.category.");
    reveal_strlit("account");
    reveal_strlit("preferences");
    reveal_strlit("labs");
    reveal_strlit("contribute");
    reveal_strlit("settings.category.account");
    reveal_strlit("settings.category.preferences");
    reveal_strlit("settings.category.labs");
    reveal_strlit("settings.category.contribute");
    assert(key_text(I18nKey::SettingsCategoryAccount) =~= "settings.category."@ + "account"@);
    assert(key_text(I18nKey::SettingsCategoryPreferences) =~= "settings.category."@ + "preferences"@);
    assert(key_text(I18nKey::SettingsCategoryLabs) =~= "settings.category."@ + "labs"@);
    assert(key_text(I18nKey::SettingsCategoryContribute) =~= "settings.category."@ + "contribute"@);
}

/// The language settings are looked up under
/// `settings.preferences.language.` followed by the setting's name, the
/// language options under `language.option.` followed by the language's
/// name, and the title of all settings under `settings.`.
pub proof fn lemma_language_keys()
    ensures
        key_text(I18nKey::AllSettingsTitle) == "settings."@ + "all_settings_title"@,
        key_text(I18nKey::LanguageTitle) == "settings.preferences.language."@ + "title"@,
        key_text(I18nKey::ApplicationLanguageLabel) == "settings.preferences.language."@ + "application_label"@,
        key_text(I18nKey::LanguageReloadHint) == "settings.preferences.language."@ + "reload_hint"@,
        key_text(I18nKey::LanguageOptionEnglish) == "language.option."@ + "english"@,
        key_text(I18nKey::LanguageOptionChineseSimplified) == "language.option."@ + "chinese_simplified"@,
{
    reveal_strlit("settings.");
    reveal_strlit("all_settings_title");
    reveal_strlit("settings.preferences.language.");
    reveal_strlit("title");
    reveal_strlit("application_label");
    reveal_strlit("reload_hint");
    reveal_strlit("language.option.");
    reveal_strlit("english");
    reveal_strlit("chinese_simplified");
    reveal_strlit("settings.all_settings_title");
    reveal_strlit("settings.preferences.language.title");
    reveal_strlit("settings.preferences.language.application_label");
    reveal_strlit("settings.preferences.language.reload_hint");
    reveal_strlit("language.option.english");
    reveal_strlit("language.option.chinese_simplified");
    assert(key_text(I18nKey::AllSettingsTitle) =~= "settings."@ + "all_settings_title"@);
    assert(key_text(I18nKey::LanguageTitle) =~= "settings.preferences.language."@ + "title"@);
    assert(key_text(I18nKey::ApplicationLanguageLabel) =~= "settings.preferences.language."@ + "application_label"@);
    assert(key_text(I18nKey::LanguageReloadHint) =~= "settings.preferences.language."@ + "reload_hint"@);
    assert(key_text(I18nKey::LanguageOptionEnglish) =~= "language.option."@ + "english"@);
    assert(key_text(I18nKey::LanguageOptionChineseSimplified) =~= "language.option."@ + "chinese_simplified"@);
}

/// The labels of the language dropdown, in `language`.
pub fn language_dropdown_labels(translations: &Translations, language: AppLanguage) -> (labels: Vec<String>)
    requires
        translations.wf(),
    ensures
        labels@.len() == 2,
        labels@[0]@ == translated(*translations, language, key_text(I18nKey::LanguageOptionEnglish)),
        labels@[1]@ == translated(*translations, language, key_text(I18nKey::LanguageOptionChineseSimplified)),
{
    let mut labels = Vec::new();
    labels.push(tr(translations, language, I18nKey::LanguageOptionEnglish).to_owned());
    labels.push(tr(translations, language, I18nKey::LanguageOptionChineseSimplified).to_owned());
    labels
}

/// A key that neither the dictionary of the language nor the English one
/// knows is shown as the key itself, and English text is never looked up
/// for a key the language's own dictionary has.
pub proof fn lemma_translation_fallback(translations: Translations, language: AppLanguage, key: Seq<char>)
    ensures
        lookup_text(translations.pairs_of(language), key) matches Some(t) ==> translated(translations, language, key) == t,
        lookup_text(translations.pairs_of(language), key) is None && lookup_text(translations.english.pairs(), key) is None
            ==> translated(translations, language, key) == key,
        translated(translations, AppLanguage::English, key) == match lookup_text(translations.english.pairs(), key) {
            Some(t) => t,
            None => key,
        },
{
}

/// The dropdown position of a language leads back to that language.
pub proof fn lemma_dropdown_round_trip(language: AppLanguage)
    ensures
        AppLanguage::language_at(language.position()) == language,
{
}

/// Formatting with one placeholder replaces that placeholder.
pub proof fn lemma_format_one(template: Seq<char>, name: &str, value: &str)
    ensures
        formatted(template, seq![(name, value)]) == replaced(template, seq!['{'] + name@ + seq!['}'], value@),
{
    let vars = seq![(name, value)];
    assert(vars.drop_first() =~= Seq::<(&str, &str)>::empty());
    reveal_with_fuel(formatted, 2);
}

/// Formatting with a first placeholder and more replaces the first one,
/// then formats the rest.
pub proof fn lemma_format_cons(template: Seq<char>, name: &str, value: &str, rest: Seq<(&str, &str)>)
    ensures
        formatted(template, seq![(name, value)] + rest)
            == formatted(replaced(template, seq!['{'] + name@ + seq!['}'], value@), rest),
{
    let vars = seq![(name, value)] + rest;
    assert(vars.drop_first() =~= rest);
}

/// Formatting with no placeholders gives the translated text unchanged.
pub proof fn lemma_format_without_vars(template: Seq<char>)
    ensures
        formatted(template, Seq::<(&str, &str)>::empty()) == template,
{
}

} // verus!
