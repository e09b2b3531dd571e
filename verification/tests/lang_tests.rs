use ferrumcraft::lang::{LangError, TranslationTable};

#[test]
fn empty_table_returns_none() {
    let table = TranslationTable::empty();
    assert_eq!(table.translate("block.stone"), None);
}

#[test]
fn fallback_returns_key() {
    let table = TranslationTable::empty();
    assert_eq!(table.translate_or_default("block.missing"), "block.missing");
}

#[test]
fn loads_from_inline_json() {
    let table = TranslationTable::load(r#"{"block.stone":"Stone"}"#).unwrap();
    assert_eq!(table.translate("block.stone"), Some("Stone"));
}

#[test]
fn later_duplicate_keys_win_and_len_counts_keys() {
    let table = TranslationTable::load(r#"{"a":"1","b":"2","a":"3"}"#).unwrap();
    assert_eq!(table.len(), 2);
    assert_eq!(table.translate("a"), Some("3"));
    assert_eq!(table.translate_or_default("b"), "2");
    assert_eq!(table.clone().translate("b"), Some("2"));
}

#[test]
fn malformed_translation_files_are_refused() {
    assert_eq!(TranslationTable::load("[1, 2]").unwrap_err(), LangError::Malformed);
    assert_eq!(TranslationTable::load("{\"a\": 1}").unwrap_err(), LangError::Malformed);
    assert_eq!(TranslationTable::default().len(), 0);
}
