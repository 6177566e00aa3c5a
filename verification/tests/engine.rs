use vardadb::engine::schema::TypeKind;
use vardadb::engine::tokenizer::Tokenizer;

#[test]
fn exact_keeps_the_whole_value() {
    assert_eq!(Tokenizer::tokenize("Hello World", "exact"), vec!["Hello World".to_string()]);
}

#[test]
fn hash_is_hex_sha256() {
    assert_eq!(
        Tokenizer::tokenize("abc", "hash"),
        vec!["ba7816bf8f01cfea414140de5dae2223b00361a396177a9cb410ff61f20015ad".to_string()]
    );
    assert_eq!(
        Tokenizer::tokenize("", "hash"),
        vec!["e3b0c44298fc1c149afbf4c8996fb92427ae41e4649b934ca495991b7852b855".to_string()]
    );
}

#[test]
fn term_lowercases_alphanumeric_words() {
    assert_eq!(Tokenizer::tokenize("Hello, World-42! the", "term"), vec!["hello", "world", "42", "the"]);
    assert_eq!(Tokenizer::tokenize("  ", "term"), Vec::<String>::new());
}

#[test]
fn fulltext_drops_stop_words_and_stems() {
    assert_eq!(Tokenizer::tokenize("The Running dogs and cats", "fulltext"), vec!["run", "dog", "cat"]);
}

#[test]
fn trigram_windows_of_lowercased_text() {
    assert_eq!(Tokenizer::tokenize("HeLLo", "trigram"), vec!["hel", "ell", "llo"]);
    assert_eq!(Tokenizer::tokenize("ab", "trigram"), Vec::<String>::new());
    assert_eq!(Tokenizer::tokenize("éé", "trigram"), Vec::<String>::new());
}

#[test]
fn datetime_splits_numeric_runs() {
    assert_eq!(Tokenizer::tokenize("2023-10-05T14:30:00Z", "datetime"), vec!["2023", "10", "05", "14", "30", "00"]);
    assert_eq!(Tokenizer::tokenize("no digits", "datetime"), Vec::<String>::new());
}

#[test]
fn unknown_strategy_yields_nothing() {
    assert_eq!(Tokenizer::tokenize("abc", "soundex"), Vec::<String>::new());
}

#[test]
fn type_kinds_compare_by_members() {
    assert_eq!(TypeKind::Union(vec!["A".to_string()]), TypeKind::Union(vec!["A".to_string()]));
    assert_ne!(TypeKind::Object, TypeKind::Interface);
}
