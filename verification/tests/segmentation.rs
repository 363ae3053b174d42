use gpt_sovits::audio::{concat_audio, AudioTensor};
use gpt_sovits::symbols::SymbolTable;
use gpt_sovits::text::split_text;

#[test]
fn split_three_sentences_at_budget_fifteen() {
    let frags = split_text("Sentence one. Sentence two. Sentence three.", 15);
    assert_eq!(frags, vec!["Sentence one.", "Sentence two.", "Sentence three."]);
}

#[test]
fn split_empty_input_yields_no_fragments() {
    assert!(split_text("", 10).is_empty());
}

#[test]
fn split_whitespace_only_yields_no_fragments() {
    assert!(split_text("  \t \n ", 10).is_empty());
}

#[test]
fn split_zero_budget_equals_default_fifty() {
    let text = "One. Two. Three. Four. Five. Six. Seven. Eight. Nine. Ten. Eleven.";
    assert_eq!(split_text(text, 0), split_text(text, 50));
}

#[test]
fn split_hard_cut_without_boundary() {
    assert_eq!(split_text("abcdefghij", 4), vec!["abcd", "efgh", "ij"]);
}

#[test]
fn split_prefers_clause_boundary_inside_budget() {
    assert_eq!(split_text("ab,cd", 4), vec!["ab,", "cd"]);
}

#[test]
fn split_fragments_cover_all_content() {
    let text = "Hello there, world. How are you today? Fine!";
    let frags = split_text(text, 12);
    let joined: String = frags.concat();
    let strip = |s: &str| s.chars().filter(|c| !c.is_whitespace()).collect::<String>();
    assert_eq!(strip(&joined), strip(text));
    for f in &frags {
        assert!(!f.is_empty());
        assert!(f.chars().count() <= 12);
    }
}

#[test]
fn split_cjk_sentence_terminators() {
    let frags = split_text("\u{4f60}\u{597d}\u{3002}\u{518d}\u{89c1}\u{3002}", 3);
    assert_eq!(frags, vec!["\u{4f60}\u{597d}\u{3002}", "\u{518d}\u{89c1}\u{3002}"]);
}

#[test]
fn symbol_table_assigns_unique_ids_in_order() {
    let syms: Vec<String> = vec!["a".into(), "b".into(), "c".into()];
    let table = SymbolTable::from_symbols(&syms);
    assert_eq!(table.lookup("a"), Some(0));
    assert_eq!(table.lookup("b"), Some(1));
    assert_eq!(table.lookup("c"), Some(2));
    assert_eq!(table.lookup("d"), None);
}

#[test]
fn symbol_table_keeps_first_id_of_duplicate() {
    let syms: Vec<String> = vec!["a".into(), "b".into(), "a".into()];
    let table = SymbolTable::from_symbols(&syms);
    assert_eq!(table.lookup("a"), Some(0));
    assert_eq!(table.lookup("b"), Some(1));
}

#[test]
fn phones_to_ids_maps_known_symbols() {
    let syms: Vec<String> = vec!["k".into(), "a".into(), "t".into()];
    let table = SymbolTable::from_symbols(&syms);
    let phones: Vec<String> = vec!["k".into(), "a".into(), "t".into(), "a".into()];
    assert_eq!(table.phones_to_ids(&phones), Ok(vec![0, 1, 2, 1]));
}

#[test]
fn phones_to_ids_rejects_unknown_symbol() {
    let syms: Vec<String> = vec!["k".into()];
    let table = SymbolTable::from_symbols(&syms);
    let phones: Vec<String> = vec!["k".into(), "x".into()];
    assert_eq!(table.phones_to_ids(&phones), Err(gpt_sovits::TtsError::UnknownSymbol));
}

#[test]
fn concat_audio_joins_chunks_in_order() {
    let parts = vec![
        AudioTensor::new(vec![1, 2]),
        AudioTensor::new(vec![]),
        AudioTensor::new(vec![3, 4, 5]),
    ];
    let joined = concat_audio(&parts);
    assert_eq!(joined.samples, vec![1, 2, 3, 4, 5]);
    assert_eq!(joined.len(), 5);
}
