use opcode_docs::categories::{snippet_types_from_json, SnippetTypes};
use opcode_docs::error::DocError;
use opcode_docs::index::{build_index, index_document, IndexedDocumentation};
use opcode_docs::line::{is_description_end, is_description_start, parse_alias};
use opcode_docs::parser::{Block, DocParser};

fn lines(ls: &[&str]) -> Vec<String> {
    ls.iter().map(|l| l.to_string()).collect()
}

fn types(json: &str) -> SnippetTypes {
    snippet_types_from_json(json).unwrap()
}

fn doc_of(idx: &IndexedDocumentation, k: &str) -> Option<(String, String)> {
    idx.keys_to_doc()
        .get(&k.to_string())
        .map(|i| (i.documentation.clone(), i.snippet_type.clone()))
}

fn alias_of(idx: &IndexedDocumentation, k: &str) -> Option<String> {
    idx.keys_with_shared_doc().get(&k.to_string()).cloned()
}

const TYPES: &str = r#"{"implied": ["C", "NOP", "X"], "branch": ["BRA", "Y"]}"#;

#[test]
fn three_aliases_share_last() {
    let idx = build_index(TYPES, &lines(&["{A}", "{B}", "{C}", "{:}", "hello", "{.}"])).unwrap();
    assert_eq!(doc_of(&idx, "C"), Some(("hello\n".to_string(), "implied".to_string())));
    assert_eq!(idx.keys_to_doc().entries().len(), 1);
    assert_eq!(idx.keys_with_shared_doc().entries().len(), 2);
    assert_eq!(alias_of(&idx, "A"), Some("C".to_string()));
    assert_eq!(alias_of(&idx, "B"), Some("C".to_string()));
    assert_eq!(alias_of(&idx, "C"), None);
    assert!(doc_of(&idx, "A").is_none());
}

#[test]
fn description_without_opcodes_fails() {
    let r = build_index(TYPES, &lines(&["{:}", "text", "{.}"]));
    assert_eq!(r.err(), Some(DocError::MissingOpcodes));
}

#[test]
fn description_without_opcodes_after_a_block_fails() {
    let r = build_index(TYPES, &lines(&["{NOP}", "{:}", "a", "{.}", "{:}", "b", "{.}"]));
    assert_eq!(r.err(), Some(DocError::MissingOpcodes));
}

#[test]
fn missing_snippet_type_fails() {
    let r = build_index(TYPES, &lines(&["{A}", "{ZZZ}", "{:}", "x", "{.}"]));
    assert_eq!(r.err(), Some(DocError::MissingSnippetType("ZZZ".to_string())));
}

#[test]
fn first_defect_in_line_order_is_reported() {
    let r = build_index(TYPES, &lines(&["{ZZZ}", "{:}", "x", "{.}", "{:}", "y", "{.}"]));
    assert_eq!(r.err(), Some(DocError::MissingSnippetType("ZZZ".to_string())));
}

#[test]
fn alias_of_missing_type_does_not_matter() {
    let idx = build_index(TYPES, &lines(&["{unknown}", "{NOP}", "{:}", "x", "{.}"])).unwrap();
    assert_eq!(alias_of(&idx, "unknown"), Some("NOP".to_string()));
}

#[test]
fn invalid_category_json_fails() {
    assert_eq!(build_index("not json", &lines(&[])).err(), Some(DocError::InvalidCategories));
    assert_eq!(build_index(r#"{"a": [1]}"#, &lines(&[])).err(), Some(DocError::InvalidCategories));
    assert_eq!(build_index(r#"["a"]"#, &lines(&[])).err(), Some(DocError::InvalidCategories));
}

#[test]
fn multi_line_documentation_keeps_line_breaks() {
    let idx = build_index(TYPES, &lines(&["{X}", "{:}", "one", "", "  two", "{:}", "{.}"])).unwrap();
    assert_eq!(doc_of(&idx, "X").unwrap().0, "one\n\n  two\n{:}\n");
}

#[test]
fn documentation_does_not_depend_on_alias_count() {
    let one = build_index(TYPES, &lines(&["{X}", "{:}", "a", "b", "{.}"])).unwrap();
    let three = build_index(TYPES, &lines(&["{P}", "{Q}", "{X}", "{:}", "a", "b", "{.}"])).unwrap();
    assert_eq!(doc_of(&one, "X"), doc_of(&three, "X"));
    assert_eq!(doc_of(&one, "X").unwrap().0, "a\nb\n");
}

#[test]
fn empty_description_is_empty_text() {
    let idx = build_index(TYPES, &lines(&["{NOP}", "{:}", "{.}"])).unwrap();
    assert_eq!(doc_of(&idx, "NOP").unwrap().0, "");
}

#[test]
fn blank_and_stray_lines_between_blocks_change_nothing() {
    let plain = build_index(
        TYPES,
        &lines(&["{A}", "{C}", "{:}", "c", "{.}", "{BRA}", "{:}", "b", "{.}"]),
    )
    .unwrap();
    let noisy = build_index(
        TYPES,
        &lines(&[
            "", "# heading", "{A}", "", "{C", "{C}", "{:}", "c", "{.}", "", "C}", "{BRA}", "{:}",
            "b", "{.}", "", "trailing",
        ]),
    )
    .unwrap();
    for k in ["A", "C", "BRA"] {
        assert_eq!(doc_of(&plain, k), doc_of(&noisy, k));
        assert_eq!(alias_of(&plain, k), alias_of(&noisy, k));
    }
    assert_eq!(noisy.keys_to_doc().entries().len(), 2);
    assert_eq!(noisy.keys_with_shared_doc().entries().len(), 1);
}

#[test]
fn rerun_gives_same_maps() {
    let doc = lines(&["{A}", "{C}", "{:}", "c", "{.}", "{Y}", "{:}", "y", "{.}"]);
    let r1 = build_index(TYPES, &doc).unwrap();
    let r2 = build_index(TYPES, &doc).unwrap();
    for k in ["A", "C", "Y", "Q"] {
        assert_eq!(doc_of(&r1, k), doc_of(&r2, k));
        assert_eq!(alias_of(&r1, k), alias_of(&r2, k));
    }
}

#[test]
fn well_formed_document_indexes_each_keyword_once() {
    let idx = build_index(
        TYPES,
        &lines(&["{A}", "{B}", "{C}", "{:}", "c", "{.}", "{Y}", "{:}", "y", "{.}", "{Q}", "{BRA}", "{:}", "b", "{.}"]),
    )
    .unwrap();
    for k in ["A", "B", "C", "Y", "Q", "BRA"] {
        let in_docs = doc_of(&idx, k).is_some();
        let in_aliases = alias_of(&idx, k).is_some();
        assert!(in_docs != in_aliases, "{k}");
    }
    for (_, target) in idx.keys_with_shared_doc().entries() {
        assert!(doc_of(&idx, target).is_some());
    }
}

#[test]
fn duplicate_canonical_keyword_last_block_wins() {
    let idx = build_index(TYPES, &lines(&["{C}", "{:}", "first", "{.}", "{C}", "{:}", "second", "{.}"])).unwrap();
    assert_eq!(doc_of(&idx, "C").unwrap().0, "second\n");
    assert_eq!(idx.keys_to_doc().entries().len(), 1);
}

#[test]
fn open_block_at_end_is_not_indexed() {
    let idx = build_index(TYPES, &lines(&["{C}", "{:}", "c", "{.}", "{NOP}", "{:}", "unfinished"])).unwrap();
    assert!(doc_of(&idx, "NOP").is_none());
    let idx = build_index(TYPES, &lines(&["{C}", "{:}", "c", "{.}", "{NOP}"])).unwrap();
    assert!(doc_of(&idx, "NOP").is_none());
    assert!(alias_of(&idx, "NOP").is_none());
}

#[test]
fn empty_document_gives_empty_maps() {
    let idx = build_index(TYPES, &lines(&[])).unwrap();
    assert_eq!(idx.keys_to_doc().entries().len(), 0);
    assert_eq!(idx.keys_with_shared_doc().entries().len(), 0);
}

#[test]
fn end_sentinel_among_aliases_is_an_alias() {
    let idx = build_index(r#"{"t": ["NOP"]}"#, &lines(&["{.}", "{NOP}", "{:}", "x", "{.}"])).unwrap();
    assert_eq!(alias_of(&idx, "."), Some("NOP".to_string()));
}

#[test]
fn index_document_with_prepared_types() {
    let t = types(TYPES);
    let idx = index_document(&lines(&["{NOP}", "{:}", "no operation", "{.}"]), &t).unwrap();
    assert_eq!(doc_of(&idx, "NOP"), Some(("no operation\n".to_string(), "implied".to_string())));
}

#[test]
fn snippet_types_are_inverted() {
    let t = types(TYPES);
    assert_eq!(t.get(&"NOP".to_string()), Some(&"implied".to_string()));
    assert_eq!(t.get(&"BRA".to_string()), Some(&"branch".to_string()));
    assert_eq!(t.get(&"implied".to_string()), None);
}

#[test]
fn keyword_in_two_categories_gets_the_later_name() {
    let t = types(r#"{"b": ["K"], "a": ["K"]}"#);
    assert_eq!(t.get(&"K".to_string()), Some(&"b".to_string()));
}

#[test]
fn line_classification() {
    assert!(is_description_start("{:}"));
    assert!(!is_description_start("{:} "));
    assert!(is_description_end("{.}"));
    assert!(!is_description_end("{:}"));
    assert_eq!(parse_alias("{LDA}"), Some("LDA".to_string()));
    assert_eq!(parse_alias("{}"), Some(String::new()));
    assert_eq!(parse_alias("{"), None);
    assert_eq!(parse_alias("{LDA"), None);
    assert_eq!(parse_alias(" {LDA}"), None);
    assert_eq!(parse_alias("{é}"), Some("é".to_string()));
}

#[test]
fn parser_feeds_blocks() {
    let mut p = DocParser::new();
    assert!(p.feed("{A}").unwrap().is_none());
    assert!(p.feed("{B}").unwrap().is_none());
    assert!(p.feed("{:}").unwrap().is_none());
    assert!(p.feed("text").unwrap().is_none());
    let b = p.feed("{.}").unwrap().unwrap();
    assert_eq!(b.aliases, vec!["A".to_string(), "B".to_string()]);
    assert_eq!(b.documentation, "text\n");
    assert!(p.feed("{:}").unwrap().is_none());
    assert!(p.feed("{.}").is_err());
}

#[test]
fn add_block_checks_its_block() {
    let t = types(TYPES);
    let mut idx = IndexedDocumentation::new();
    let empty = Block { aliases: vec![], documentation: "d\n".to_string() };
    assert_eq!(idx.add_block(empty, &t), Err(DocError::MissingOpcodes));
    let unknown = Block { aliases: vec!["Q".to_string()], documentation: "d\n".to_string() };
    assert_eq!(idx.add_block(unknown, &t), Err(DocError::MissingSnippetType("Q".to_string())));
    assert_eq!(idx.keys_to_doc().entries().len(), 0);
    let good = Block { aliases: vec!["Q".to_string(), "Y".to_string()], documentation: "d\n".to_string() };
    assert_eq!(idx.add_block(good, &t), Ok(()));
    assert_eq!(doc_of(&idx, "Y"), Some(("d\n".to_string(), "branch".to_string())));
    assert_eq!(alias_of(&idx, "Q"), Some("Y".to_string()));
}
