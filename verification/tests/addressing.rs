use sup_presence::path::{is_well_formed_path, parse_path, resolve, resolve_segments, PathError, Segment};
use sup_presence::tree::{MetadataTree, Scalar};

fn text(s: &str) -> MetadataTree {
    MetadataTree::Scalar(Scalar::Text(s.to_string()))
}

fn number(s: &str) -> MetadataTree {
    MetadataTree::Scalar(Scalar::Number(s.to_string()))
}

fn mapping(entries: Vec<(&str, MetadataTree)>) -> MetadataTree {
    MetadataTree::Mapping(entries.into_iter().map(|(k, v)| (k.to_string(), v)).collect())
}

fn sample() -> MetadataTree {
    mapping(vec![
        ("name", text("editor")),
        ("pid", number("4242")),
        ("visible", MetadataTree::Scalar(Scalar::Bool(true))),
        (
            "windows",
            MetadataTree::Sequence(vec![
                mapping(vec![("class_name", text("A")), ("window_title", text("Foo"))]),
                mapping(vec![
                    ("class_name", text("WinUIDesktopWin32WindowClass")),
                    ("window_title", text("Bar")),
                ]),
            ]),
        ),
        ("7", text("seven")),
        ("", text("nameless")),
    ])
}

#[test]
fn resolves_a_key() {
    let tree = sample();
    assert_eq!(resolve(&tree, "name"), Ok(&text("editor")));
    assert_eq!(resolve(&tree, "pid"), Ok(&number("4242")));
}

#[test]
fn resolves_through_sequences_and_mappings() {
    let tree = sample();
    assert_eq!(resolve(&tree, "windows.1.window_title"), Ok(&text("Bar")));
    assert_eq!(resolve(&tree, "windows.0.class_name"), Ok(&text("A")));
}

#[test]
fn resolves_to_the_exact_subtree() {
    let tree = sample();
    let expected = mapping(vec![("class_name", text("A")), ("window_title", text("Foo"))]);
    assert_eq!(resolve(&tree, "windows.0"), Ok(&expected));
}

#[test]
fn leading_zeros_are_still_an_index() {
    let tree = sample();
    assert_eq!(resolve(&tree, "windows.001.window_title"), Ok(&text("Bar")));
}

#[test]
fn missing_key_is_not_found() {
    let tree = sample();
    assert_eq!(resolve(&tree, "title"), Err(PathError::NotFound));
    assert_eq!(resolve(&tree, "windows.0.height"), Err(PathError::NotFound));
}

#[test]
fn index_past_the_end_is_out_of_range() {
    let tree = sample();
    assert_eq!(resolve(&tree, "windows.2"), Err(PathError::IndexOutOfRange));
    assert_eq!(resolve(&tree, "windows.2.window_title"), Err(PathError::IndexOutOfRange));
}

#[test]
fn wrong_kind_of_segment_is_a_mismatch() {
    let tree = sample();
    assert_eq!(resolve(&tree, "windows.first"), Err(PathError::TypeMismatch));
    assert_eq!(resolve(&tree, "name.0"), Err(PathError::TypeMismatch));
    assert_eq!(resolve(&tree, "name.length"), Err(PathError::TypeMismatch));
}

#[test]
fn an_index_on_a_mapping_is_a_mismatch_even_where_the_key_exists() {
    let tree = sample();
    assert_eq!(resolve(&tree, "7"), Err(PathError::TypeMismatch));
}

#[test]
fn the_first_failing_segment_decides() {
    let tree = sample();
    assert_eq!(resolve(&tree, "nothing.0.name"), Err(PathError::NotFound));
    assert_eq!(resolve(&tree, "windows.9.nothing.name"), Err(PathError::IndexOutOfRange));
}

#[test]
fn the_empty_path_is_one_empty_key() {
    let tree = sample();
    assert_eq!(resolve(&tree, ""), Ok(&text("nameless")));
    assert_eq!(resolve(&text("x"), ""), Err(PathError::TypeMismatch));
}

#[test]
fn digits_too_large_for_64_bits_are_a_key() {
    let tree = mapping(vec![("18446744073709551616", text("big"))]);
    assert_eq!(resolve(&tree, "18446744073709551616"), Ok(&text("big")));
    assert_eq!(resolve(&tree, "18446744073709551615"), Err(PathError::TypeMismatch));
}

#[test]
fn parses_segments() {
    assert_eq!(
        parse_path("windows.3.class_name"),
        vec![
            Segment::Key("windows".to_string()),
            Segment::Index(3),
            Segment::Key("class_name".to_string()),
        ]
    );
    assert_eq!(parse_path(""), vec![Segment::Key(String::new())]);
    assert_eq!(
        parse_path("a..b."),
        vec![
            Segment::Key("a".to_string()),
            Segment::Key(String::new()),
            Segment::Key("b".to_string()),
            Segment::Key(String::new()),
        ]
    );
    assert_eq!(parse_path("+1"), vec![Segment::Key("+1".to_string())]);
    assert_eq!(parse_path("-1"), vec![Segment::Key("-1".to_string())]);
    assert_eq!(parse_path("1e3"), vec![Segment::Key("1e3".to_string())]);
    assert_eq!(parse_path("18446744073709551615"), vec![Segment::Index(u64::MAX)]);
    assert_eq!(
        parse_path("18446744073709551616"),
        vec![Segment::Key("18446744073709551616".to_string())]
    );
    assert_eq!(parse_path("0042"), vec![Segment::Index(42)]);
}

#[test]
fn keys_may_hold_any_character_but_a_dot() {
    let tree = mapping(vec![("clé é", text("v"))]);
    assert_eq!(resolve(&tree, "clé é"), Ok(&text("v")));
}

#[test]
fn resolving_twice_gives_the_same() {
    let tree = sample();
    for path in ["windows.1.window_title", "windows.5", "name.x", "absent"] {
        assert_eq!(resolve(&tree, path), resolve(&tree, path));
    }
}

#[test]
fn a_joined_path_is_two_walks() {
    let tree = sample();
    let first = resolve(&tree, "windows.1").unwrap();
    assert_eq!(resolve(first, "window_title"), resolve(&tree, "windows.1.window_title"));
}

#[test]
fn no_segments_address_the_tree_itself() {
    let tree = sample();
    assert_eq!(resolve_segments(&tree, &Vec::new()), Ok(&tree));
}

#[test]
fn the_first_entry_with_a_key_is_taken() {
    let tree = mapping(vec![("k", text("first")), ("k", text("second"))]);
    assert_eq!(resolve(&tree, "k"), Ok(&text("first")));
}

#[test]
fn well_formed_paths() {
    assert!(is_well_formed_path("windows"));
    assert!(is_well_formed_path("windows.3.class_name"));
    assert!(!is_well_formed_path(""));
    assert!(!is_well_formed_path(".a"));
    assert!(!is_well_formed_path("a."));
    assert!(!is_well_formed_path("a..b"));
}

#[test]
fn scalar_texts() {
    assert_eq!(text("abc").to_text(), Some("abc".to_string()));
    assert_eq!(number("1.5").to_text(), Some("1.5".to_string()));
    assert_eq!(MetadataTree::Scalar(Scalar::Bool(true)).to_text(), Some("true".to_string()));
    assert_eq!(MetadataTree::Scalar(Scalar::Bool(false)).to_text(), Some("false".to_string()));
    assert_eq!(MetadataTree::Scalar(Scalar::Null).to_text(), Some("null".to_string()));
    assert_eq!(MetadataTree::Sequence(Vec::new()).to_text(), None);
    assert!(MetadataTree::Scalar(Scalar::Bool(true)).has_text("true"));
    assert!(!MetadataTree::Scalar(Scalar::Bool(true)).has_text("True"));
    assert!(!MetadataTree::Mapping(Vec::new()).has_text(""));
}
