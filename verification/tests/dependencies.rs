use sup_presence::console::{answer_of, confirms, decorate, header, interpret_answer, Answer, MessageKind};
use sup_presence::decimal::decimal_string;
use sup_presence::documents::{read_json, read_toml, DocumentError};
use sup_presence::manifest::{find_in, join_lines, split_lines, update_dependency_text};
use sup_presence::text::{chars_of, text_of, text_of_range};
use sup_presence::tree::{MetadataTree, Scalar};
use sup_presence::versions::{
    after_report, compare_versions, crate_url, dependencies_in, extract_version_from_dep,
    find_cargo_toml_files, manifest_candidates, newest_version_in,
    parse_dependencies_from_cargo_toml, pause_after_status, read_latest_version, status_of,
    summarize, DependencyInfo, DependencyStatus, NextStep, Summary,
};

fn text(s: &str) -> MetadataTree {
    MetadataTree::Scalar(Scalar::Text(s.to_string()))
}

fn mapping(entries: Vec<(&str, MetadataTree)>) -> MetadataTree {
    MetadataTree::Mapping(entries.into_iter().map(|(k, v)| (k.to_string(), v)).collect())
}

fn dep(name: &str, current: &str, newest: Option<&str>) -> DependencyInfo {
    DependencyInfo {
        name: name.to_string(),
        current_version: current.to_string(),
        newest_version: newest.map(|n| n.to_string()),
        file_path: "Cargo.toml".to_string(),
    }
}

fn chars(s: &str) -> Vec<char> {
    s.chars().collect()
}

#[test]
fn versions_differ_when_their_texts_differ() {
    assert!(compare_versions("1.0.0", "1.0.1"));
    assert!(!compare_versions("1.0.0", "1.0.0"));
    assert!(compare_versions("1.0", "1.0.0"));
    assert!(compare_versions("2.0.0", "1.0.0"));
    assert!(!compare_versions("", ""));
}

#[test]
fn manifests_are_looked_for_in_four_places() {
    assert_eq!(
        manifest_candidates(),
        vec![
            "../../sup_discord_app/src-tauri/Cargo.toml".to_string(),
            "../../vendors/sup_drpc/Cargo.toml".to_string(),
            "../../vendors/sup_mtracker/Cargo.toml".to_string(),
            "../../vendors/sup_common/Cargo.toml".to_string(),
        ]
    );
}

#[test]
fn only_manifests_that_are_present_are_found() {
    assert_eq!(find_cargo_toml_files(&vec![true, true, true, true]), manifest_candidates());
    assert_eq!(find_cargo_toml_files(&vec![false, false, false, false]), Vec::<String>::new());
    assert_eq!(
        find_cargo_toml_files(&vec![false, true, false, true]),
        vec![
            "../../vendors/sup_drpc/Cargo.toml".to_string(),
            "../../vendors/sup_common/Cargo.toml".to_string(),
        ]
    );
    assert_eq!(
        find_cargo_toml_files(&vec![true]),
        vec!["../../sup_discord_app/src-tauri/Cargo.toml".to_string()]
    );
    assert_eq!(find_cargo_toml_files(&Vec::new()), Vec::<String>::new());
    assert_eq!(find_cargo_toml_files(&vec![false, false, false, false, true]), Vec::<String>::new());
}

#[test]
fn the_version_of_a_dependency() {
    assert_eq!(extract_version_from_dep(&text("1.2.3")), Some("1.2.3".to_string()));
    let table = mapping(vec![
        ("features", MetadataTree::Sequence(vec![text("derive")])),
        ("version", text("4.5")),
    ]);
    assert_eq!(extract_version_from_dep(&table), Some("4.5".to_string()));
    assert_eq!(extract_version_from_dep(&mapping(vec![("path", text("../x"))])), None);
    let odd = mapping(vec![("version", MetadataTree::Scalar(Scalar::Number("1".to_string())))]);
    assert_eq!(extract_version_from_dep(&odd), None);
    assert_eq!(extract_version_from_dep(&MetadataTree::Scalar(Scalar::Bool(true))), None);
    assert_eq!(extract_version_from_dep(&MetadataTree::Sequence(vec![text("1")])), None);
}

#[test]
fn reads_a_toml_document() {
    let document = read_toml("a = \"x\"\nb = 2\nc = true\n[t]\nk = [1, 2]\n").unwrap();
    assert_eq!(
        document,
        mapping(vec![
            ("a", text("x")),
            ("b", MetadataTree::Scalar(Scalar::Number("2".to_string()))),
            ("c", MetadataTree::Scalar(Scalar::Bool(true))),
            (
                "t",
                mapping(vec![(
                    "k",
                    MetadataTree::Sequence(vec![
                        MetadataTree::Scalar(Scalar::Number("1".to_string())),
                        MetadataTree::Scalar(Scalar::Number("2".to_string())),
                    ])
                )])
            ),
        ])
    );
    assert!(matches!(read_toml("a = "), Err(DocumentError::InvalidToml(_))));
}

#[test]
fn reads_a_json_document() {
    let document = read_json("{\"a\": [1, \"x\", null, false], \"b\": {\"c\": 1.5}}").unwrap();
    assert_eq!(
        document,
        mapping(vec![
            (
                "a",
                MetadataTree::Sequence(vec![
                    MetadataTree::Scalar(Scalar::Number("1".to_string())),
                    text("x"),
                    MetadataTree::Scalar(Scalar::Null),
                    MetadataTree::Scalar(Scalar::Bool(false)),
                ])
            ),
            ("b", mapping(vec![("c", MetadataTree::Scalar(Scalar::Number("1.5".to_string())))])),
        ])
    );
    assert!(matches!(read_json("{\"a\": "), Err(DocumentError::InvalidJson(_))));
    assert!(matches!(read_json(""), Err(DocumentError::InvalidJson(_))));
}

#[test]
fn dependencies_of_a_manifest() {
    let content = "[package]\nname = \"demo\"\nversion = \"0.1.0\"\n\n[dependencies]\ntoml = \"0.8\"\nserde = { version = \"1.0\", features = [\"derive\"] }\nlocal = { path = \"../local\" }\nclap = { version = \"4\" }\n\n[dev-dependencies]\nrand = \"0.8\"\n";
    let deps = parse_dependencies_from_cargo_toml(content, "demo/Cargo.toml").unwrap();
    let expected: Vec<DependencyInfo> = [("clap", "4"), ("serde", "1.0"), ("toml", "0.8")]
        .iter()
        .map(|(name, version)| DependencyInfo {
            name: name.to_string(),
            current_version: version.to_string(),
            newest_version: None,
            file_path: "demo/Cargo.toml".to_string(),
        })
        .collect();
    assert_eq!(deps, expected);
}

#[test]
fn a_manifest_without_dependencies_has_none() {
    assert_eq!(
        parse_dependencies_from_cargo_toml("[package]\nname = \"demo\"\n", "Cargo.toml"),
        Ok(Vec::new())
    );
    assert_eq!(parse_dependencies_from_cargo_toml("dependencies = 3\n", "Cargo.toml"), Ok(Vec::new()));
    assert_eq!(parse_dependencies_from_cargo_toml("", "Cargo.toml"), Ok(Vec::new()));
    assert_eq!(dependencies_in(&text("x"), "Cargo.toml"), Vec::new());
}

#[test]
fn a_broken_manifest_is_an_error() {
    let outcome = parse_dependencies_from_cargo_toml("[dependencies\n", "Cargo.toml");
    assert!(matches!(outcome, Err(DocumentError::InvalidToml(_))));
}

#[test]
fn the_newest_version_of_an_answer() {
    let nested = mapping(vec![("crate", mapping(vec![("newest_version", text("1.2.3"))]))]);
    assert_eq!(newest_version_in(&nested), Some("1.2.3".to_string()));
    let flat = mapping(vec![("newest_version", text("2.0.0"))]);
    assert_eq!(newest_version_in(&flat), Some("2.0.0".to_string()));
    let both = mapping(vec![
        ("crate", mapping(vec![("newest_version", text("1.2.3"))])),
        ("newest_version", text("2.0.0")),
    ]);
    assert_eq!(newest_version_in(&both), Some("1.2.3".to_string()));
    let null_inside = mapping(vec![
        ("crate", mapping(vec![("newest_version", MetadataTree::Scalar(Scalar::Null))])),
        ("newest_version", text("2.0.0")),
    ]);
    assert_eq!(newest_version_in(&null_inside), Some("2.0.0".to_string()));
    assert_eq!(newest_version_in(&mapping(vec![("crate", text("x"))])), None);
    assert_eq!(newest_version_in(&text("1.0.0")), None);
}

#[test]
fn the_newest_version_of_a_body() {
    assert_eq!(
        read_latest_version("{\"crate\": {\"id\": \"serde\", \"newest_version\": \"1.0.229\"}}"),
        Ok(Some("1.0.229".to_string()))
    );
    assert_eq!(read_latest_version("{\"errors\": []}"), Ok(None));
    assert!(matches!(read_latest_version("<html>"), Err(DocumentError::InvalidJson(_))));
}

#[test]
fn where_the_registry_is_asked() {
    assert_eq!(crate_url("serde"), "https://crates.io/api/v1/crates/serde");
    assert_eq!(crate_url(""), "https://crates.io/api/v1/crates/");
}

#[test]
fn only_too_many_requests_pause() {
    assert_eq!(pause_after_status(429), 500);
    assert_eq!(pause_after_status(404), 0);
    assert_eq!(pause_after_status(500), 0);
}

#[test]
fn where_a_dependency_stands() {
    assert_eq!(status_of(&dep("a", "1.0", Some("1.0"))), DependencyStatus::UpToDate);
    assert_eq!(status_of(&dep("a", "1.0", Some("1.1"))), DependencyStatus::UpdateAvailable);
    assert_eq!(status_of(&dep("a", "1.1", Some("1.0"))), DependencyStatus::UpdateAvailable);
    assert_eq!(status_of(&dep("a", "1.0", None)), DependencyStatus::NotFound);
}

#[test]
fn a_summary_counts_every_dependency_once() {
    let deps = vec![
        dep("a", "1", Some("1")),
        dep("b", "1", Some("2")),
        dep("c", "1", None),
        dep("d", "3", Some("4")),
        dep("e", "5", Some("5")),
        dep("f", "5", None),
        dep("g", "5", Some("6")),
    ];
    assert_eq!(summarize(&deps), Summary { up_to_date: 2, updates: vec![1, 3, 6], not_found: 2 });
    assert_eq!(
        summarize(&Vec::new()),
        Summary { up_to_date: 0, updates: Vec::new(), not_found: 0 }
    );
}

#[test]
fn what_follows_a_report() {
    assert_eq!(after_report(0, false), NextStep::AllUpToDate);
    assert_eq!(after_report(0, true), NextStep::AllUpToDate);
    assert_eq!(after_report(2, false), NextStep::SuggestUpdate);
    assert_eq!(after_report(2, true), NextStep::ApplyUpdates);
}

#[test]
fn a_version_is_replaced_in_its_line() {
    let content = "[dependencies]\nserde = { version = \"1.0.0\", features = [\"derive\"] }\ntoml = \"0.8\"\n";
    assert_eq!(
        update_dependency_text(content, "serde", "1.0.229"),
        "[dependencies]\nserde = { version = \"1.0.229\", features = [\"derive\"] }\ntoml = \"0.8\""
    );
}

#[test]
fn only_the_first_fitting_line_is_changed() {
    let content = "a = { version = \"1\" }\na = { version = \"1\" }";
    assert_eq!(
        update_dependency_text(content, "a", "22"),
        "a = { version = \"22\" }\na = { version = \"1\" }"
    );
}

#[test]
fn a_line_without_a_quoted_version_stays() {
    let content = "[dependencies]\ntoml = \"0.8\"\nserde = { version = \"1";
    assert_eq!(update_dependency_text(content, "toml", "0.9"), content);
    assert_eq!(update_dependency_text(content, "serde", "2"), content);
    assert_eq!(update_dependency_text(content, "absent", "2"), content);
}

#[test]
fn the_name_may_stand_anywhere_in_the_line() {
    let content = "version = \"0.1.0\" # demo = yes";
    assert_eq!(update_dependency_text(content, "demo", "9"), "version = \"9\" # demo = yes");
    let longer = "my-serde = { version = \"1\" }";
    assert_eq!(update_dependency_text(longer, "serde", "2"), "my-serde = { version = \"2\" }");
}

#[test]
fn line_endings_are_made_line_feeds() {
    assert_eq!(update_dependency_text("a\r\nb\r\n", "x", "1"), "a\nb");
    assert_eq!(update_dependency_text("a\n\nb\n\n", "x", "1"), "a\n\nb\n");
    assert_eq!(update_dependency_text("", "x", "1"), "");
    assert_eq!(update_dependency_text("\n", "x", "1"), "");
    assert_eq!(update_dependency_text("a\rb\r", "x", "1"), "a\rb\r");
    assert_eq!(
        update_dependency_text("é = { version = \"1\" }\r\n", "é", "2"),
        "é = { version = \"2\" }"
    );
}

#[test]
fn lines_are_split_as_the_standard_library_does() {
    for sample in ["", "\n", "a", "a\n", "a\nb", "a\r\nb\r\n", "\r\n\r\n", "a\r", "a\r\r\n", "\n\na"] {
        let expected: Vec<Vec<char>> = sample.lines().map(|l| l.chars().collect()).collect();
        assert_eq!(split_lines(&chars(sample)), expected, "lines of {:?}", sample);
    }
}

#[test]
fn lines_are_joined_with_line_feeds() {
    assert_eq!(join_lines(&vec![chars("a"), chars(""), chars("b")]), chars("a\n\nb"));
    assert_eq!(join_lines(&vec![chars("a")]), chars("a"));
    assert_eq!(join_lines(&Vec::new()), chars(""));
}

#[test]
fn finds_the_first_occurrence() {
    assert_eq!(find_in(&chars("abcabc"), &chars("bc"), 0), Some(1));
    assert_eq!(find_in(&chars("abcabc"), &chars("bc"), 2), Some(4));
    assert_eq!(find_in(&chars("abcabc"), &chars("bc"), 5), None);
    assert_eq!(find_in(&chars("abc"), &chars(""), 0), Some(0));
    assert_eq!(find_in(&chars("abc"), &chars(""), 3), Some(3));
    assert_eq!(find_in(&chars("abc"), &chars(""), 4), None);
    assert_eq!(find_in(&chars("ab"), &chars("abc"), 0), None);
    assert_eq!(find_in(&chars("aab"), &chars("ab"), 0), Some(1));
}

#[test]
fn messages_are_marked() {
    assert_eq!(decorate(MessageKind::Success, "done", false), "✅ done");
    assert_eq!(decorate(MessageKind::Success, "done", true), "SUCCESS: done");
    assert_eq!(decorate(MessageKind::Info, "note", false), "ℹ️  note");
    assert_eq!(decorate(MessageKind::Info, "note", true), "INFO: note");
    assert_eq!(decorate(MessageKind::Warning, "careful", false), "⚠️  careful");
    assert_eq!(decorate(MessageKind::Warning, "careful", true), "WARNING: careful");
    assert_eq!(decorate(MessageKind::Error, "bad", false), "❌ bad");
    assert_eq!(decorate(MessageKind::Error, "bad", true), "ERROR: bad");
    assert_eq!(decorate(MessageKind::Update, "a: 1 → 2", false), "🔄 a: 1 → 2");
    assert_eq!(decorate(MessageKind::Update, "a", true), "UPDATE: a");
    assert_eq!(decorate(MessageKind::Question, "sure ?", false), "❓ sure ?");
    assert_eq!(decorate(MessageKind::Question, "sure ?", true), "QUESTION: sure ?");
}

#[test]
fn headers_are_ruled() {
    assert_eq!(header("Title", false), format!("\n🚀 Title\n{}", "=".repeat(80)));
    assert_eq!(header("Title", true), format!("\nHEADER: Title\n{}", "=".repeat(80)));
}

#[test]
fn answers_that_are_already_normal() {
    for yes in ["y", "yes", "oui"] {
        assert_eq!(answer_of(yes), Answer::Yes);
    }
    for all in ["a", "all", "tout"] {
        assert_eq!(answer_of(all), Answer::All);
    }
    for no in ["", "n", "no", "non", "Y", " y", "yes!", "ja"] {
        assert_eq!(answer_of(no), Answer::No);
    }
}

#[test]
fn answers_are_trimmed_and_lowered() {
    assert_eq!(interpret_answer("  YES \n"), Answer::Yes);
    assert_eq!(interpret_answer("Oui\r\n"), Answer::Yes);
    assert_eq!(interpret_answer("\tAll"), Answer::All);
    assert_eq!(interpret_answer("TOUT\n"), Answer::All);
    assert_eq!(interpret_answer("\n"), Answer::No);
    assert_eq!(interpret_answer("y e s"), Answer::No);
}

#[test]
fn who_confirms() {
    assert!(confirms(true, Answer::No));
    assert!(confirms(false, Answer::Yes));
    assert!(confirms(false, Answer::All));
    assert!(!confirms(false, Answer::No));
}

#[test]
fn numbers_in_decimal() {
    assert_eq!(decimal_string(0), "0");
    assert_eq!(decimal_string(7), "7");
    assert_eq!(decimal_string(10), "10");
    assert_eq!(decimal_string(1234567890), "1234567890");
    assert_eq!(decimal_string(u64::MAX), "18446744073709551615");
}

#[test]
fn strings_and_characters() {
    assert_eq!(chars_of("héllo"), chars("héllo"));
    assert_eq!(text_of(&chars("héllo")), "héllo");
    assert_eq!(text_of_range(&chars("héllo"), 1, 3), "él");
    assert_eq!(text_of_range(&chars("héllo"), 2, 2), "");
}
