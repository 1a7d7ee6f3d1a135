use kr::glob::{glob_matches, glob_parts, glob_uris};
use kr::output::file_targets;
use kr::registry::{Registry, RegistryError};
use kr::report::glob_added_message;
use kr::decimal::NumberError;
use kr::uri::UriError;

fn names(v: &[&str]) -> Vec<String> {
    v.iter().map(|n| n.to_string()).collect()
}

#[test]
fn star_and_question_mark_match_file_names() {
    assert!(glob_matches("*.rs", "main.rs"));
    assert!(glob_matches("*.rs", ".rs") == false);
    assert!(glob_matches("*.rs", "main.rsx") == false);
    assert!(glob_matches("glob-?-a.rs", "glob-7-a.rs"));
    assert!(!glob_matches("glob-?-a.rs", "glob-17-a.rs"));
    assert!(glob_matches("a*b*c", "aXXbYYc"));
    assert!(glob_matches("a*b*c", "abc"));
    assert!(!glob_matches("a*b*c", "acb"));
    assert!(glob_matches("*", "anything"));
    assert!(glob_matches("**", ""));
    assert!(!glob_matches("?", ""));
}

#[test]
fn hidden_files_need_a_leading_dot_in_the_pattern() {
    assert!(!glob_matches("*", ".hidden"));
    assert!(!glob_matches("?hidden", ".hidden"));
    assert!(glob_matches(".*", ".hidden"));
    assert!(glob_matches(".h*", ".hidden"));
}

#[test]
fn pattern_arguments_are_cut_at_their_last_slash() {
    assert_eq!(glob_parts("/tmp/kr/*.rs"), Some(("/tmp/kr/".to_string(), "*.rs".to_string())));
    assert_eq!(glob_parts("src/glob-?.rs"), Some(("src/".to_string(), "glob-?.rs".to_string())));
    assert_eq!(glob_parts("*.md"), Some(("".to_string(), "*.md".to_string())));
    assert_eq!(glob_parts("/*"), Some(("/".to_string(), "*".to_string())));
}

#[test]
fn uris_and_plain_paths_are_no_patterns() {
    assert_eq!(glob_parts("file:///tmp/*.rs"), None);
    assert_eq!(glob_parts("https://example.com/a?b"), None);
    assert_eq!(glob_parts("/tmp/kr/main.rs"), None);
    assert_eq!(glob_parts("/tmp/*/main.rs"), None);
    assert_eq!(glob_parts("/tmp/*/*.rs"), None);
}

#[test]
fn glob_uris_keep_matching_names_in_order() {
    let out = glob_uris("/tmp/kr", "*.rs", &names(&["a.rs", "b.txt", ".c.rs", "d.rs"]));
    assert_eq!(out, names(&["file:///tmp/kr/a.rs", "file:///tmp/kr/d.rs"]));
    let root = glob_uris("/", "x?", &names(&["xy", "x", "xyz"]));
    assert_eq!(root, names(&["file:///xy"]));
    assert!(glob_uris("/tmp", "*.rs", &names(&[])).is_empty());
}

#[test]
fn glob_sources_are_stored_relative_to_the_registry_parent() {
    let mut r = Registry::new("globbed".to_string(), "2025-06-23T10:00:00+00:00".to_string());
    r.add_source_at("https://example.com".to_string(), None, vec![], "t".to_string()).unwrap();
    let uris = glob_uris("/home/u/src", "*.rs", &names(&["a.rs", "b.rs", "notes.md"]));
    let label = Some("globbed".to_string());
    let tags = names(&["core"]);
    assert_eq!(r.add_sources(&uris, "/home/u", &label, &tags), Ok(2));
    assert_eq!(r.sources.len(), 3);
    assert_eq!(r.sources[0].uri, "https://example.com");
    assert_eq!(r.sources[1].uri, "./src/a.rs");
    assert_eq!(r.sources[2].uri, "./src/b.rs");
    for s in &r.sources[1..] {
        assert!(!s.uri.contains("file://"));
        assert_eq!(s.label, label);
        assert_eq!(s.tags, tags);
        assert!(s.added.len() >= 25);
        assert_eq!(&s.added[4..5], "-");
    }
    let (targets, err) = file_targets(&r, "/home/u", &vec![]);
    assert_eq!(err, None);
    assert_eq!(targets[0].path, "/home/u/src/a.rs");
    assert_eq!(targets[1].path, "/home/u/src/b.rs");
}

#[test]
fn a_bad_uri_among_glob_sources_adds_none() {
    let mut r = Registry::new("globbed".to_string(), "2025-06-23T10:00:00+00:00".to_string());
    let uris = names(&["file:///a.rs", "file:///b.rs#Lx", "file:///c.rs#Ly-L1"]);
    assert_eq!(
        r.add_sources(&uris, "/", &None, &vec![]),
        Err(RegistryError::InvalidUri(UriError::SingleLine(NumberError::InvalidDigit)))
    );
    assert!(r.sources.is_empty());
}

#[test]
fn no_match_adds_nothing() {
    let mut r = Registry::new("globbed".to_string(), "2025-06-23T10:00:00+00:00".to_string());
    let uris = glob_uris("/tmp", "*.zz", &names(&["a.rs"]));
    assert_eq!(r.add_sources(&uris, "/", &None, &vec![]), Ok(0));
    assert!(r.sources.is_empty());
}

#[test]
fn glob_message_counts_the_sources() {
    assert_eq!(glob_added_message(2), "✓ Added 2 sources from glob");
    assert_eq!(glob_added_message(0), "✓ Added 0 sources from glob");
}

#[test]
fn names_holding_a_hash_are_left_out() {
    let out = glob_uris("/d", "*.rs", &names(&["x#y.rs", "a#L1x.rs", "ok.rs"]));
    assert_eq!(out, names(&["file:///d/ok.rs"]));
}
