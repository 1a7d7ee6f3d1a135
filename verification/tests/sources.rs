use kr::output::{file_targets, FileTarget};
use kr::registry::{
    delete_path, delete_verdict, registry_path, select_by_tags, DeleteTarget, Registry, RegistryError,
};
use kr::report::{
    added_message, date_part, error_message, imported_message, registry_heading, registry_list,
    registry_row, registry_updated_message,
    removed_message, show_lines, source_list_lines, source_uri_error_message, updated_message,
};
use kr::decimal::NumberError;
use kr::uri::UriError;

fn reg(name: &str) -> Registry {
    Registry::new(name.to_string(), "2025-06-23T10:00:00+00:00".to_string())
}

fn add(r: &mut Registry, uri: &str, label: Option<&str>, tags: &[&str]) -> Result<usize, RegistryError> {
    r.add_source_at(
        uri.to_string(),
        label.map(|l| l.to_string()),
        tags.iter().map(|t| t.to_string()).collect(),
        "2025-06-23T10:05:00+00:00".to_string(),
    )
}

fn tags(v: &[&str]) -> Vec<String> {
    v.iter().map(|t| t.to_string()).collect()
}

// ── Registry names ────────────────────────────────────────────

#[test]
fn registry_name_with_spaces_works() {
    let name = "my reg with spaces-0";
    assert_eq!(
        registry_path("/home/u/.kr", name),
        "/home/u/.kr/my reg with spaces-0.json".to_string()
    );
}

#[test]
fn registry_name_with_hyphens_works() {
    assert_eq!(
        registry_path("/home/u/.kr", "my-reg-with-hyphens-1"),
        "/home/u/.kr/my-reg-with-hyphens-1.json".to_string()
    );
}

#[test]
fn registry_name_with_underscores_works() {
    assert_eq!(
        registry_path("/home/u/.kr/", "my_reg_with_underscores-2"),
        "/home/u/.kr/my_reg_with_underscores-2.json".to_string()
    );
}

#[test]
fn registry_path_in_empty_folder_is_the_file_name() {
    assert_eq!(registry_path("", "notes"), "notes.json".to_string());
}

#[test]
fn registry_delete_rejects_double_dot_in_name() {
    let err = delete_path("/home/u/.kr", "../etc/passwd").unwrap_err();
    assert_eq!(err, RegistryError::InvalidName);
    let msg = error_message(&err, "../etc/passwd").to_lowercase();
    assert!(msg.contains("invalid") || msg.contains("rejected"), "{}", msg);
}

#[test]
fn registry_delete_rejects_forward_slash_in_name() {
    let err = delete_path("/home/u/.kr", "foo/bar").unwrap_err();
    assert_eq!(err, RegistryError::InvalidName);
    let msg = error_message(&err, "foo/bar").to_lowercase();
    assert!(msg.contains("invalid") || msg.contains("rejected"), "{}", msg);
}

#[test]
fn registry_delete_rejects_backslash_in_name() {
    let err = delete_path("/home/u/.kr", r"foo\bar").unwrap_err();
    assert_eq!(err, RegistryError::InvalidName);
    let msg = error_message(&err, r"foo\bar").to_lowercase();
    assert!(msg.contains("invalid") || msg.contains("rejected"), "{}", msg);
}

#[test]
fn single_dots_in_names_are_accepted() {
    assert_eq!(registry_path("/k", "v1.2"), "/k/v1.2.json".to_string());
    assert_eq!(registry_path("/k", "a.b.c"), "/k/a.b.c.json".to_string());
    assert_eq!(registry_path("/k", "notes..v2"), "/k/notes..v2.json".to_string());
    assert_eq!(registry_path("/k", "/abs/x"), "/abs/x.json".to_string());
    assert_eq!(delete_path("/k", "notes..v2"), Err(RegistryError::InvalidName));
    assert_eq!(delete_path("/k", "v1.2"), Ok("/k/v1.2.json".to_string()));
}

#[test]
fn registry_delete_nonexistent_fails() {
    assert_eq!(delete_verdict("no-such-reg-3", &DeleteTarget::Missing), Err(RegistryError::NotFound));
}

#[test]
fn registry_delete_nonexistent_gives_clean_error() {
    let err = delete_verdict("no-such-reg-4", &DeleteTarget::Missing).unwrap_err();
    let msg = error_message(&err, "no-such-reg-4").to_lowercase();
    assert!(msg.contains("not found") || msg.contains("does not exist"), "{}", msg);
}

#[test]
fn delete_refuses_directory_corrupt_file_and_other_name() {
    assert_eq!(delete_verdict("a", &DeleteTarget::NotAFile), Err(RegistryError::NotAFile));
    assert_eq!(delete_verdict("a", &DeleteTarget::Unreadable), Err(RegistryError::Corrupt));
    let err = delete_verdict("content-test-5", &DeleteTarget::Holds("totally-different-registry".to_string()))
        .unwrap_err();
    assert_eq!(
        err,
        RegistryError::NameMismatch { found: "totally-different-registry".to_string() }
    );
    let msg = error_message(&err, "content-test-5");
    assert!(msg.contains("does not match"), "{}", msg);
    let dir = error_message(&RegistryError::NotAFile, "d").to_lowercase();
    assert!(dir.contains("not a file") || dir.contains("directory"));
    let corrupt = error_message(&RegistryError::Corrupt, "c").to_lowercase();
    assert!(corrupt.contains("invalid") || corrupt.contains("corrupt"));
    assert_eq!(delete_verdict("same", &DeleteTarget::Holds("same".to_string())), Ok(()));
}

// ── Adding sources ────────────────────────────────────────────

#[test]
fn source_add_full_file_no_fragment() {
    let mut r = reg("no-frag-6");
    assert_eq!(add(&mut r, "file:///tmp/kr-test-files/test-7.rs", None, &[]), Ok(0));
    assert_eq!(r.sources.len(), 1);
    assert_eq!(r.sources[0].uri, "file:///tmp/kr-test-files/test-7.rs");
}

#[test]
fn source_add_line_range() {
    let mut r = reg("line-range-8");
    assert_eq!(add(&mut r, "file:///tmp/kr-test-files/test-9.rs#L1-L5", None, &[]), Ok(0));
}

#[test]
fn source_add_single_line() {
    let mut r = reg("single-line-10");
    assert_eq!(add(&mut r, "file:///tmp/kr-test-files/test-11.rs#L2", None, &[]), Ok(0));
}

#[test]
fn source_add_same_file_twice_different_ranges() {
    let mut r = reg("dup-file-12");
    add(&mut r, "file:///tmp/kr-test-files/test-13.rs#L1-L2", None, &[]).unwrap();
    add(&mut r, "file:///tmp/kr-test-files/test-13.rs#L4-L5", None, &[]).unwrap();
    let out = source_list_lines("dup-file-12", &r.sources, "/", &None);
    assert_eq!(out.iter().filter(|l| l.starts_with('0') || l.starts_with('1')).count(), 2);
}

#[test]
fn source_add_nonexistent_file_succeeds_but_search_warns() {
    let mut r = reg("missing-14");
    assert_eq!(add(&mut r, "file:///no/such/file.rs", None, &[]), Ok(0));
    let (targets, err) = file_targets(&r, "/", &vec![]);
    assert_eq!(err, None);
    assert_eq!(
        targets,
        vec![FileTarget { index: 0, path: "/no/such/file.rs".to_string(), line_start: None, line_end: None }]
    );
}

#[test]
fn source_add_without_label_works() {
    let mut r = reg("no-label-15");
    assert_eq!(add(&mut r, "file:///tmp/kr-test-files/test-16.rs", None, &[]), Ok(0));
    assert_eq!(r.sources[0].label, None);
    let out = source_list_lines("no-label-15", &r.sources, "/", &None);
    assert!(out[2].starts_with("0    -    "), "{:?}", out);
}

#[test]
fn source_add_with_multiple_tags() {
    let mut r = reg("multi-tag-17");
    add(&mut r, "file:///tmp/kr-test-files/test-18.rs", None, &["core", "string", "cli", "test"]).unwrap();
    let out = source_list_lines("multi-tag-17", &r.sources, "/", &None);
    assert!(out.iter().any(|l| l.contains("core,string,cli,test")));
}

#[test]
fn source_add_invalid_uri_is_refused_and_registry_unchanged() {
    let mut r = reg("bad-uri-19");
    let err = add(&mut r, "file:///some/path.rs#Labc-Ldef", None, &[]).unwrap_err();
    assert_eq!(err, RegistryError::InvalidUri(UriError::StartLine(NumberError::InvalidDigit)));
    assert!(r.sources.is_empty());
    assert_eq!(error_message(&err, "bad-uri-19"), "invalid URI format\n\nCaused by:\n    0: parse start line\n    1: invalid digit found in string");
    assert_eq!(
        add(&mut r, "file:///p#L3-Lx", None, &[]),
        Err(RegistryError::InvalidUri(UriError::EndLine(NumberError::InvalidDigit)))
    );
    assert_eq!(add(&mut r, "file:///p#Lx", None, &[]), Err(RegistryError::InvalidUri(UriError::SingleLine(NumberError::InvalidDigit))));
}

#[test]
fn add_source_stamps_the_time_and_returns_index() {
    let mut r = reg("stamp");
    assert_eq!(r.add_source("file:///a".to_string(), "/", None, vec![]), Ok(0));
    assert_eq!(r.add_source("file:///b".to_string(), "/", Some("b".to_string()), vec![]), Ok(1));
    assert!(r.sources[1].added.len() >= 25, "{}", r.sources[1].added);
    assert_eq!(r.sources[1].uri, "./b");
    assert!(date_part(&r.sources[1].added).is_some());
    assert_eq!(added_message(1), "✓ Added source [1]");
    let fresh = Registry::create("fresh".to_string(), None);
    assert_eq!(fresh.name, "fresh");
    assert_eq!(date_part(&fresh.created), Some(fresh.created[..10].to_string()));
    assert!(fresh.sources.is_empty());
}

// ── Removing and updating ─────────────────────────────────────

#[test]
fn remove_first_source_reindexes_remaining() {
    let mut r = reg("reindex-20");
    add(&mut r, "file:///tmp/kr-test-files/test-21.rs", None, &[]).unwrap();
    add(&mut r, "file:///tmp/kr-test-files/test-22.rs", None, &[]).unwrap();
    let removed = r.remove_source(0).unwrap();
    assert_eq!(removed.uri, "file:///tmp/kr-test-files/test-21.rs");
    let out = source_list_lines("reindex-20", &r.sources, "/", &None);
    assert!(out.iter().any(|l| l.contains("kr-test-files")), "should still have one source");
    assert!(out[2].starts_with("0 ") && out[2].ends_with("test-22.rs"), "{:?}", out);
}

#[test]
fn remove_last_source_works() {
    let mut r = reg("last-rem-23");
    add(&mut r, "file:///tmp/kr-test-files/test-24.rs", None, &[]).unwrap();
    assert!(r.remove_source(0).is_ok());
    let out = source_list_lines("last-rem-23", &r.sources, "/", &None);
    assert!(out.iter().any(|l| l.contains("No sources")));
    assert_eq!(out, vec!["No sources in registry 'last-rem-23'.".to_string()]);
}

#[test]
fn remove_and_update_out_of_range_are_refused() {
    let mut r = reg("oor");
    add(&mut r, "file:///a", None, &[]).unwrap();
    let err = r.remove_source(1).unwrap_err();
    assert_eq!(err, RegistryError::IndexOutOfRange { index: 1, len: 1 });
    assert_eq!(error_message(&err, "oor"), "Index 1 out of range (1 sources)");
    assert!(error_message(&err, "oor").contains("out of range"));
    assert_eq!(
        r.update_source(5, Some("x".to_string()), None),
        Err(RegistryError::IndexOutOfRange { index: 5, len: 1 })
    );
    assert_eq!(r.sources.len(), 1);
    assert_eq!(r.sources[0].label, None);
}

#[test]
fn remove_after_add_gives_back_the_registry() {
    let mut r = reg("undo");
    add(&mut r, "file:///a", Some("a"), &["x"]).unwrap();
    let i = add(&mut r, "file:///b", Some("b"), &["y"]).unwrap();
    let removed = r.remove_source(i).unwrap();
    assert_eq!(removed.uri, "file:///b");
    assert_eq!(r.sources.len(), 1);
    assert_eq!(r.sources[0].uri, "file:///a");
    assert_eq!(removed_message(&removed.uri), "✓ Removed source: file:///b");
}

#[test]
fn update_only_label_keeps_tags() {
    let mut r = reg("update-label-25");
    add(&mut r, "file:///tmp/kr-test-files/test-26.rs", None, &["core", "string"]).unwrap();
    r.update_source(0, Some("new-label".to_string()), None).unwrap();
    let out = source_list_lines("update-label-25", &r.sources, "/", &None).join("\n");
    assert!(out.contains("new-label"));
    assert!(out.contains("core,string"), "tags should be preserved");
}

#[test]
fn update_only_tags_keeps_label() {
    let mut r = reg("update-tags-27");
    add(&mut r, "file:///tmp/kr-test-files/test-28.rs", Some("original-label"), &[]).unwrap();
    r.update_source(0, None, Some(tags(&["new", "tags"]))).unwrap();
    let out = source_list_lines("update-tags-27", &r.sources, "/", &None).join("\n");
    assert!(out.contains("original-label"), "label should be preserved");
    assert!(out.contains("new,tags"));
}

#[test]
fn update_replaces_tags_does_not_append() {
    let mut r = reg("tag-replace-29");
    add(&mut r, "file:///tmp/kr-test-files/test-30.rs", None, &["vintage", "retro"]).unwrap();
    r.update_source(0, None, Some(tags(&["fresh", "modern"]))).unwrap();
    let out = source_list_lines("tag-replace-29", &r.sources, "/", &None).join("\n");
    assert!(!out.contains("vintage"), "old tags should be gone: {}", out);
    assert!(!out.contains("retro"), "old tags should be gone: {}", out);
    assert!(out.contains("fresh,modern"));
    assert_eq!(updated_message(0), "✓ Updated source [0]");
}

#[test]
fn update_with_nothing_changes_nothing() {
    let mut r = reg("noop");
    add(&mut r, "file:///a", Some("keep"), &["t"]).unwrap();
    r.update_source(0, None, None).unwrap();
    assert_eq!(r.sources[0].label, Some("keep".to_string()));
    assert_eq!(r.sources[0].tags, tags(&["t"]));
}

// ── Tag filter ────────────────────────────────────────────────

#[test]
fn tag_filter_selects_matching_sources_only() {
    let mut r = reg("tags");
    add(&mut r, "file:///core.rs", None, &["core"]).unwrap();
    add(&mut r, "file:///util.rs", None, &["util"]).unwrap();
    add(&mut r, "file:///both.rs", None, &["util", "core"]).unwrap();
    assert_eq!(select_by_tags(&r.sources, &tags(&["core"])), vec![0, 2]);
    assert_eq!(select_by_tags(&r.sources, &tags(&["util"])), vec![1, 2]);
    assert_eq!(select_by_tags(&r.sources, &vec![]), vec![0, 1, 2]);
    assert_eq!(select_by_tags(&r.sources, &tags(&["none"])), Vec::<usize>::new());
    let (targets, err) = file_targets(&r, "/", &tags(&["util"]));
    assert_eq!(err, None);
    assert_eq!(targets.iter().map(|t| t.path.as_str()).collect::<Vec<_>>(), vec!["/util.rs", "/both.rs"]);
}

#[test]
fn file_targets_skip_remote_sources_and_stop_at_bad_uri() {
    let mut r = reg("targets");
    r.sources.push(kr::registry::Source::new("https://example.com/x".to_string(), None, vec![], String::new()));
    r.sources.push(kr::registry::Source::new("/no/scheme.rs".to_string(), None, vec![], String::new()));
    r.sources.push(kr::registry::Source::new("file:///a.rs#L2-L3".to_string(), None, vec![], String::new()));
    r.sources.push(kr::registry::Source::new("file:///b.rs#Lq".to_string(), None, vec![], String::new()));
    r.sources.push(kr::registry::Source::new("file:///c.rs".to_string(), None, vec![], String::new()));
    let (targets, err) = file_targets(&r, "/", &vec![]);
    assert_eq!(
        targets,
        vec![
            FileTarget { index: 2, path: "/a.rs".to_string(), line_start: Some(2), line_end: Some(3) },
        ]
    );
    assert_eq!(err, Some((3, UriError::SingleLine(NumberError::InvalidDigit))));
}

// ── Tables ────────────────────────────────────────────────────

#[test]
fn registry_list_table() {
    assert_eq!(registry_list(&vec![]), vec!["No registries found.".to_string()]);
    let mut alpha = reg("alpha");
    for u in ["file:///a", "file:///b", "file:///c"] {
        add(&mut alpha, u, None, &[]).unwrap();
    }
    let out = registry_list(&vec![alpha]);
    assert_eq!(out[0], registry_heading());
    assert_eq!(out[0], "Name                 Sources    Created");
    assert_eq!(out[1], "-".repeat(52));
    assert_eq!(out[2], "alpha                3          2025-06-23");
    assert_eq!(registry_row("a-very-long-registry-name", 12, "d"), "a-very-long-registry-name 12         d");
}

#[test]
fn show_lists_registry_and_sources() {
    let mut r = reg("shown");
    let empty = show_lines(&r, "/", &None);
    assert_eq!(
        empty,
        vec![
            "Registry: shown".to_string(),
            "Created:  2025-06-23T10:00:00+00:00".to_string(),
            "Sources:  0".to_string(),
        ]
    );
    add(&mut r, "file:///a.rs", Some("main"), &[]).unwrap();
    add(&mut r, "file:///b.rs", None, &[]).unwrap();
    let out = show_lines(&r, "/", &None);
    assert_eq!(out.len(), 8);
    assert_eq!(out[2], "Sources:  2");
    assert_eq!(out[3], "");
    assert_eq!(out[4], format!("{:<4} {:<12} {:<60}", "Idx", "Label", "URI"));
    assert_eq!(out[5], "-".repeat(80));
    assert_eq!(out[6], "0    main         /a.rs");
    assert_eq!(out[7], "1    -            /b.rs");
}

#[test]
fn source_list_rows_match_the_format() {
    let mut r = reg("fmt");
    add(&mut r, "file:///a.rs#L1-L2", Some("lbl"), &["x", "y"]).unwrap();
    let out = source_list_lines("fmt", &r.sources, "/", &None);
    assert_eq!(out[0], format!("{:<4} {:<15} {:<10} {}", "Idx", "Label", "Tags", "URI"));
    assert_eq!(out[1], "-".repeat(90));
    assert_eq!(out[2], format!("{:<4} {:<15} {:<10} {}", 0, "lbl", "x,y", "/a.rs#L1-L2"));
}

#[test]
fn messages_of_each_refusal() {
    assert_eq!(error_message(&RegistryError::AlreadyExists, "dup"), "Registry 'dup' already exists");
    assert_eq!(error_message(&RegistryError::NotFound, "gone"), "Registry 'gone' not found");
    assert_eq!(kr::report::created_message("r"), "✓ Created registry 'r'");
    assert_eq!(kr::report::deleted_message("r"), "✓ Deleted registry 'r'");
}

#[test]
fn source_add_invalid_uri_fails() {
    let mut r = reg("bad-uri-test-31");
    assert!(add(&mut r, "file:///some/path.rs#Labc-Ldef", None, &[]).is_err(), "bad URI should fail");
}

#[test]
fn remove_out_of_range_fails() {
    let mut r = reg("remove-oor-test-32");
    add(&mut r, "file:///tmp/kr-test/test-33.rs", None, &[]).unwrap();
    let err = r.remove_source(5).unwrap_err();
    assert!(error_message(&err, "remove-oor-test-32").contains("out of range"));
}

#[test]
fn update_out_of_range_fails() {
    let mut r = reg("update-oor-test-34");
    add(&mut r, "file:///tmp/kr-test/test-35.rs", None, &[]).unwrap();
    let err = r.update_source(99, Some("x".to_string()), None).unwrap_err();
    assert!(error_message(&err, "update-oor-test-34").contains("out of range"));
}

#[test]
fn source_remove_reindexes_remaining() {
    let mut r = reg("reindex-check-36");
    add(&mut r, "file:///tmp/kr-mutation/a.rs", None, &[]).unwrap();
    add(&mut r, "file:///tmp/kr-mutation/b.rs", None, &[]).unwrap();
    r.remove_source(0).unwrap();
    let err = r.remove_source(1).unwrap_err();
    assert!(error_message(&err, "reindex-check-36").contains("out of range"));
}

#[test]
fn tag_filter_excludes_non_matching_tags() {
    let mut r = reg("tag-exclude-37");
    add(&mut r, "file:///core.rs", None, &["core"]).unwrap();
    add(&mut r, "file:///util.rs", None, &["util"]).unwrap();
    let (targets, _) = file_targets(&r, "/", &tags(&["core"]));
    assert_eq!(targets.len(), 1);
    assert_eq!(targets[0].path, "/core.rs");
}

#[test]
fn tag_filter_empty_tags_returns_all() {
    let mut r = reg("tag-empty-38");
    add(&mut r, "file:///some.rs", None, &[]).unwrap();
    let (targets, _) = file_targets(&r, "/", &vec![]);
    assert_eq!(targets.len(), 1);
}

#[test]
fn dump_with_tag_filter_only_dumps_matching_sources() {
    let mut r = reg("dump-tag-39");
    add(&mut r, "file:///a.rs", None, &["alpha"]).unwrap();
    add(&mut r, "file:///b.rs", None, &["beta"]).unwrap();
    let (targets, _) = file_targets(&r, "/", &tags(&["alpha"]));
    assert_eq!(targets.iter().map(|t| t.index).collect::<Vec<_>>(), vec![0]);
}

#[test]
fn registry_names_with_double_dots_are_usable() {
    let mut r = reg("notes..v2");
    add(&mut r, "file:///a", None, &[]).unwrap();
    assert_eq!(registry_path("/home/u/.kr", "notes..v2"), "/home/u/.kr/notes..v2.json");
}

#[test]
fn date_part_is_the_first_ten_bytes() {
    assert_eq!(date_part("2025-06-23T10:00:00+00:00"), Some("2025-06-23".to_string()));
    assert_eq!(date_part("2025-06-2"), None);
    assert_eq!(date_part("é2345678901"), Some("é23456789".to_string()));
    assert_eq!(date_part("123456789é0"), None);
    assert_eq!(date_part("é234567890"), Some("é23456789".to_string()));
}

#[test]
fn new_sources_stored_as_relative_uris() {
    let mut r = reg("new-storage");
    r.add_source("file:///home/u/.cache/kr-res-tests/new-style.rs".to_string(), "/tmp", None, vec![]).unwrap();
    assert_eq!(r.sources[0].uri, "../home/u/.cache/kr-res-tests/new-style.rs");
    assert!(!r.sources[0].uri.contains("file://"));
    let (targets, _) = file_targets(&r, "/tmp", &vec![]);
    assert_eq!(targets[0].path, "/home/u/.cache/kr-res-tests/new-style.rs");
}

#[test]
fn full_flow_relative_storage_resolve_display() {
    let mut r = reg("full-flow");
    let base = "/home/u";
    r.add_source(
        "file:///home/u/.cache/kr-res-tests/flow-test.rs#L1-L1".to_string(),
        base,
        Some("alpha only".to_string()),
        tags(&["test"]),
    )
    .unwrap();
    assert_eq!(r.sources[0].uri, "./.cache/kr-res-tests/flow-test.rs#L1-L1");
    let home = Some("/home/u".to_string());
    let list = source_list_lines("full-flow", &r.sources, base, &home).join("\n");
    assert!(list.contains("alpha only"), "{}", list);
    assert!(!list.contains("file://"), "{}", list);
    assert!(list.contains("~/.cache/kr-res-tests/flow-test.rs#L1-L1"), "{}", list);
    let (targets, err) = file_targets(&r, base, &tags(&["test"]));
    assert_eq!(err, None);
    assert_eq!(
        targets,
        vec![FileTarget {
            index: 0,
            path: "/home/u/.cache/kr-res-tests/flow-test.rs".to_string(),
            line_start: Some(1),
            line_end: Some(1),
        }]
    );
}

#[test]
fn backward_compat_old_file_uri_still_works() {
    let mut r = reg("old-compat");
    add(&mut r, "file:///home/u/old-style.rs#L1-L2", None, &[]).unwrap();
    let (targets, _) = file_targets(&r, "/somewhere/else", &vec![]);
    assert_eq!(targets[0].path, "/home/u/old-style.rs");
    assert_eq!(targets[0].line_end, Some(2));
}

#[test]
fn other_uris_are_stored_as_given() {
    let mut r = reg("remote");
    r.add_source("https://example.com/a#x".to_string(), "/b", None, vec![]).unwrap();
    assert_eq!(r.sources[0].uri, "https://example.com/a#x");
    let (targets, err) = file_targets(&r, "/b", &vec![]);
    assert!(targets.is_empty() && err.is_none());
    let list = source_list_lines("remote", &r.sources, "/b", &None);
    assert!(list[2].ends_with("https://example.com/a#x"));
}

// ── Descriptions, import ──────────────────────────────────────

#[test]
fn show_prints_the_description_after_the_name() {
    let mut r = reg("described");
    r.set_description("Auth module: handler code + design notes".to_string());
    assert_eq!(
        show_lines(&r, "/", &None),
        vec![
            "Registry: described".to_string(),
            "Description: Auth module: handler code + design notes".to_string(),
            "Created:  2025-06-23T10:00:00+00:00".to_string(),
            "Sources:  0".to_string(),
        ]
    );
}

#[test]
fn set_description_replaces_only_the_description() {
    let mut r = reg("described");
    add(&mut r, "file:///a.rs", Some("a"), &["t"]).unwrap();
    r.set_description("first".to_string());
    r.set_description("Updated purpose".to_string());
    assert_eq!(r.description, Some("Updated purpose".to_string()));
    assert_eq!(r.name, "described");
    assert_eq!(r.created, "2025-06-23T10:00:00+00:00");
    assert_eq!(r.sources.len(), 1);
    assert_eq!(r.sources[0].uri, "file:///a.rs");
}

#[test]
fn create_keeps_the_given_description() {
    let r = Registry::create("d".to_string(), Some("Purpose of this KR".to_string()));
    assert_eq!(r.description, Some("Purpose of this KR".to_string()));
    assert!(Registry::new("n".to_string(), "t".to_string()).description.is_none());
    let mut s = reg("kept");
    s.set_description("why".to_string());
    s.add_source("file:///x.rs".to_string(), "/", None, vec![]).unwrap();
    assert_eq!(s.description, Some("why".to_string()));
}

#[test]
fn update_and_import_messages() {
    assert_eq!(registry_updated_message("auth"), "✓ Updated registry 'auth'");
    assert_eq!(imported_message("auth", 2), "✓ Imported registry 'auth' (2 sources)");
    assert_eq!(error_message(&RegistryError::AlreadyExists, "auth"), "Registry 'auth' already exists");
}

#[test]
fn bad_stored_uri_message_names_the_uri_and_the_cause() {
    assert_eq!(
        source_uri_error_message("file:///b.rs#Lq", UriError::SingleLine(NumberError::InvalidDigit)),
        "parse URI file:///b.rs#Lq\n\nCaused by:\n    0: parse single line\n    1: invalid digit found in string"
    );
    let mut r = reg("causes");
    let empty = add(&mut r, "file:///p#L-L2", None, &[]).unwrap_err();
    assert_eq!(
        error_message(&empty, "causes"),
        "invalid URI format\n\nCaused by:\n    0: parse start line\n    1: cannot parse integer from empty string"
    );
    let big = add(&mut r, "file:///p#L1-L99999999999999999999999", None, &[]).unwrap_err();
    assert_eq!(
        error_message(&big, "causes"),
        "invalid URI format\n\nCaused by:\n    0: parse end line\n    1: number too large to fit in target type"
    );
}

#[test]
fn add_source_timed_stores_the_relative_form_and_the_given_time() {
    let mut r = reg("timed");
    assert_eq!(
        r.add_source_timed(
            "file:///home/u/src/a.rs#L3".to_string(),
            "/home/u",
            Some("a".to_string()),
            tags(&["x"]),
            "2025-06-23T10:05:00+00:00".to_string(),
        ),
        Ok(0)
    );
    assert_eq!(r.sources[0].uri, "./src/a.rs#L3");
    assert_eq!(r.sources[0].added, "2025-06-23T10:05:00+00:00");
    assert_eq!(r.sources[0].label, Some("a".to_string()));
    assert_eq!(
        r.add_source_timed("file:///p#Lz".to_string(), "/", None, vec![], "t".to_string()),
        Err(RegistryError::InvalidUri(UriError::SingleLine(NumberError::InvalidDigit)))
    );
    assert_eq!(r.sources.len(), 1);
}

#[test]
fn timestamps_have_the_rfc3339_utc_shape() {
    let r = Registry::create("shape".to_string(), None);
    let t = &r.created;
    let b = t.as_bytes();
    assert!(b[..4].iter().all(|c| c.is_ascii_digit()), "{}", t);
    assert_eq!((b[4], b[7], b[10], b[13], b[16]), (b'-', b'-', b'T', b':', b':'), "{}", t);
    assert!(t.ends_with("+00:00"), "{}", t);
    let frac = &t[19..t.len() - 6];
    assert!(frac.is_empty() || ([4, 7, 10].contains(&frac.len()) && frac.starts_with('.')), "{}", t);
}
