use kr::decimal::{format_usize, parse_usize, NumberError};
use kr::lines::{select_lines, split_lines};
use kr::output::{display_path, dump_header, search_header, sed_script};
use kr::path::{relative_path_exec, resolve_path_exec};
use kr::storage::{resolve_stored, store_uri};
use kr::text::{chars_of, trim};
use kr::uri::{parse_uri, uri_to_file_path, ParsedUri, UriError};

fn chars(s: &str) -> Vec<char> {
    s.chars().collect()
}

fn uri(scheme: &str, path: Option<&str>, s: Option<usize>, e: Option<usize>) -> ParsedUri {
    ParsedUri { scheme: scheme.to_string(), path: path.map(|p| p.to_string()), line_start: s, line_end: e }
}

fn dump(path: &str, u: &str, label: Option<&str>, content: &str) -> Vec<String> {
    let p = parse_uri(u).unwrap();
    let mut out = vec![String::new(), dump_header(path, p.line_start, p.line_end, &label.map(|l| l.to_string()))];
    out.extend(select_lines(&split_lines(content), p.line_start, p.line_end));
    out
}

// ── Numbers ───────────────────────────────────────────────────

#[test]
fn numbers_read_as_str_parse_reads_them() {
    for s in ["0", "7", "42", "+5", "007", "", "+", "-", "-1", "1a", " 1", "++1", "18446744073709551616", "99999999999999999999", "99999999999999999999x", "1x99999999999999999999"] {
        let ours = parse_usize(&chars(s));
        match s.parse::<usize>() {
            Ok(v) => assert_eq!(ours, Ok(v), "{:?}", s),
            Err(e) => {
                let kind = match e.kind() {
                    std::num::IntErrorKind::Empty => NumberError::Empty,
                    std::num::IntErrorKind::InvalidDigit => NumberError::InvalidDigit,
                    std::num::IntErrorKind::PosOverflow => NumberError::PosOverflow,
                    other => panic!("unexpected kind {:?}", other),
                };
                assert_eq!(ours, Err(kind), "{:?}", s);
            }
        }
    }
    assert_eq!(parse_usize(&chars(&usize::MAX.to_string())), Ok(usize::MAX));
}

#[test]
fn numbers_written_as_display_writes_them() {
    for n in [0usize, 9, 10, 123, 1000, usize::MAX] {
        let s: String = format_usize(n).into_iter().collect();
        assert_eq!(s, n.to_string());
        assert_eq!(parse_usize(&format_usize(n)), Ok(n));
    }
}

// ── URIs ──────────────────────────────────────────────────────

#[test]
fn parse_whole_file_uri() {
    assert_eq!(parse_uri("file:///path/to/file.rs"), Ok(uri("file", Some("/path/to/file.rs"), None, None)));
}

#[test]
fn parse_range_and_single_line_uris() {
    assert_eq!(parse_uri("file:///p.rs#L10-L42"), Ok(uri("file", Some("/p.rs"), Some(10), Some(42))));
    assert_eq!(parse_uri("file:///p.rs#L10"), Ok(uri("file", Some("/p.rs"), Some(10), None)));
    assert_eq!(parse_uri("file:///p.rs#L1-LL30"), Ok(uri("file", Some("/p.rs"), Some(1), Some(30))));
    assert_eq!(parse_uri("file:///p.rs#L1-30"), Ok(uri("file", Some("/p.rs"), Some(1), Some(30))));
    assert_eq!(parse_uri("file:///p.rs# L7 \n"), Ok(uri("file", Some("/p.rs"), Some(7), None)));
    assert_eq!(parse_uri("file:///p.rs#L+7"), Ok(uri("file", Some("/p.rs"), Some(7), None)));
}

#[test]
fn fragments_without_l_name_no_range() {
    assert_eq!(parse_uri("file:///p.rs#C5-C12"), Ok(uri("file", Some("/p.rs"), None, None)));
    assert_eq!(parse_uri("file:///p.rs#"), Ok(uri("file", Some("/p.rs"), None, None)));
}

#[test]
fn bad_line_numbers_are_refused() {
    assert_eq!(parse_uri("file:///some/path.rs#Labc-Ldef"), Err(UriError::StartLine(NumberError::InvalidDigit)));
    assert_eq!(parse_uri("file:///p#L-L5"), Err(UriError::StartLine(NumberError::Empty)));
    assert_eq!(parse_uri("file:///p#L5-L"), Err(UriError::EndLine(NumberError::Empty)));
    assert_eq!(parse_uri("file:///p#L5-Lx"), Err(UriError::EndLine(NumberError::InvalidDigit)));
    assert_eq!(parse_uri("file:///p#L"), Err(UriError::SingleLine(NumberError::Empty)));
    assert_eq!(parse_uri("file:///p#L99999999999999999999999"), Err(UriError::SingleLine(NumberError::PosOverflow)));
}

#[test]
fn uris_without_scheme_or_with_others() {
    assert_eq!(parse_uri("/no/scheme.rs"), Ok(uri("file", None, None, None)));
    assert_eq!(parse_uri("https://example.com/a#b#c"), Ok(uri("https", Some("example.com/a"), None, None)));
    assert_eq!(parse_uri("git+ssh://host/x://y"), Ok(uri("git+ssh", Some("host/x://y"), None, None)));
    assert_eq!(parse_uri(""), Ok(uri("file", None, None, None)));
}

#[test]
fn only_file_uris_name_local_files() {
    assert_eq!(uri_to_file_path(&parse_uri("file:///a/b.rs#L1").unwrap()), Some("/a/b.rs".to_string()));
    assert_eq!(uri_to_file_path(&parse_uri("https://x/y").unwrap()), None);
    assert_eq!(uri_to_file_path(&parse_uri("/plain/path").unwrap()), None);
    assert_eq!(uri_to_file_path(&parse_uri("FILE:///a").unwrap()), None);
}

#[test]
fn trim_removes_unicode_white_space() {
    let t: String = trim(&chars("\u{3000}\t a b \u{85}\n")).into_iter().collect();
    assert_eq!(t, "a b");
    let c: String = chars_of("héllo").into_iter().collect();
    assert_eq!(c, "héllo");
}

// ── Lines ─────────────────────────────────────────────────────

#[test]
fn lines_split_as_str_lines_splits() {
    for s in ["", "a", "a\n", "a\nb", "a\r\nb\r\n", "a\r", "\n\n", "x\ry\n", "a\n\r\n"] {
        let expected: Vec<String> = s.lines().map(|l| l.to_string()).collect();
        assert_eq!(split_lines(s), expected, "{:?}", s);
    }
}

#[test]
fn ranges_are_clamped_to_the_file() {
    let lines: Vec<String> = ["a", "b", "c"].iter().map(|s| s.to_string()).collect();
    assert_eq!(select_lines(&lines, Some(2), Some(3)), vec!["b", "c"]);
    assert_eq!(select_lines(&lines, Some(2), None), vec!["b", "c"]);
    assert_eq!(select_lines(&lines, Some(5), Some(9)), Vec::<String>::new());
    assert_eq!(select_lines(&lines, Some(3), Some(1)), Vec::<String>::new());
    assert_eq!(select_lines(&lines, None, Some(1)), vec!["a", "b", "c"]);
    assert_eq!(select_lines(&lines, Some(1), Some(0)), Vec::<String>::new());
}

// ── Dump ──────────────────────────────────────────────────────

#[test]
fn dump_entire_file_has_all_lines() {
    let out = dump("/tmp/f.rs", "file:///tmp/f.rs", None, "line one\nline two\nline three\n");
    assert_eq!(out, vec!["", "// /tmp/f.rs", "line one", "line two", "line three"]);
}

#[test]
fn dump_line_range_excludes_other_lines() {
    let out = dump("/tmp/f.rs", "file:///tmp/f.rs#L2-L4", None, "alpha\nbeta\ngamma\ndelta\nepsilon\n");
    let text = out.join("\n");
    assert!(text.contains("beta"));
    assert!(text.contains("gamma"));
    assert!(text.contains("delta"));
    for line in out.iter().filter(|l| l.starts_with('L')) {
        assert!(!line.contains("alpha"), "should not include line 1: {}", line);
        assert!(!line.contains("epsilon"), "should not include line 5: {}", line);
    }
    assert!(!text.contains("alpha") && !text.contains("epsilon"));
}

#[test]
fn dump_single_line_from_middle() {
    let out = dump("/tmp/f.rs", "file:///tmp/f.rs#L3", None, "alpha\nbeta\ngamma\ndelta\nepsilon\n");
    assert_eq!(out[2..], ["gamma", "delta", "epsilon"]);
    assert_eq!(out[1], "// /tmp/f.rs [L3+]");
}

#[test]
fn dump_line_beyond_file_length_does_not_crash() {
    let out = dump("/tmp/f.rs", "file:///tmp/f.rs#L1-L999", None, "only one line\n");
    assert!(out.join("\n").contains("only one line"));
}

#[test]
fn dump_multiple_sources_shows_headers() {
    let mut out = dump("/tmp/a.rs", "file:///tmp/a.rs", None, "content A\n");
    out.extend(dump("/tmp/b.rs", "file:///tmp/b.rs", None, "content B\n"));
    let text = out.join("\n");
    assert!(text.contains("content A"));
    assert!(text.contains("content B"));
    assert!(text.matches("// ").count() >= 2);
}

#[test]
fn empty_file_can_be_added_and_dumped() {
    assert_eq!(dump("/e", "file:///e", None, ""), vec!["", "// /e"]);
}

#[test]
fn file_with_unicode_content() {
    let out = dump("/u", "file:///u", None, "fn hello() -> String { \"你好世界\".to_string() }\n");
    assert!(out.join("\n").contains("你好世界"));
}

#[test]
fn dump_header_includes_range_and_label() {
    let out = dump("/tmp/f.rs", "file:///tmp/f.rs#L2-L3", Some("partial"), "line one\nline two\nline three\n");
    assert_eq!(out, vec!["", "// /tmp/f.rs [L2-L3] — partial", "line two", "line three"]);
    assert!(!out.join("\n").contains("L   2 |"));
    assert_eq!(dump_header("p", None, None, &None), "// p");
}

#[test]
fn home_paths_show_with_tilde() {
    let home = Some("/home/u".to_string());
    assert_eq!(display_path("/home/u/src/a.rs", &home), "~/src/a.rs");
    assert_eq!(display_path("/home/u", &home), "~");
    assert_eq!(display_path("/home/user2/a.rs", &home), "/home/user2/a.rs");
    assert_eq!(display_path("/tmp/a.rs", &home), "/tmp/a.rs");
    assert_eq!(display_path("/tmp/a.rs", &None), "/tmp/a.rs");
}

// ── Search ────────────────────────────────────────────────────

#[test]
fn search_cuts_ranges_with_sed_and_heads_matches() {
    assert_eq!(sed_script(Some(1), Some(2)), Some("1,2p".to_string()));
    assert_eq!(sed_script(Some(4), None), Some("4,$p".to_string()));
    assert_eq!(sed_script(None, None), None);
    assert_eq!(search_header("/a.rs", Some(1), Some(2)), "── /a.rs (L1-L2) ──");
    assert_eq!(search_header("/a.rs", Some(4), None), "── /a.rs (L4+) ──");
    assert_eq!(search_header("/a.rs", None, None), "── /a.rs ──");
}

#[test]
fn dump_header_without_range_or_label() {
    let out = dump("/tmp/s.rs", "file:///tmp/s.rs", None, "just content\n");
    let header_line = out.iter().find(|l| l.starts_with("// ")).expect("should have header");
    assert!(!header_line.contains("["), "no range bracket: {}", header_line);
    assert!(!header_line.contains("—"), "no label dash: {}", header_line);
}

#[test]
fn file_with_no_trailing_newline() {
    let out = dump("/n.rs", "file:///n.rs", None, "fn test() {}");
    assert!(out.join("\n").contains("fn test()"));
    assert_eq!(out[2], "fn test() {}");
}

#[test]
fn dump_respects_line_ranges() {
    let out = dump("/r", "file:///r#L2-L4", None, "line one\nline two\nline three\nline four\nline five\n");
    let text = out.join("\n");
    assert!(text.contains("line two") && text.contains("line three") && text.contains("line four"));
    assert!(!text.contains("line one"), "should not include line 1");
    assert!(!text.contains("line five"), "should not include line 5");
}

#[test]
fn dump_range_excludes_lines_before_start() {
    let out = dump("/r", "file:///r#L2-L3", None, "line1\nline2\nline3\n");
    assert!(out.join("\n").contains("line"));
    assert!(!out.join("\n").contains("line1"), "should exclude line 1");
}

#[test]
fn dump_range_excludes_lines_after_end() {
    let out = dump("/r", "file:///r#L1-L2", None, "line1\nline2\nline3\n");
    assert!(out.join("\n").contains("line"));
    assert!(!out.join("\n").contains("line3"), "should exclude line 3");
}

#[test]
fn dump_no_line_numbers_in_content() {
    let out = dump("/r", "file:///r", None, "content\n");
    assert!(out.iter().any(|l| l == "content"), "should not have line number prefix: {:?}", out);
}

#[test]
fn home_with_trailing_slash_still_shows_tilde() {
    assert_eq!(display_path("/home/u/x.rs", &Some("/home/u/".to_string())), "~/x.rs");
    assert_eq!(display_path("/x.rs", &Some("/".to_string())), "/x.rs");
}

#[test]
fn relative_paths_resolve_back() {
    let cases = [("/tmp", "/home/u/a.rs"), ("/home/u", "/home/u/x/y.rs"), ("/", "/a"), ("/a/b/c", "/a/d"), ("/a", "/a")];
    for (base, path) in cases {
        let rel: String = relative_path_exec(&chars(base), &chars(path)).into_iter().collect();
        let back: String = resolve_path_exec(&chars(base), &chars(&rel)).into_iter().collect();
        assert_eq!(back, path, "{} {} {}", base, path, rel);
    }
    let rel: String = relative_path_exec(&chars("/a/b/c"), &chars("/a/d")).into_iter().collect();
    assert_eq!(rel, "../../d");
    let r: String = resolve_path_exec(&chars("/a/b"), &chars("./x/../../y//z/")).into_iter().collect();
    assert_eq!(r, "/a/y/z");
    let r: String = resolve_path_exec(&chars("/a/b"), &chars("/abs/../q")).into_iter().collect();
    assert_eq!(r, "/q");
}

#[test]
fn stored_uris_resolve_back() {
    let stored = store_uri("file:///home/u/p.rs#L2-L3", "/home/u").unwrap();
    assert_eq!(stored, "./p.rs#L2-L3");
    assert_eq!(resolve_stored(&stored, "/home/u"), Ok(uri("file", Some("/home/u/p.rs"), Some(2), Some(3))));
    assert_eq!(store_uri("file:///etc/p.rs", "/home/u"), Ok("../../etc/p.rs".to_string()));
    assert_eq!(resolve_stored("../../etc/p.rs", "/home/u"), Ok(uri("file", Some("/etc/p.rs"), None, None)));
    assert_eq!(store_uri("file:///p.rs#Lx", "/"), Err(UriError::SingleLine(NumberError::InvalidDigit)));
    assert_eq!(store_uri("rel/p.rs#L1", "/b"), Ok("rel/p.rs#L1".to_string()));
    assert_eq!(resolve_stored("./rel/p.rs#L1", "/b"), Ok(uri("file", Some("/b/rel/p.rs"), Some(1), None)));
}

#[test]
fn uris_without_scheme_name_no_file() {
    assert_eq!(resolve_stored("rel/p.rs#L1", "/b"), Ok(uri("file", None, Some(1), None)));
    assert_eq!(resolve_stored("/abs/p.rs", "/b"), Ok(uri("file", None, None, None)));
    assert_eq!(resolve_stored("notes.md", "/b"), Ok(uri("file", None, None, None)));
    assert_eq!(resolve_stored(".hidden/x", "/b"), Ok(uri("file", None, None, None)));
}

#[test]
fn paths_not_in_canonical_form_keep_their_uri() {
    for u in ["file:///a/../b.rs", "file:///a/./b.rs", "file:///a//b.rs", "file:///a/b/", "file://rel/b.rs"] {
        assert_eq!(store_uri(u, "/home/u"), Ok(u.to_string()), "{}", u);
    }
    assert_eq!(store_uri("file:///a/b.rs", "/home/u/../v"), Ok("file:///a/b.rs".to_string()));
    assert_eq!(
        resolve_stored("file:///a/../b.rs#L2", "/home/u"),
        Ok(uri("file", Some("/a/../b.rs"), Some(2), None))
    );
}
