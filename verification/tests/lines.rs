use link_parsing::detect_link_suffixes;
use link_parsing::detect_links;
use link_parsing::get_link_suffix;
use link_parsing::remove_link_query_string;
use link_parsing::remove_link_suffix;
use link_parsing::LinkPartialRange;
use link_parsing::LinkSuffix;
use link_parsing::OperatingSystem;
use link_parsing::ParsedLink;

const ALL_SYSTEMS: [OperatingSystem; 3] =
    [OperatingSystem::Windows, OperatingSystem::Linux, OperatingSystem::Macintosh];

fn span(index: usize, text: &str) -> LinkPartialRange {
    LinkPartialRange { index, text: text.to_string() }
}

#[test]
fn a_line_without_pattern_has_no_link_and_no_suffix() {
    let lines = [
        "",
        " ",
        "foo",
        "README.md",
        "hello world, this is plain text",
        "error: expected `;`",
        "\u{e9}t\u{e9} \u{1f600}",
        "x = y + z",
    ];
    for line in lines {
        for os in ALL_SYSTEMS {
            assert_eq!(detect_links(line, os), Vec::new(), "{:?}", line);
        }
        assert_eq!(get_link_suffix(line), None, "{:?}", line);
        assert_eq!(detect_link_suffixes(line), Vec::new(), "{:?}", line);
        assert_eq!(remove_link_suffix(line), line);
    }
}

#[test]
fn paths_of_detected_links_ascend_without_overlap() {
    let lines = [
        "foo(1, 2) bar[3, 4] \"baz\" on line 5",
        "PS C:\\Github\\microsoft\\vscode> echo '\"foo\", line 5, col 6'",
        "/a/b ./c/d:12 e/f \"g/h\", line 3 ~/i",
        "src/main.rs:10:5 and src/lib.rs and ../x/y.rs(3,4)",
        "--- a/foo/bar",
        "diff --git a/foo/bar b/foo/baz",
        "</test/path/linux:400<",
        "a(b/c:12",
        "C:\\a\\b:7 C:\\c\\d e\\f[1, 2]",
    ];
    for line in lines {
        for os in ALL_SYSTEMS {
            let links = detect_links(line, os);
            for pair in links.windows(2) {
                assert!(
                    pair[0].path.index + pair[0].path.text.len() <= pair[1].path.index,
                    "{:?}",
                    line
                );
            }
            for link in &links {
                if let Some(suffix) = &link.suffix {
                    assert!(suffix.row.is_some());
                    assert!(link.path.index + link.path.text.len() <= suffix.suffix.index);
                    assert_eq!(&line[suffix.suffix.index..][..suffix.suffix.text.len()], suffix.suffix.text);
                }
                if let Some(prefix) = &link.prefix {
                    assert_eq!(prefix.index + prefix.text.len(), link.path.index);
                }
                assert_eq!(&line[link.path.index..][..link.path.text.len()], link.path.text);
            }
        }
    }
}

#[test]
fn a_path_that_conflicts_with_a_link_with_suffix_is_dropped() {
    // the path starts where the link with the annotation starts
    let links = detect_links("/a/b:12", OperatingSystem::Linux);
    assert_eq!(links.len(), 1);
    assert_eq!(links[0].path, span(0, "/a/b"));
    assert!(links[0].suffix.is_some());
    // the path starts inside the link with the annotation
    let links = detect_links("a(b/c:12", OperatingSystem::Linux);
    assert_eq!(links.len(), 1);
    assert_eq!(links[0].path, span(0, "a(b/c"));
    // a path in front of the link and one behind it stay
    let links = detect_links("/x/y foo:12 /z/w", OperatingSystem::Linux);
    assert_eq!(
        links.iter().map(|link| link.path.clone()).collect::<Vec<_>>(),
        vec![span(0, "/x/y"), span(5, "foo"), span(12, "/z/w")]
    );
}

#[test]
fn links_with_suffix_come_as_their_suffixes_come() {
    // the second path reaches back over the first annotation
    let links = detect_links("a:1b:2", OperatingSystem::Linux);
    assert_eq!(
        links,
        vec![
            ParsedLink {
                path: span(0, "a"),
                prefix: None,
                suffix: Some(LinkSuffix { row: Some(1), col: None, row_end: None, col_end: None, suffix: span(1, ":1") }),
            },
            ParsedLink {
                path: span(0, "a:1b"),
                prefix: None,
                suffix: Some(LinkSuffix { row: Some(2), col: None, row_end: None, col_end: None, suffix: span(4, ":2") }),
            },
        ]
    );
}

#[test]
fn quoted_links_without_a_path_are_not_emitted() {
    for os in ALL_SYSTEMS {
        assert_eq!(detect_links("\"\",1", os), Vec::new());
        assert_eq!(detect_links("'',1", os), Vec::new());
        assert_eq!(detect_links("\"\", line 5", os), Vec::new());
        assert_eq!(detect_links("see \"\",12", os), Vec::new());
        assert_eq!(detect_links("\":12", os), Vec::new());
    }
    let links = detect_links("\"a\",1", OperatingSystem::Linux);
    assert_eq!(links.len(), 1);
    assert_eq!(links[0].path, span(1, "a"));
    assert_eq!(links[0].prefix, Some(span(0, "\"")));
}

#[test]
fn three_links_with_suffixes_in_one_line() {
    let links = detect_links("foo(1, 2) bar[3, 4] \"baz\" on line 5", OperatingSystem::Linux);
    assert_eq!(links.len(), 3);
    assert_eq!(links[0].path, span(0, "foo"));
    assert_eq!(links[0].suffix.as_ref().map(|s| (s.row, s.col)), Some((Some(1), Some(2))));
    assert_eq!(links[1].path, span(10, "bar"));
    assert_eq!(links[1].suffix.as_ref().map(|s| (s.row, s.col)), Some((Some(3), Some(4))));
    assert_eq!(links[2].path, span(21, "baz"));
    assert_eq!(links[2].prefix, Some(span(20, "\"")));
    assert_eq!(links[2].suffix.as_ref().map(|s| (s.row, s.col)), Some((Some(5), None)));
}

#[test]
fn the_prefix_of_a_diff_is_stripped() {
    assert_eq!(
        detect_links("--- a/foo/bar", OperatingSystem::Linux),
        vec![ParsedLink { path: span(6, "foo/bar"), prefix: None, suffix: None }]
    );
}

#[test]
fn a_windows_path_and_a_quoted_link_in_one_line() {
    let line = "PS C:\\Github\\microsoft\\vscode> echo '\"foo\", line 5, col 6'";
    let links = detect_links(line, OperatingSystem::Windows);
    assert_eq!(links.len(), 2);
    assert_eq!(links[0], ParsedLink { path: span(3, "C:\\Github\\microsoft\\vscode"), prefix: None, suffix: None });
    assert_eq!(links[1].path, span(38, "foo"));
    assert_eq!(links[1].prefix, Some(span(37, "\"")));
    assert_eq!(links[1].suffix.as_ref().map(|s| (s.row, s.col)), Some((Some(5), Some(6))));
}

#[test]
fn query_strings_are_cut_at_the_first_question_mark() {
    assert_eq!(remove_link_query_string(""), "");
    assert_eq!(remove_link_query_string("foo"), "foo");
    assert_eq!(remove_link_query_string("?"), "");
    assert_eq!(remove_link_query_string("a?b?c"), "a");
    assert_eq!(remove_link_query_string("f\u{e9}?\u{e9}"), "f\u{e9}");
    // the marker of a UNC path keeps its question mark
    assert_eq!(remove_link_query_string("\\\\?\\"), "\\\\?\\");
    assert_eq!(remove_link_query_string("\\\\?\\foo"), "\\\\?\\foo");
    assert_eq!(remove_link_query_string("\\\\?\\?a=b"), "\\\\?\\");
    assert_eq!(remove_link_query_string("\\\\?\\C:\\foo?a=b"), "\\\\?\\C:\\foo");
    // only at the very start, and only whole
    assert_eq!(remove_link_query_string("x\\\\?\\foo"), "x\\\\");
    assert_eq!(remove_link_query_string("\\\\?"), "\\\\");
    assert_eq!(remove_link_query_string("\\?\\foo"), "\\");
}

#[test]
fn linux_and_macintosh_find_the_same_links() {
    let lines = [
        "",
        "foo(1, 2) bar[3, 4] \"baz\" on line 5",
        "/a/b ./c/d:12 e/f \"g/h\", line 3 ~/i",
        "C:\\a\\b:7 C:\\c\\d e\\f[1, 2]",
        "--- a/foo/bar",
        "diff --git a/foo/bar b/foo/baz",
        "file:///home/me/x.rs#10",
    ];
    for line in lines {
        assert_eq!(
            detect_links(line, OperatingSystem::Linux),
            detect_links(line, OperatingSystem::Macintosh),
            "{:?}",
            line
        );
    }
    assert_ne!(
        detect_links("C:\\a\\b", OperatingSystem::Linux),
        detect_links("C:\\a\\b", OperatingSystem::Windows)
    );
}

#[test]
fn a_path_behind_nested_quotes_at_the_start_of_the_line() {
    // the path follows its prefix
    let links = detect_links("'\"foo\", line 5", OperatingSystem::Linux);
    assert_eq!(links.len(), 1);
    assert_eq!(links[0].prefix, Some(span(1, "\"")));
    assert_eq!(links[0].path, span(2, "foo"));
    // a path that opens with one more quote is recorded at offset 1
    let links = detect_links("'\"\"a:1", OperatingSystem::Linux);
    assert_eq!(links.len(), 1);
    assert_eq!(links[0].prefix, Some(span(1, "\"")));
    assert_eq!(links[0].path, span(1, "\"a"));
    // not so further into the line
    let links = detect_links("x '\"\"a:1", OperatingSystem::Linux);
    assert_eq!(links.len(), 1);
    assert_eq!(links[0].prefix, Some(span(3, "\"")));
    assert_eq!(links[0].path, span(4, "\"a"));
}
