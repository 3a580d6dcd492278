use license_updater::pipeline::{transform, update_content};
use license_updater::style::{get_comment_style, is_source_file, CommentStyle};

const MIT: &str = "MIT License\n\nPermission granted.";

#[test]
fn fresh_python_file() {
    let r = update_content("print('x')", Some("py"), "Jane Doe", MIT, 2025);
    assert!(r.changed);
    assert!(r.content.starts_with("# Copyright (c) 2025 Jane Doe #\n\nprint('x')"));
    assert!(r
        .content
        .ends_with("\n\n#\n# License:\n# MIT License\n#\n# Permission granted.\n#"));
    assert_eq!(
        r.content,
        "# Copyright (c) 2025 Jane Doe #\n\nprint('x')\n\n#\n# License:\n# MIT License\n#\n# Permission granted.\n#"
    );
}

#[test]
fn single_year_becomes_range() {
    let r = update_content(
        "/* Copyright (c) 2021 Jane Doe */\nfn main() {}\n",
        Some("rs"),
        "Jane Doe",
        "MIT",
        2025,
    );
    // the closing marker ` */` brings its own space after the one that follows the author
    assert!(r.content.starts_with("/* Copyright (c) 2021-2025 Jane Doe  */\nfn main() {}"));
    assert_eq!(r.content.matches("Copyright").count(), 1);
}

#[test]
fn range_end_moves_to_current_year() {
    let r = update_content(
        "/* Copyright (c) 2019-2023 Jane Doe */\nint x;\n",
        Some("c"),
        "Jane Doe",
        "MIT",
        2025,
    );
    assert!(r.content.starts_with("/* Copyright (c) 2019-2025 Jane Doe  */\nint x;"));
}

#[test]
fn current_file_is_left_alone() {
    let content = "/* Copyright (c) 2020-2025 Jane Doe */\n\nfn main() {}\n\n/*\n * License:\n * MIT\n */";
    let r = update_content(content, Some("rs"), "Jane Doe", "MIT", 2025);
    assert!(!r.changed);
    assert_eq!(r.content, content);
}

#[test]
fn outdated_footer_is_replaced() {
    let content = "/* Copyright (c) 2025 Jane Doe */\n\nfn main() {}\n\n/*\n * License:\n * Old terms\n * more\n */\n";
    let r = update_content(content, Some("rs"), "Jane Doe", "New terms", 2025);
    assert_eq!(
        r.content,
        "/* Copyright (c) 2025 Jane Doe */\n\nfn main() {}\n\n/*\n * License:\n * New terms\n */"
    );
    assert_eq!(r.content.matches("License:").count(), 1);
}

#[test]
fn second_run_changes_nothing() {
    let inputs = [
        ("print('x')", Some("py")),
        ("int a;\n\n/*\n * doc\n */\nint b;\n", Some("c")),
        ("<p>hi</p>\n", Some("html")),
        ("", None),
        ("/* Copyright (c) 1999 Jane Doe */ x */\nrest", Some("js")),
    ];
    for (content, ext) in inputs {
        let once = update_content(content, ext, "Jane Doe", MIT, 2025);
        let twice = update_content(&once.content, ext, "Jane Doe", MIT, 2025);
        assert!(!twice.changed);
        assert_eq!(twice.content, once.content);
    }
}

#[test]
fn block_comment_before_footer_is_kept() {
    let content = "int a;\n\n/*\n * doc\n */\nint b;\n";
    let once = update_content(content, Some("c"), "Jane Doe", MIT, 2025);
    assert!(once.content.contains("int b;"));
    assert!(once.content.contains(" * doc"));
}

#[test]
fn other_author_gets_a_second_notice() {
    let content = "# Copyright (c) 2020 John Roe #\n\nx = 1\n";
    let r = update_content(content, Some("py"), "Jane Doe", "MIT", 2025);
    assert!(r.content.starts_with("# Copyright (c) 2025 Jane Doe #\n\n# Copyright (c) 2020 John Roe #"));
}

#[test]
fn leading_zero_year_is_kept() {
    let r = update_content("# Copyright (c) 0999 Jane Doe #\n", None, "Jane Doe", "MIT", 2025);
    assert!(r.content.starts_with("# Copyright (c) 0999-2025 Jane Doe #\n"));
}

#[test]
fn year_is_written_in_decimal() {
    let r = transform("", "A", "", CommentStyle::Slash, 7);
    assert_eq!(r.content, "/* Copyright (c) 7 A  */\n\n/*\n * License:\n\n */");
}

#[test]
fn styles_by_extension() {
    for e in ["rs", "c", "cpp", "h", "hpp", "js", "jsx", "ts", "tsx", "go", "java", "swift", "kt", "scala", "css", "scss", "cs"] {
        assert_eq!(get_comment_style(Some(e)), CommentStyle::Slash);
    }
    for e in ["py", "rb", "sh", "bash", "pl", "pm", "php"] {
        assert_eq!(get_comment_style(Some(e)), CommentStyle::Hash);
    }
    assert_eq!(get_comment_style(Some("lua")), CommentStyle::Lua);
    assert_eq!(get_comment_style(Some("html")), CommentStyle::Markup);
    assert_eq!(get_comment_style(Some("xml")), CommentStyle::Markup);
    assert_eq!(get_comment_style(Some("PY")), CommentStyle::Hash);
    assert_eq!(get_comment_style(Some("Lua")), CommentStyle::Lua);
    assert_eq!(get_comment_style(Some("json")), CommentStyle::Slash);
    assert_eq!(get_comment_style(Some("weird")), CommentStyle::Slash);
    assert_eq!(get_comment_style(None), CommentStyle::Hash);
}

#[test]
fn style_markers() {
    let s = CommentStyle::Lua;
    assert_eq!(s.block_start().into_iter().collect::<String>(), "--[[");
    assert_eq!(s.line_prefix().into_iter().collect::<String>(), "-- ");
    assert_eq!(s.block_end().into_iter().collect::<String>(), "--]]");
    let m = CommentStyle::Markup;
    assert_eq!(m.block_start().into_iter().collect::<String>(), "<!--");
    assert_eq!(m.block_end().into_iter().collect::<String>(), "-->");
}

#[test]
fn source_files_by_extension() {
    assert!(is_source_file(Some("rs")));
    assert!(is_source_file(Some("JSON")));
    assert!(is_source_file(Some("Html")));
    assert!(!is_source_file(Some("txt")));
    assert!(!is_source_file(Some("")));
    assert!(!is_source_file(None));
}

#[test]
fn lua_and_markup_output() {
    let r = update_content("print(1)", Some("lua"), "Jane Doe", "A\n\nB", 2025);
    assert_eq!(
        r.content,
        "--[[ Copyright (c) 2025 Jane Doe --]]\n\nprint(1)\n\n--[[\n-- License:\n-- A\n--\n-- B\n--]]"
    );
    let h = update_content("<p/>\n\n", Some("xml"), "Jane Doe", "A\n \nB", 2025);
    assert_eq!(
        h.content,
        "<!-- Copyright (c) 2025 Jane Doe -->\n\n<p/>\n\n<!--\n License:\n A\n\n B\n-->"
    );
}

#[test]
fn crlf_license_lines() {
    let r = transform("x", "A", "one\r\ntwo\r\n", CommentStyle::Hash, 2025);
    assert!(r.content.ends_with("\n\n#\n# License:\n# one\n# two\n#"));
}

#[test]
fn trailing_whitespace_before_new_footer_is_dropped() {
    let r = transform("# Copyright (c) 2025 A #\n\nx = 1\n\n\n   ", "A", "L", CommentStyle::Hash, 2025);
    assert_eq!(r.content, "# Copyright (c) 2025 A #\n\nx = 1\n\n#\n# License:\n# L\n#");
}

#[test]
fn footer_with_trailing_whitespace_is_found() {
    let content = "# Copyright (c) 2025 A #\n\nx = 1\n\n#\n# License:\n# L\n#\n\n  ";
    let r = transform(content, "A", "L", CommentStyle::Hash, 2025);
    assert_eq!(r.content, "# Copyright (c) 2025 A #\n\nx = 1\n\n#\n# License:\n# L\n#");
    assert!(r.changed);
}
