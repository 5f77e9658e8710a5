use polirag::scrapper::processing::{
    file_name_of, file_stem, frame_content, has_extension, is_pdf_name, is_zip_name, join_path,
    normalize_text, path_escapes, plan_archive_entry, read_child_output, EntryAction,
    ProcessingError,
};
use polirag::text::{
    chars_of, comes_before, contains, find, is_whitespace, join, split_lines, split_on,
    split_words, string_of, trim,
};

fn cs(s: &str) -> Vec<char> {
    s.chars().collect()
}

fn strs(v: &Vec<Vec<char>>) -> Vec<String> {
    v.iter().map(|w| w.iter().collect::<String>()).collect()
}

#[test]
fn chars_round_trip() {
    assert_eq!(chars_of("héllo"), cs("héllo"));
    assert_eq!(string_of(&cs("héllo")), "héllo");
    assert_eq!(string_of(&Vec::new()), "");
}

#[test]
fn whitespace_agrees_with_the_standard_library_on_every_character() {
    let mut code: u32 = 0;
    while code <= 0x10FFFF {
        if let Some(c) = char::from_u32(code) {
            assert_eq!(is_whitespace(c), c.is_whitespace(), "U+{:04X}", code);
        }
        code += 1;
    }
}

#[test]
fn words_are_the_runs_between_white_space() {
    assert_eq!(strs(&split_words(&cs("  alpha \t beta\n\ngamma  "))), vec!["alpha", "beta", "gamma"]);
    assert_eq!(strs(&split_words(&cs("one"))), vec!["one"]);
    assert!(split_words(&cs(" \u{a0}\u{2003} \n")).is_empty());
    assert!(split_words(&cs("")).is_empty());
    let text = "a  b\u{3000}c";
    let std_words: Vec<String> = text.split_whitespace().map(|w| w.to_string()).collect();
    assert_eq!(strs(&split_words(&cs(text))), std_words);
}

#[test]
fn join_puts_the_separator_between_neighbours() {
    let ws = vec![cs("a"), cs("bc"), cs("d")];
    assert_eq!(string_of(&join(&ws, &cs(", "))), "a, bc, d");
    assert_eq!(string_of(&join(&vec![cs("solo")], &cs(" "))), "solo");
    assert_eq!(string_of(&join(&Vec::new(), &cs(" "))), "");
}

#[test]
fn trim_takes_white_space_from_both_ends() {
    assert_eq!(string_of(&trim(&cs("  x y \n"))), "x y");
    assert_eq!(string_of(&trim(&cs("\u{a0}x\u{2009}"))), "x");
    assert_eq!(string_of(&trim(&cs("   "))), "");
    assert_eq!(string_of(&trim(&cs(""))), "");
}

#[test]
fn find_gives_the_first_offset() {
    assert_eq!(find(&cs("abcabc"), &cs("bc")), Some(1));
    assert_eq!(find(&cs("abcabc"), &cs("cb")), None);
    assert_eq!(find(&cs("abc"), &cs("")), Some(0));
    assert_eq!(find(&cs("ab"), &cs("abc")), None);
    assert!(contains(&cs("the quick brown fox"), &cs("fox")));
    assert!(!contains(&cs("the quick brown fox"), &cs("dog")));
}

#[test]
fn split_on_keeps_empty_pieces() {
    assert_eq!(strs(&split_on(&cs("a;b;;c"), ';')), vec!["a", "b", "", "c"]);
    assert_eq!(strs(&split_on(&cs(""), ';')), vec![""]);
    assert_eq!(strs(&split_on(&cs(";"), ';')), vec!["", ""]);
    let text = "GRA_11673_2025_DTU";
    let std_pieces: Vec<String> = text.split('_').map(|p| p.to_string()).collect();
    assert_eq!(strs(&split_on(&cs(text), '_')), std_pieces);
}

#[test]
fn lines_agree_with_the_standard_library() {
    for text in ["", "a", "a\n", "a\nb", "a\r\nb\r\n", "\n\n", "a\rb", "a\r", "x\n\ny\n"] {
        let std_lines: Vec<String> = text.lines().map(|l| l.to_string()).collect();
        assert_eq!(strs(&split_lines(&cs(text))), std_lines, "{:?}", text);
    }
}

#[test]
fn comes_before_is_the_order_of_the_dictionary() {
    assert!(comes_before(&cs("Algebra"), &cs("Biology")));
    assert!(!comes_before(&cs("Biology"), &cs("Algebra")));
    assert!(comes_before(&cs("Bio"), &cs("Biology")));
    assert!(!comes_before(&cs("Bio"), &cs("Bio")));
    assert!(comes_before(&cs(""), &cs("a")));
    for (a, b) in [("a", "b"), ("b", "a"), ("ab", "a"), ("é", "z"), ("Z", "a"), ("", "")] {
        assert_eq!(comes_before(&cs(a), &cs(b)), a < b, "{:?} {:?}", a, b);
    }
}

#[test]
fn normalize_spells_out_ligatures_and_collapses_white_space() {
    assert_eq!(normalize_text("e\u{FB03}cient \u{FB01}nal \u{FB02}ow"), "efficient final flow");
    assert_eq!(normalize_text("\u{0152}uvre \u{00E6}on \u{0133}s \u{00C6}"), "OEuvre aeon ijs AE");
    assert_eq!(normalize_text("\u{201C}hi\u{201D} \u{2018}x\u{2019}"), "\"hi\" 'x'");
    assert_eq!(normalize_text("a\u{2013}b\u{2014}c\u{2026}"), "a-b-c...");
    assert_eq!(normalize_text("a\u{00A0}b"), "a b");
    assert_eq!(normalize_text("  many   spaces\n\nand\tlines  "), "many spaces and lines");
    assert_eq!(normalize_text(" \n\t "), "");
    assert_eq!(normalize_text(""), "");
}

#[test]
fn normalize_is_idempotent() {
    for text in [
        "e\u{FB03}cient  \u{2026} text\n",
        "plain",
        "",
        " \u{00A0} ",
        "\u{FB05}\u{FB06} \u{0132}",
        "a\u{2003}b  c",
    ] {
        let once = normalize_text(text);
        assert_eq!(normalize_text(&once), once);
    }
}

#[test]
fn child_output_is_read_between_the_marks() {
    let out = "noise<<<START_CONTENT>>>alpha  beta\ngamma<<<END_CONTENT>>>trailer";
    assert_eq!(read_child_output(0, out), Ok(Some("alpha beta gamma".to_string())));
    assert_eq!(frame_content("alpha"), "<<<START_CONTENT>>>alpha<<<END_CONTENT>>>");
    assert_eq!(read_child_output(0, &frame_content("x \u{FB01} y")), Ok(Some("x fi y".to_string())));
}

#[test]
fn child_output_without_text_gives_no_document() {
    assert_eq!(read_child_output(0, "<<<START_CONTENT>>>  \n <<<END_CONTENT>>>"), Ok(None));
    assert_eq!(read_child_output(0, "<<<START_CONTENT>>><<<END_CONTENT>>>"), Ok(None));
    assert_eq!(read_child_output(0, "no marks at all"), Ok(None));
    assert_eq!(read_child_output(0, "<<<START_CONTENT>>>never ends"), Ok(None));
    assert_eq!(read_child_output(0, "<<<END_CONTENT>>>x<<<START_CONTENT>>>"), Ok(None));
}

#[test]
fn child_failure_is_an_error() {
    assert_eq!(
        read_child_output(1, "<<<START_CONTENT>>>x<<<END_CONTENT>>>"),
        Err(ProcessingError::PdfExtractionFailed(1))
    );
    assert_eq!(read_child_output(2, ""), Err(ProcessingError::PdfExtractionFailed(2)));
}

#[test]
fn extensions_follow_the_last_dot() {
    assert!(is_pdf_name("hello.pdf"));
    assert!(!is_pdf_name("hello.PDF"));
    assert!(!is_pdf_name("pdf"));
    assert!(!is_pdf_name(".pdf"));
    assert!(is_pdf_name("a.b.pdf"));
    assert!(is_zip_name("bundle.zip"));
    assert!(!is_zip_name("bundle.zip.part"));
    assert!(has_extension("name.", ""));
    assert!(!has_extension("..", ""));
    for name in ["hello.pdf", "a.b.c", ".hidden", "noext", "x.", "..", "a..b"] {
        let std_ext = std::path::Path::new(name).extension().map(|e| e.to_string_lossy().to_string());
        for ext in ["pdf", "c", "", "b", "hidden"] {
            assert_eq!(has_extension(name, ext), std_ext.as_deref() == Some(ext), "{} {}", name, ext);
        }
        let std_stem = std::path::Path::new(name).file_stem().map(|e| e.to_string_lossy().to_string());
        if name != ".." {
            assert_eq!(Some(file_stem(name)), std_stem, "{}", name);
        }
    }
}

#[test]
fn file_names_and_paths() {
    assert_eq!(file_name_of("resources/extracted/a/b.pdf"), "b.pdf");
    assert_eq!(file_name_of("hello.pdf"), "hello.pdf");
    assert_eq!(file_name_of("dir/"), "dir/");
    assert_eq!(join_path("/data/CS101", "resources"), "/data/CS101/resources");
}

#[test]
fn archive_entry_that_escapes_is_refused() {
    assert!(matches!(plan_archive_entry(None, "../../etc/passwd", "/t"), EntryAction::Refuse));
    assert!(matches!(plan_archive_entry(None, "/abs", "/t"), EntryAction::Refuse));
    for path in ["../x", "a/../../x", "/etc/passwd", "a/b/../../../c", "..", "./.."] {
        assert!(path_escapes(path), "{}", path);
        assert!(matches!(plan_archive_entry(Some(path.to_string()), path, "/t"), EntryAction::Refuse));
    }
    for path in ["a", "a/b", "a/../b", "./a", "a//b", "a/b/../..", "", "...", "a/..b"] {
        assert!(!path_escapes(path), "{}", path);
    }
    match plan_archive_entry(Some("docs/a.pdf".to_string()), "docs/a.pdf", "/t/x") {
        EntryAction::WriteFile(p) => assert_eq!(p, "/t/x/docs/a.pdf"),
        other => panic!("unexpected {:?}", other),
    }
    match plan_archive_entry(Some("docs".to_string()), "docs/", "/t/x") {
        EntryAction::CreateDir(p) => assert_eq!(p, "/t/x/docs"),
        other => panic!("unexpected {:?}", other),
    }
}
