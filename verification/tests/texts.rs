use iedocs::error::ApiError;
use iedocs::filename::{content_disposition, is_header_text, sanitize_filename};
use iedocs::index::{clean_search_query, cut_for_index, normalize_text_for_index, search_documents};
use iedocs::layout::{paginate, plain_text_pages, split_paragraphs, wrap_line};
use iedocs::number::{decimal, parse_i64, parse_usize};
use iedocs::search::{contains, ends_with, replace, starts_with};
use iedocs::text::{is_whitespace, split_words, trim};
use iedocs::word::{decode_xml_entities, extract_word_text_nodes};

#[test]
fn white_space_is_what_the_standard_library_calls_so() {
    for u in 0..=0x10ffff_u32 {
        if let Some(c) = char::from_u32(u) {
            assert_eq!(is_whitespace(c), c.is_whitespace(), "U+{:04X}", u);
        }
    }
}

#[test]
fn trimming_takes_white_space_off_both_ends() {
    for s in ["", " ", "a", "  a b ", "\u{3000}x\u{a0}", "\r\n\t", "ж "] {
        assert_eq!(trim(s), s.trim());
    }
}

#[test]
fn words_are_parted_by_white_space() {
    for s in ["", "  ", "a", " a  b\u{2003}c\n", "один\tдва"] {
        let chars: Vec<char> = s.chars().collect();
        let words: Vec<String> =
            split_words(&chars).iter().map(|w| w.iter().collect()).collect();
        let expected: Vec<&str> = s.split_whitespace().collect();
        assert_eq!(words, expected);
    }
}

#[test]
fn parts_are_found_and_replaced() {
    assert!(starts_with("word/x", "word/"));
    assert!(!starts_with("wor", "word/"));
    assert!(ends_with("a.xml", ".xml"));
    assert!(!ends_with("xml", ".xml"));
    assert!(contains("a..b", ".."));
    assert!(!contains("a.b.", ".."));
    let chars = |s: &str| s.chars().collect::<Vec<char>>();
    let out = replace(&chars("aaa"), &chars("aa"), &chars("b"));
    assert_eq!(out, chars("ba"));
}

#[test]
fn index_text_is_one_line() {
    assert_eq!(normalize_text_for_index("  a\n\tb  c "), "a b c");
    assert_eq!(normalize_text_for_index(" \n "), "");
    assert_eq!(normalize_text_for_index(""), "");
}

#[test]
fn index_text_is_cut() {
    let long = "я".repeat(400_001);
    assert_eq!(normalize_text_for_index(&long).chars().count(), 400_000);
    assert_eq!(cut_for_index(&long).chars().count(), 400_000);
    assert_eq!(cut_for_index("short  text"), "short  text");
}

#[test]
fn index_text_is_kept_when_normalized_again() {
    let once = normalize_text_for_index(" x \n y z ");
    assert_eq!(normalize_text_for_index(&once), once);
}

#[test]
fn a_cut_can_leave_a_space_at_the_end() {
    let text = format!("{} b", "a".repeat(399_999));
    let once = normalize_text_for_index(&text);
    assert!(once.ends_with(' '));
    assert_eq!(once.chars().count(), 400_000);
    assert_eq!(normalize_text_for_index(&once), once.trim_end());
}

#[test]
fn queries_are_trimmed_and_cut() {
    assert_eq!(clean_search_query("  договор ".to_owned()), Some("договор".to_owned()));
    assert_eq!(clean_search_query(" \t\n".to_owned()), None);
    assert_eq!(clean_search_query(String::new()), None);
    let long = "ы".repeat(201);
    assert_eq!(clean_search_query(long).unwrap().chars().count(), 200);
}

#[test]
fn searches_are_bounded() {
    assert_eq!(search_documents(None, None).limit, 25);
    assert_eq!(search_documents(None, Some(0)).limit, 1);
    assert_eq!(search_documents(None, Some(-7)).limit, 1);
    assert_eq!(search_documents(None, Some(i64::MAX)).limit, 100);
    assert_eq!(search_documents(None, Some(42)).limit, 42);
    assert!(search_documents(Some("  ".to_owned()), None).query.is_none());
    assert_eq!(search_documents(Some(" a ".to_owned()), None).query.unwrap(), "a");
}

#[test]
fn file_names_are_made_safe() {
    assert_eq!(sanitize_filename("report-1_final.PDF"), "report-1_final.PDF");
    assert_eq!(sanitize_filename("a b/c\"d"), "a_b_c_d");
    assert_eq!(sanitize_filename("договор.pdf"), "_______.pdf");
    assert_eq!(sanitize_filename(""), "document.pdf");
    let once = sanitize_filename("x\r\ny");
    assert_eq!(once, "x__y");
    assert_eq!(sanitize_filename(&once), once);
}

#[test]
fn headers_carry_file_names() {
    let header = content_disposition("a.pdf");
    assert_eq!(header, "attachment; filename=\"a.pdf\"");
    assert!(is_header_text(&header));
    for s in ["", "text/plain", "a\tb", "ж", "a\nb", "\u{7f}", "\u{0}"] {
        assert_eq!(
            is_header_text(s),
            axum::http::HeaderValue::from_str(s).is_ok(),
            "{:?}",
            s
        );
    }
}

#[test]
fn lines_are_wrapped_between_words() {
    assert_eq!(wrap_line("aaa bbb ccc", 7), vec!["aaa bbb", "ccc"]);
    assert_eq!(wrap_line("aaa bbb ccc", 6), vec!["aaa", "bbb", "ccc"]);
    assert_eq!(wrap_line("  a   b  ", 100), vec!["a b"]);
    assert_eq!(wrap_line("abcdefgh ij", 3), vec!["abcdefgh", "ij"]);
    assert_eq!(wrap_line("a b", 0), vec!["a", "b"]);
    assert_eq!(wrap_line("йцу кен", 7), vec!["йцу кен"]);
    assert!(wrap_line("", 10).is_empty());
    assert!(wrap_line(" \t", 10).is_empty());
}

#[test]
fn wrapped_lines_hold_the_words() {
    let text = "one two  three four five six seven";
    let lines = wrap_line(text, 10);
    let all = lines.join(" ");
    let words: Vec<&str> = all.split_whitespace().collect();
    let expected: Vec<&str> = text.split_whitespace().collect();
    assert_eq!(words, expected);
    assert!(lines.iter().all(|l| l.chars().count() <= 10));
}

#[test]
fn wrapping_again_changes_nothing() {
    for text in ["", "one", " a  bb\tccc dddd\neeeee ", "a long-long-long word in it"] {
        for max in 0..30 {
            let lines = wrap_line(text, max);
            assert_eq!(wrap_line(&lines.join("\n"), max), lines);
        }
    }
}

#[test]
fn narrower_lines_are_not_fewer() {
    let text = "a bb ccc dddd eeeee ffffff eeeee dddd ccc bb a";
    let counts: Vec<usize> = (0..60).map(|max| wrap_line(text, max).len()).collect();
    assert!(counts.windows(2).all(|c| c[0] >= c[1]));
    assert_eq!(counts[0], 11);
    assert_eq!(counts[9], 7);
    assert_eq!(counts[46], 1);
}

#[test]
fn paragraphs_are_lines() {
    for s in ["", "a", "a\n", "a\nb", "a\r\nb\r", "\n\n", "a\n\nb\n", "\r\n", "\r"] {
        let expected: Vec<&str> = s.lines().collect();
        assert_eq!(split_paragraphs(s), expected, "{:?}", s);
    }
}

#[test]
fn pages_are_filled_in_order() {
    let lines: Vec<String> = ["1", "2", "3", "4", "5"].iter().map(|s| s.to_string()).collect();
    assert_eq!(paginate(&lines, 2), vec![vec!["1", "2"], vec!["3", "4"], vec!["5"]]);
    assert_eq!(paginate(&lines, 5), vec![vec!["1", "2", "3", "4", "5"]]);
    let none: Vec<String> = Vec::new();
    assert_eq!(paginate(&none, 3), vec![Vec::<String>::new()]);
}

#[test]
fn text_is_printed_with_blank_lines() {
    let pages = plain_text_pages("a b\n\nc", 2);
    assert_eq!(pages, vec![vec!["a b", ""], vec!["c"]]);
    let wide = "x ".repeat(60);
    let pages = plain_text_pages(&wide, 10);
    assert_eq!(pages.len(), 1);
    assert_eq!(pages[0].len(), 2);
    assert_eq!(pages[0][0].len(), 99);
    assert_eq!(plain_text_pages("", 4), vec![Vec::<String>::new()]);
}

#[test]
fn entities_are_decoded() {
    assert_eq!(decode_xml_entities("a &lt;b&gt; &quot;c&quot; &apos;d&apos; &amp;"), "a <b> \"c\" 'd' &");
    assert_eq!(decode_xml_entities("&amp;lt;"), "<");
    assert_eq!(decode_xml_entities("no entities"), "no entities");
    assert_eq!(decode_xml_entities("&unknown; &am"), "&unknown; &am");
}

#[test]
fn text_elements_are_read() {
    let xml = "<w:p><w:r><w:t xml:space=\"preserve\"> Hello </w:t></w:r><w:r><w:t>A &amp; B</w:t></w:r></w:p>";
    assert_eq!(extract_word_text_nodes(xml), "Hello A & B");
    assert_eq!(extract_word_text_nodes("<w:t> </w:t><w:t>x</w:t>"), "x");
    assert_eq!(extract_word_text_nodes("<w:t>open"), "");
    assert_eq!(extract_word_text_nodes("<w:t"), "");
    assert_eq!(extract_word_text_nodes(""), "");
    assert_eq!(extract_word_text_nodes("<w:tab/><w:t>x</w:t>"), "<w:t>x");
}

#[test]
fn numbers_are_read() {
    for s in ["", "0", "25", "+7", "-1", "007", "+", "-", "1 ", "18446744073709551615",
        "18446744073709551616", "99999999999999999999999999", "１"] {
        assert_eq!(parse_usize(s), s.parse::<usize>().ok(), "{:?}", s);
    }
    for s in ["", "0", "-0", "60", "+7", "-1", "--1", "-", "9223372036854775807",
        "9223372036854775808", "-9223372036854775808", "-9223372036854775809", "1.5"] {
        assert_eq!(parse_i64(s), s.parse::<i64>().ok(), "{:?}", s);
    }
}

#[test]
fn numbers_are_written() {
    for n in [0usize, 7, 10, 26_214_400, usize::MAX] {
        assert_eq!(decimal(n), n.to_string());
        assert_eq!(parse_usize(&decimal(n)), Some(n));
    }
}

#[test]
fn refusals_have_a_status_and_a_message() {
    let cases = [
        (ApiError::unauthorized("x"), 401, "unauthorized: x"),
        (ApiError::bad_request("x"), 400, "bad request: x"),
        (ApiError::not_found("x"), 404, "not found: x"),
        (ApiError::internal("x"), 500, "internal error: x"),
        (ApiError::bad_request_with("a", "b"), 400, "bad request: ab"),
        (ApiError::internal_with("a", "b"), 500, "internal error: ab"),
    ];
    for (error, status, message) in cases {
        assert_eq!(error.status(), status);
        assert_eq!(error.message(), message);
    }
}

#[test]
fn texts_with_the_same_words_are_indexed_alike() {
    assert_eq!(normalize_text_for_index("a b\tc"), normalize_text_for_index("\na  b c\n"));
    let text = " \u{3000}x  y\n";
    assert_eq!(normalize_text_for_index(text.trim()), normalize_text_for_index(text));
}

#[test]
fn printing_keeps_the_words() {
    let text = format!("first line\r\n\n{}\nlast", "word ".repeat(70));
    let pages = plain_text_pages(&text, 3);
    let printed: Vec<String> = pages.into_iter().flatten().collect();
    let all = printed.join("\n");
    let words: Vec<&str> = all.split_whitespace().collect();
    let expected: Vec<&str> = text.split_whitespace().collect();
    assert_eq!(words, expected);
    assert!(printed.iter().all(|line| line.chars().count() <= 100));
}
