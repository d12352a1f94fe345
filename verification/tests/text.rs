use wdfist::filename::{is_good_filetype, normalize};
use wdfist::sort::sort_dedup;
use wdfist::text::{
    can_cut, chars_of, cut_bytes, decimal_text, is_white_space, replace_char, same_text, split_on,
    text_of, trim,
};

fn strings(texts: &[&str]) -> Vec<String> {
    texts.iter().map(|s| s.to_string()).collect()
}

#[test]
fn white_space_is_what_std_says() {
    for n in 0..=0x10ffffu32 {
        if let Some(c) = char::from_u32(n) {
            assert_eq!(is_white_space(c), c.is_whitespace(), "{:x}", n);
        }
    }
}

#[test]
fn trim_takes_white_space_off_both_ends() {
    assert_eq!(trim("\u{3000} a b\t\n"), "a b");
    assert_eq!(trim("x"), "x");
    assert_eq!(trim(" \n "), "");
    assert_eq!(trim(""), "");
    for s in ["  foo bar ", "\u{a0}ä", "ä\u{2028}", "a\u{200b} "] {
        assert_eq!(trim(s), s.trim());
        assert_eq!(trim(trim(s).as_str()), trim(s));
    }
}

#[test]
fn replace_char_turns_each_one() {
    assert_eq!(replace_char("a b  c", ' ', '_'), "a_b__c");
    assert_eq!(replace_char("", ' ', '_'), "");
    assert_eq!(replace_char("ä", 'ä', 'o'), "o");
}

#[test]
fn split_on_keeps_empty_pieces() {
    assert_eq!(split_on("a\n\nb\n", '\n'), strings(&["a", "", "b", ""]));
    assert_eq!(split_on("", '\n'), strings(&[""]));
    assert_eq!(split_on("ab", '\n'), strings(&["ab"]));
    assert_eq!(split_on("a\nb\n", '\n').join("\n"), "a\nb\n");
}

#[test]
fn bytes_are_cut_between_characters() {
    assert!(can_cut("File:a.jpg", 5));
    assert_eq!(cut_bytes("File:a.jpg", 5), "a.jpg");
    assert_eq!(cut_bytes("Datei", 5), "");
    assert_eq!(cut_bytes("Q42", 1), "42");
    assert_eq!(cut_bytes("éa", 2), "a");
    assert_eq!(cut_bytes("x", 0), "x");
    assert!(!can_cut("abc", 5));
    assert!(!can_cut("Dateä", 5));
    assert!(!can_cut("", 1));
    assert!(can_cut("", 0));
}

#[test]
fn numbers_are_written_in_decimal() {
    for n in [0, 9, 10, 100, 1481, u64::MAX] {
        assert_eq!(decimal_text(n), n.to_string());
    }
}

#[test]
fn texts_are_compared_by_characters() {
    assert!(same_text("jpg", "jpg"));
    assert!(!same_text("jpg", "jpeg"));
    assert!(!same_text("jpg", "JPG"));
    assert!(same_text("", ""));
}

#[test]
fn characters_make_the_text_again() {
    let chars = chars_of("aäb");
    assert_eq!(chars, vec!['a', 'ä', 'b']);
    assert_eq!(text_of(&chars, 1, 3), "äb");
    assert_eq!(text_of(&chars, 1, 1), "");
}

#[test]
fn strings_are_sorted_each_once() {
    assert_eq!(
        sort_dedup(strings(&["b", "é", "a", "b", "Z", "ab", ""])),
        strings(&["", "Z", "a", "ab", "b", "é"])
    );
    assert_eq!(sort_dedup(vec![]), strings(&[]));
    assert_eq!(sort_dedup(strings(&["Q2", "Q10", "Q1"])), strings(&["Q1", "Q10", "Q2"]));
}

#[test]
fn file_names_are_normalized() {
    assert_eq!(normalize("  Foo bar.jpg\n"), "Foo_bar.jpg");
    assert_eq!(normalize("Foo  bar.jpg"), "Foo__bar.jpg");
    assert_eq!(normalize("Foo\tbar.jpg"), "Foo\tbar.jpg");
    assert_eq!(normalize(""), "");
    assert_eq!(normalize(normalize(" a b ").as_str()), normalize(" a b "));
}

#[test]
fn file_types_are_judged() {
    let good = |allow_svg: bool, only_jpeg: bool, name: &str, filetype: &str| {
        is_good_filetype(allow_svg, only_jpeg, &name.to_string(), &filetype.to_string())
    };
    assert!(good(false, false, "a.jpg", "jpg"));
    assert!(good(false, true, "a.jpg", "jpg"));
    assert!(good(false, true, "a.jpeg", "jpeg"));
    assert!(!good(false, true, "a.png", "png"));
    assert!(good(false, false, "a.png", "png"));
    assert!(!good(true, true, "a.svg", "svg"));
    assert!(good(true, false, "a.svg", "svg"));
    assert!(!good(false, false, "a.svg", "svg"));
    assert!(!good(true, false, "a.pdf", "pdf"));
    assert!(!good(true, false, "a.gif", "gif"));
    // An SVG file is not held to the key phrases.
    assert!(good(true, false, "Flag_of_a.svg", "svg"));
    assert!(!good(true, false, "Flag_of_a.png", "png"));
    assert!(good(false, false, "600px_a.jpg", "jpg"));
    assert!(!good(false, false, "600px_a.png", "png"));
}
