use lazymenu_cli::text::{
    chars_of, contains_text, is_blank, is_in_word, join_texts, lower, push_decimal, push_hexadecimal, push_signed_decimal, same_text,
    split_words, string_between, trim, truncate_text,
};

#[test]
fn white_space_is_what_unicode_says() {
    for character in '\0'..=char::MAX {
        let is_space = matches!(
            u32::from(character),
            0x09..=0x0d
                | 0x20
                | 0x85
                | 0xa0
                | 0x1680
                | 0x2000..=0x200a
                | 0x2028
                | 0x2029
                | 0x202f
                | 0x205f
                | 0x3000
        );
        assert_eq!(is_blank(&character.to_string()), is_space);
    }
}

#[test]
fn ascii_words_are_made_of_letters_and_digits() {
    for character in '\0'..='\u{7f}' {
        assert_eq!(is_in_word(character), character.is_ascii_alphanumeric());
    }
    assert!(is_in_word('é'));
    assert!(is_in_word('٣'));
    assert!(!is_in_word('—'));
}

#[test]
fn lowering_maps_letters_and_keeps_the_rest() {
    assert_eq!(lower("Run-2 TESTS[@`{]"), "run-2 tests[@`{]");
    assert_eq!(lower("ÉΟΔΟΣ"), "éοδος");
    for character in '\0'..=char::MAX {
        let once = lower(&character.to_string());
        assert_eq!(lower(&once), once);
        if character.is_ascii() {
            assert_eq!(once, character.to_ascii_lowercase().to_string());
        }
    }
}

#[test]
fn texts_are_found_among_others() {
    let values = vec!["a".to_owned(), "b".to_owned()];
    assert!(contains_text(&values, &"b".to_owned()));
    assert!(!contains_text(&values, &"B".to_owned()));
}

#[test]
fn blank_text_is_empty_or_white_space() {
    assert!(is_blank(""));
    assert!(is_blank(" \t\n\u{3000}"));
    assert!(!is_blank(" a "));
}

#[test]
fn trimming_takes_white_space_off_both_ends() {
    assert_eq!(trim("  a b\t"), "a b");
    assert_eq!(trim("a"), "a");
    assert_eq!(trim(" \n "), "");
    assert_eq!(trim(""), "");
    assert_eq!(trim(&trim("\u{a0}é ")), "é");
}

#[test]
fn words_are_separated_by_white_space() {
    assert_eq!(split_words(" dply \t prod\n"), vec!["dply", "prod"]);
    assert_eq!(split_words("one"), vec!["one"]);
    assert!(split_words("  ").is_empty());
    assert!(split_words("").is_empty());
}

#[test]
fn texts_are_joined_with_a_separator() {
    assert_eq!(join_texts(&vec![], " "), "");
    assert_eq!(join_texts(&vec!["a".to_owned()], " "), "a");
    assert_eq!(
        join_texts(&vec!["a".to_owned(), String::new(), "c".to_owned()], "--"),
        "a----c"
    );
}

#[test]
fn long_text_is_cut_with_an_ellipsis() {
    assert_eq!(truncate_text("menu", 4), "menu");
    assert_eq!(truncate_text("menus", 4), "men…");
    assert_eq!(truncate_text("éèê", 2), "é…");
    assert_eq!(truncate_text("ab", 1), "…");
    assert_eq!(truncate_text("ab", 0), "");
    assert_eq!(truncate_text("", 0), "");
}

#[test]
fn strings_and_characters_go_back_and_forth() {
    let chars = chars_of("aéb");
    assert_eq!(chars, vec!['a', 'é', 'b']);
    assert_eq!(string_between(&chars, 1, 3), "éb");
    assert_eq!(string_between(&chars, 2, 2), "");
    assert!(same_text("é", "é"));
    assert!(!same_text("é", "e"));
}

#[test]
fn numbers_are_written_out() {
    let mut out = "n=".to_owned();
    push_decimal(&mut out, 0);
    out.push(' ');
    push_decimal(&mut out, u64::MAX);
    out.push(' ');
    push_signed_decimal(&mut out, i32::MIN);
    out.push(' ');
    push_signed_decimal(&mut out, 130);
    out.push(' ');
    push_hexadecimal(&mut out, 0xab3, 5);
    out.push(' ');
    push_hexadecimal(&mut out, 0xab3, 2);
    assert_eq!(out, "n=0 18446744073709551615 -2147483648 130 00ab3 b3");
}
