use fujin::entry::{decoded_char, restore_char_key};
use fujin::host::{BareKey, Key};
use fujin::matcher::{match_one, match_pane, positional_bonus, score, Field};
use fujin::plugin::Event;
use fujin::text::{
    chars_of, decimal, find, is_blank, is_control, is_white, join, lines, parse_u32, parse_u64,
    repeat, slice_of, split, starts_with, trim,
};
use fujin::width::{
    colorable_char_limit, fold_highlight_indices, fold_to_width, pad_left, pad_to_width,
    shift_highlight_indices, truncate, truncate_start,
};
use unicode_width::UnicodeWidthStr;

// --- characters ---

#[test]
fn white_space_is_that_of_the_standard_library() {
    for n in 0..=0x10FFFFu32 {
        if let Some(c) = char::from_u32(n) {
            assert_eq!(is_white(c), c.is_whitespace(), "{:x}", n);
        }
    }
}

#[test]
fn control_characters_are_those_of_the_standard_library() {
    for n in 0..=0x10FFFFu32 {
        if let Some(c) = char::from_u32(n) {
            assert_eq!(is_control(c), c.is_control(), "{:x}", n);
        }
    }
}

// --- texts ---

#[test]
fn trimming_drops_white_space_at_both_ends() {
    assert_eq!(trim("  a b\t\n"), "a b");
    assert_eq!(trim(" \u{3000} "), "");
    assert!(is_blank(" \t"));
    assert!(!is_blank(" x "));
}

#[test]
fn splitting_and_joining() {
    assert_eq!(split("a,b,,c", ','), vec!["a", "b", "", "c"]);
    assert_eq!(split("", ','), vec![""]);
    let parts = vec!["a".to_string(), "b".to_string(), "c".to_string()];
    assert_eq!(join(&parts, ", "), "a, b, c");
    assert_eq!(join(&vec![], ", "), "");
}

#[test]
fn lines_end_with_or_without_a_carriage_return() {
    for text in ["", "a", "a\n", "a\r\nb", "a\n\nb\n", "\n", "a\rb"] {
        assert_eq!(lines(text), text.lines().collect::<Vec<_>>());
    }
}

#[test]
fn decimal_numbers() {
    assert_eq!(decimal(0), "0");
    assert_eq!(decimal(10), "10");
    assert_eq!(decimal(u64::MAX as u128), "18446744073709551615");
    for text in ["0", "7", "+7", "007", "", "-1", "4294967295", "4294967296", "1 ", "+", "x"] {
        assert_eq!(parse_u32(text), text.parse::<u32>().ok(), "{}", text);
    }
    assert_eq!(parse_u64("18446744073709551615"), Some(u64::MAX));
    assert_eq!(parse_u64("18446744073709551616"), None);
}

#[test]
fn parts_of_texts() {
    let chars = chars_of("ab検c");
    assert_eq!(chars.len(), 4);
    assert_eq!(slice_of(&chars, 1, 3), "b検");
    assert!(starts_with("alphabet", "alpha"));
    assert!(!starts_with("al", "alpha"));
    assert_eq!(find(&chars_of("a\"k\":1"), &chars_of("\"k\":")), Some(1));
    assert_eq!(find(&chars_of("abc"), &chars_of("x")), None);
    assert_eq!(repeat('─', 3), "───");
}

// --- widths ---

#[test]
fn a_text_that_fits_is_not_cut() {
    assert_eq!(truncate("abc", 3), "abc");
    assert_eq!(truncate_start("abc", 3), ("abc".to_string(), 0));
    assert_eq!(fold_to_width("", 0), (String::new(), 0));
}

#[test]
fn a_long_text_is_cut_with_a_mark() {
    assert_eq!(truncate("abcdef", 4), "abc…");
    assert_eq!(truncate_start("abcdef", 4), ("…def".to_string(), 3));
}

#[test]
fn plain_characters_and_own_signs_add_one_column() {
    let signs = "›»…×✓─▌▲▵▴▾▸▣○●◆←↑→↓";
    let plain: String = (' '..='~').collect();
    for c in signs.chars().chain(plain.chars()) {
        for before in ["", "a", "検", "e\u{301}", "👩\u{200d}👩", "ក\u{17d2}"] {
            let whole = format!("{}{}", before, c);
            assert_eq!(
                UnicodeWidthStr::width(whole.as_str()),
                UnicodeWidthStr::width(before) + 1,
                "{:?}",
                whole
            );
            // It fits into that many columns, and not into fewer.
            let cols = UnicodeWidthStr::width(whole.as_str());
            assert_eq!(truncate(&whole, cols), whole);
            assert_ne!(truncate(&whole, cols - 1), whole);
        }
    }
}

#[test]
fn letters_of_the_ascii_range_have_their_case() {
    for n in 1..0x80u8 {
        let c = n as char;
        assert_eq!(c.is_lowercase(), c.is_ascii_lowercase());
        assert_eq!(c.is_uppercase(), c.is_ascii_uppercase());
        assert_eq!(c.to_string().to_lowercase(), c.to_ascii_lowercase().to_string());
    }
    assert_eq!(positional_bonus(&['a', 'B'], 1), 8);
    assert_eq!(positional_bonus(&['a', 'b'], 1), 0);
    assert_eq!(positional_bonus(&['ä', 'Ö'], 1), 8);
    assert_eq!(positional_bonus(&['-', 'b'], 1), 12);
}

#[test]
fn wide_characters_count_two_columns() {
    assert_eq!(truncate("全文検索", 8), "全文検索");
    assert_eq!(truncate("全文検索", 7), "全文検…");
    // A third wide character and the mark would take seven columns.
    assert_eq!(truncate("全文検索", 6), "全文…");
    assert_eq!(truncate("全文検索", 4), "全…");
    assert_eq!(truncate_start("全文検索", 5), ("…検索".to_string(), 2));
}

#[test]
fn paths_are_cut_at_their_start() {
    assert_eq!(fold_to_width("/home/me/work", 6), ("…/work".to_string(), 8));
    assert_eq!(fold_to_width("~/deep/work", 6), ("…/work".to_string(), 6));
    assert_eq!(fold_to_width("editor window", 6), ("edito…".to_string(), 0));
}

#[test]
fn padding_goes_by_columns() {
    assert_eq!(pad_left("+1", 4), "  +1");
    assert_eq!(pad_left("検", 4), "  検");
    assert_eq!(pad_left("toolong", 3), "toolong");
    assert_eq!(pad_to_width("検a".to_string(), 5), "検a  ");
    assert_eq!(pad_to_width("abc".to_string(), 2), "abc");
}

#[test]
fn hits_follow_a_text_that_was_cut() {
    assert_eq!(colorable_char_limit(4, 6), 3);
    assert_eq!(colorable_char_limit(6, 6), 6);
    assert_eq!(colorable_char_limit(0, 6), 0);
    // The prefix moves them to the right; what was cut off is not coloured.
    assert_eq!(shift_highlight_indices(&vec![0, 2, 9], 4, 8, 20), vec![4, 6]);
    assert_eq!(fold_highlight_indices(&vec![0, 1, 4], "abc…", 0, 9, 2), vec![2, 3]);
    // Five characters at the start are gone, and the mark takes one place.
    assert_eq!(fold_highlight_indices(&vec![2, 5, 7], "…fgh", 5, 8, 6), vec![7, 9]);
}

// --- characters of key events ---

#[test]
fn code_points_become_characters() {
    assert_eq!(decoded_char(Some('検' as i32)), Some('検'));
    assert_eq!(decoded_char(Some(0x61)), Some('a'));
    assert_eq!(decoded_char(Some(-1)), None);
    assert_eq!(decoded_char(Some(0xD800)), None);
    assert_eq!(decoded_char(Some(0x110000)), None);
    assert_eq!(decoded_char(None), None);
}

#[test]
fn a_typed_character_is_put_into_its_event() {
    let key = Key { shift: true, ..Key::plain(BareKey::Char('\u{9d}')) };
    match restore_char_key(Event::InterceptedKeyPress(key), Some('検')) {
        Event::InterceptedKeyPress(key) => {
            assert_eq!(key.bare, BareKey::Char('検'));
            assert!(key.shift);
        }
        other => panic!("{:?}", other),
    }
    assert!(matches!(restore_char_key(Event::Visible(true), Some('x')), Event::Visible(true)));
    match restore_char_key(Event::InterceptedKeyPress(Key::plain(BareKey::Enter)), None) {
        Event::InterceptedKeyPress(key) => assert_eq!(key.bare, BareKey::Enter),
        other => panic!("{:?}", other),
    }
}

// --- scores ---

#[test]
fn the_start_of_a_word_scores_more() {
    let text: Vec<char> = "src/mainFile".chars().collect();
    assert!(positional_bonus(&text, 0) > positional_bonus(&text, 1));
    assert!(positional_bonus(&text, 4) > positional_bonus(&text, 5));
    assert!(positional_bonus(&text, 8) > positional_bonus(&text, 9));
    assert!(score(&text, &[4, 5, 6]) > score(&text, &[4, 6, 9]));
    assert_eq!(score(&text, &[]), 0);
}

#[test]
fn a_match_names_rising_places_of_the_query() {
    let query: Vec<char> = "smf".chars().collect();
    let (points, places) = match_one(&query, "src/mainFile", false).expect("matches");
    let text: Vec<char> = "src/mainFile".chars().collect();
    assert!(points > 0);
    assert!(places.windows(2).all(|w| w[0] < w[1]));
    let found: String = places.iter().map(|&i| text[i].to_ascii_lowercase()).collect();
    assert_eq!(found, "smf");
}

#[test]
fn a_hit_lies_in_one_field() {
    let hit = match_pane("web", "logs", "web server", None).expect("matches");
    assert_eq!(hit.field, Field::Tab);
    assert_eq!(hit.indices, vec![0, 1, 2]);
}
