use ferris_says::width::width;
use ferris_says::{
    fit_lines, longest_line, perform, render, say, think, wrap, Config, Eyes, Mode, RenderError,
};

fn said(input: &str, max_width: usize, eyes: Eyes) -> String {
    let mut out = Vec::new();
    say(input.as_bytes(), max_width, &mut out, eyes).unwrap();
    String::from_utf8(out).unwrap()
}

fn thought(input: &str, max_width: usize, eyes: Eyes) -> String {
    let mut out = Vec::new();
    think(input.as_bytes(), max_width, &mut out, eyes).unwrap();
    String::from_utf8(out).unwrap()
}

fn strings(v: &[&str]) -> Vec<String> {
    v.iter().map(|s| s.to_string()).collect()
}

/// The rows between the top and the bottom border.
fn body_rows(picture: &str) -> Vec<String> {
    let lines: Vec<&str> = picture.split('\n').collect();
    let bottom = lines.iter().position(|l| l.starts_with(" -")).unwrap();
    lines[1..bottom].iter().map(|s| s.to_string()).collect()
}

#[test]
fn width_counts_columns_not_bytes() {
    assert_eq!(width("abc"), 3);
    assert_eq!(width("突然の死👻"), 10);
    assert_eq!(width("é"), 1);
    assert_eq!(width("a\tb"), 2);
    assert_eq!(width(""), 0);
}

#[test]
fn wrap_breaks_at_whitespace() {
    assert_eq!(
        wrap("Hello fellow Rustaceans!", 12),
        strings(&["Hello fellow", "Rustaceans!"])
    );
    assert_eq!(
        wrap("Hello fellow Rustaceans!", 6),
        strings(&["Hello", "fellow", "Rustac", "eans!"])
    );
}

#[test]
fn wrap_of_empty_text_is_one_empty_line() {
    assert_eq!(wrap("", 10), strings(&[""]));
}

#[test]
fn wrap_keeps_forced_breaks() {
    assert_eq!(wrap("one\ntwo", 40), strings(&["one", "two"]));
}

#[test]
fn wrap_never_exceeds_the_width() {
    let text = "a\n     b  ccccccccc dd\n\n  日本語のテキスト e";
    for w in 2..12 {
        for line in wrap(text, w) {
            assert!(width(&line) <= w, "{:?} is wider than {}", line, w);
        }
    }
}

#[test]
fn wrap_puts_a_too_wide_character_alone() {
    let lines = wrap("日本", 1);
    assert_eq!(lines, strings(&["日", "本"]));
}

#[test]
fn fit_lines_splits_like_str_lines() {
    assert_eq!(fit_lines("a\r\nb\n", 10), strings(&["a", "b"]));
    assert_eq!(fit_lines("a\n\nb", 10), strings(&["a", "", "b"]));
    assert_eq!(fit_lines("a\r", 10), strings(&["a\r"]));
    assert_eq!(fit_lines("", 10), strings(&[""]));
    assert_eq!(fit_lines("\n", 10), strings(&[""]));
}

#[test]
fn fit_lines_cuts_between_characters() {
    assert_eq!(fit_lines("abcdef", 4), strings(&["abcd", "ef"]));
    assert_eq!(fit_lines("日本語", 4), strings(&["日本", "語"]));
    assert_eq!(fit_lines("a日本", 2), strings(&["a", "日", "本"]));
    let combined = "e\u{301}e\u{301}";
    assert_eq!(fit_lines(combined, 1), strings(&["e\u{301}", "e\u{301}"]));
}

#[test]
fn longest_line_measures_display_width() {
    assert_eq!(longest_line(&strings(&["ab", "日本語", "c"])), 6);
    assert_eq!(longest_line(&Vec::new()), 0);
}

#[test]
fn single_line_uses_angle_brackets() {
    let picture = said("Hello fellow Rustaceans!", 24, Eyes::Regular);
    let rows = body_rows(&picture);
    assert_eq!(rows, vec!["< Hello fellow Rustaceans! >".to_string()]);
    assert!(picture.starts_with(&format!(" {}\n", "_".repeat(26))));
}

#[test]
fn two_lines_use_slashes() {
    let rows = body_rows(&said("Hello fellow Rustaceans!", 12, Eyes::Regular));
    assert_eq!(rows, vec!["/ Hello fellow \\".to_string(), "\\ Rustaceans!  /".to_string()]);
}

#[test]
fn middle_lines_use_bars() {
    let rows = body_rows(&said("Hello fellow Rustaceans!", 6, Eyes::Regular));
    assert_eq!(rows.len(), 4);
    assert!(rows[0].starts_with("/ ") && rows[0].ends_with(" \\"));
    for row in &rows[1..3] {
        assert!(row.starts_with("| ") && row.ends_with(" |"));
    }
    assert!(rows[3].starts_with("\\ ") && rows[3].ends_with(" /"));
}

#[test]
fn wide_characters_take_two_columns_in_the_box() {
    let picture = said("漢字 text", 40, Eyes::Regular);
    let lines: Vec<&str> = picture.split('\n').collect();
    assert_eq!(lines[0], format!(" {}", "_".repeat(11)));
    assert_eq!(lines[1], "< 漢字 text >");
    assert_eq!(lines[2], format!(" {}", "-".repeat(11)));
}

#[test]
fn rows_are_equally_wide() {
    let picture = said("a bb ccc 日本 dddd", 4, Eyes::Regular);
    let rows = body_rows(&picture);
    let box_width = longest_line(&wrap("a bb ccc 日本 dddd", 4));
    assert!(rows.len() > 2);
    for row in rows {
        assert_eq!(width(&row), box_width + 4);
    }
}

#[test]
fn borders_are_equally_wide() {
    let picture = said("a bb ccc", 3, Eyes::Regular);
    let lines: Vec<&str> = picture.split('\n').collect();
    let bottom = lines.iter().find(|l| l.starts_with(" -")).unwrap();
    assert_eq!(width(lines[0]), 3 + 3);
    assert_eq!(width(bottom), 3 + 3);
}

#[test]
fn empty_input_gives_an_empty_box() {
    let picture = said("", 40, Eyes::Regular);
    assert!(picture.starts_with(" __\n<  >\n --\n"));
}

#[test]
fn think_differs_from_say_only_in_the_trail() {
    let s = said("Hello fellow Rustaceans!", 12, Eyes::Regular);
    let t = thought("Hello fellow Rustaceans!", 12, Eyes::Regular);
    assert_eq!(s.len(), t.len());
    let diffs: Vec<(char, char)> =
        s.chars().zip(t.chars()).filter(|(a, b)| a != b).collect();
    assert_eq!(diffs, vec![('\\', 'o'), ('\\', 'o')]);
    assert!(t.contains("\n        o\n         o\n"));
}

#[test]
fn eyes_change_only_the_eyes() {
    let all = [
        (Eyes::Regular, 'o'),
        (Eyes::Greedy, '$'),
        (Eyes::Youthful, '.'),
        (Eyes::Paranoid, '@'),
        (Eyes::Dead, 'x'),
        (Eyes::Tired, '-'),
        (Eyes::Crying, 'T'),
        (Eyes::Happy, '^'),
    ];
    let regular = said("hi", 40, Eyes::Regular);
    for (eyes, glyph) in all {
        let picture = said("hi", 40, eyes);
        assert!(picture.contains(&format!("        \\) /  {} {}  \\ (/\n", glyph, glyph)));
        let diffs = regular
            .chars()
            .zip(picture.chars())
            .filter(|(a, b)| a != b)
            .count();
        assert_eq!(diffs, if glyph == 'o' { 0 } else { 2 });
    }
}

#[test]
fn perform_refuses_malformed_utf8() {
    let mut out = vec![1u8, 2];
    let config = Config { mode: Mode::Say, eyes: Eyes::Regular };
    let r = perform(&[0x61, 0xff, 0x62], 40, &mut out, config);
    assert_eq!(r, Err(RenderError::InvalidEncoding));
    assert_eq!(out, vec![1u8, 2]);
    let r = perform(&[0xe6, 0x97], 40, &mut out, config);
    assert_eq!(r, Err(RenderError::InvalidEncoding));
    assert_eq!(out, vec![1u8, 2]);
}

#[test]
fn perform_appends_to_what_is_there() {
    let mut out = b"x".to_vec();
    let config = Config { mode: Mode::Think, eyes: Eyes::Dead };
    perform("hi".as_bytes(), 40, &mut out, config).unwrap();
    let expected = format!("x{}", thought("hi", 40, Eyes::Dead));
    assert_eq!(String::from_utf8(out).unwrap(), expected);
}

#[test]
fn render_draws_given_lines() {
    let mut out = Vec::new();
    render(&strings(&["ab", "日", "c"]), Mode::Say, Eyes::Happy, &mut out);
    let expected = [
        " ____\n",
        "/ ab \\\n",
        "| 日 |\n",
        "\\ c  /\n",
        " ----\n",
        "        \\\n",
        "         \\\n",
        "            _~^~^~_\n",
        "        \\) /  ^ ^  \\ (/\n",
        "          '_   -   _'\n",
        "          / '-----' \\\n",
    ]
    .join("");
    assert_eq!(String::from_utf8(out).unwrap(), expected);
}

#[test]
fn large_picture_leaves_the_inline_buffer() {
    let text = "word ".repeat(2000);
    let picture = said(&text, 40, Eyes::Regular);
    assert!(picture.len() > 4096);
    for row in body_rows(&picture) {
        assert_eq!(width(&row), longest_line(&wrap(&text, 40)) + 4);
    }
}
