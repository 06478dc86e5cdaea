use bracket_lexer::chars::{
    is_digit, is_letter, is_name_part, is_name_start, is_number_part, is_whitespace,
};
use bracket_lexer::diagnostics::Pos;
use bracket_lexer::identifier::rotate;
use bracket_lexer::decimal::push_decimal;
use bracket_lexer::text::byte_count;

fn rotate_right(text: &str) -> String {
    let mut chars: Vec<char> = text.chars().collect();
    if let Some(last) = chars.pop() {
        chars.insert(0, last);
    }
    chars.into_iter().collect()
}

#[test]
fn rotation_moves_the_first_character_to_the_end() {
    assert_eq!(rotate("len"), "enl");
    assert_eq!(rotate("len_"), "en_l");
    assert_eq!(rotate("len_temp"), "en_templ");
    assert_eq!(rotate("len_in"), "en_inl");
    assert_eq!(rotate("main"), "ainm");
}

#[test]
fn rotation_keeps_short_texts() {
    assert_eq!(rotate(""), "");
    assert_eq!(rotate("x"), "x");
    assert_eq!(rotate("xy"), "yx");
}

#[test]
fn rotation_is_undone_by_the_turn_to_the_right() {
    for text in [
        "", "a", "ab", "len", "len_", "len_temp", "len_in", "main", "aaa", "a1_b2", "ünï",
    ] {
        let turned = rotate(text);
        assert_eq!(turned.chars().count(), text.chars().count());
        assert_eq!(rotate_right(&turned), text);
        assert_eq!(rotate(&rotate_right(text)), text);
    }
}

#[test]
fn rotation_is_one_to_one() {
    let texts = ["abc", "bca", "cab", "acb", "aab", "aba", "baa"];
    for (i, first) in texts.iter().enumerate() {
        for (j, second) in texts.iter().enumerate() {
            assert_eq!(rotate(first) == rotate(second), i == j);
        }
    }
}

#[test]
fn white_space_is_what_the_standard_library_says() {
    for code in 0..=0x10ffffu32 {
        if let Some(c) = char::from_u32(code) {
            assert_eq!(is_whitespace(c), c.is_whitespace(), "U+{code:04X}");
        }
    }
}

#[test]
fn character_classes() {
    for code in 0..=0x10ffffu32 {
        if let Some(c) = char::from_u32(code) {
            assert_eq!(is_digit(c), c.is_ascii_digit(), "U+{code:04X}");
            assert_eq!(is_letter(c), c.is_ascii_alphabetic(), "U+{code:04X}");
            assert_eq!(is_name_start(c), c.is_ascii_alphabetic() || c == '_');
            assert_eq!(is_name_part(c), c.is_ascii_alphanumeric() || c == '_');
            assert_eq!(is_number_part(c), c.is_ascii_digit() || c == '.');
        }
    }
}

#[test]
fn decimal_digits_are_written() {
    for n in [0usize, 1, 9, 10, 11, 99, 100, 101, 1234567890, usize::MAX] {
        let mut out = String::from("n=");
        push_decimal(n, &mut out);
        assert_eq!(out, format!("n={n}"));
    }
}

#[test]
fn bytes_bound_the_characters() {
    assert_eq!(byte_count(""), 0);
    assert_eq!(byte_count("abc"), 3);
    assert_eq!(byte_count("é"), 2);
    for text in ["", "abc", "é€𝄞", "a\nb"] {
        assert!(text.chars().count() <= byte_count(text));
    }
}

#[test]
fn position_starts_at_one_one() {
    assert_eq!(Pos::start(), Pos { line: 1, column: 1 });
}

#[test]
fn position_follows_the_characters() {
    let pos = Pos { line: 3, column: 7 };
    assert_eq!(pos.advance('x'), Pos { line: 3, column: 8 });
    assert_eq!(pos.advance(' '), Pos { line: 3, column: 8 });
    assert_eq!(pos.advance('\r'), Pos { line: 3, column: 8 });
    assert_eq!(pos.advance('\n'), Pos { line: 4, column: 1 });
    assert_eq!(Pos::start().advance('\n').advance('\n').advance('a'), Pos { line: 3, column: 2 });
}
