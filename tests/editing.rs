use search_cursor::cursor::Cursor;
use search_cursor::text::{char_len, chars_of, string_of};
use search_cursor::words::{
    classes_differ, classify, get_next_word_pos, get_prev_word_pos, is_separator,
    is_word_boundary, next_word_in, prev_word_in, CharClass,
};

#[test]
fn right_then_left_restores_position() {
    let mut c = Cursor::from(String::from("aöb€c"));
    for _ in 0..2 {
        c.right();
    }
    let before = c.index();
    assert_eq!(before, 3);
    c.right();
    assert_eq!(c.index(), 4);
    c.right();
    assert_eq!(c.index(), 7);
    assert!(c.left());
    assert_eq!(c.index(), 4);
    assert!(c.left());
    assert_eq!(c.index(), before);
}

#[test]
fn insert_then_back_restores_text() {
    let mut c = Cursor::from(String::from("héllo"));
    c.right();
    c.right();
    c.insert('€');
    assert_eq!(c.index(), 6);
    assert_eq!(c.as_str(), "hé€llo");
    assert_eq!(c.back(), Some('€'));
    assert_eq!(c.index(), 3);
    assert_eq!(c.as_str(), "héllo");
}

#[test]
fn steps_stop_at_ends() {
    let mut c = Cursor::from(String::from("ab"));
    assert!(!c.left());
    assert_eq!(c.index(), 0);
    c.end();
    for _ in 0..3 {
        c.right();
        assert_eq!(c.index(), 2);
    }
    assert_eq!(c.char(), None);
}

#[test]
fn four_inserts_come_back_in_reverse() {
    let mut c = Cursor::from(String::from("xy"));
    c.right();
    for ch in ['a', 'ö', '€', '𝄞'] {
        c.insert(ch);
    }
    assert_eq!(c.as_str(), "xaö€𝄞y");
    assert_eq!(c.back(), Some('𝄞'));
    assert_eq!(c.back(), Some('€'));
    assert_eq!(c.back(), Some('ö'));
    assert_eq!(c.back(), Some('a'));
    assert_eq!(c.as_str(), "xy");
    assert_eq!(c.index(), 1);
}

#[test]
fn boundary_invariant_under_mixed_edits() {
    let mut c = Cursor::from(String::from("aé€𝄞 b"));
    let text = "aé€𝄞 b";
    c.right();
    c.right();
    assert!(text.is_char_boundary(c.index()));
    c.next_word();
    assert!(text.is_char_boundary(c.index()));
    c.prev_word();
    assert!(text.is_char_boundary(c.index()));
    c.end();
    assert_eq!(c.index(), text.len());
    c.remove_prev_word();
    assert!(c.as_str().is_char_boundary(c.index()));
    assert!(c.index() <= c.as_str().len());
}

#[test]
fn char_at_cursor() {
    let mut c = Cursor::from(String::from("öa"));
    assert_eq!(c.char(), Some('ö'));
    c.right();
    assert_eq!(c.char(), Some('a'));
    c.right();
    assert_eq!(c.char(), None);
}

#[test]
fn remove_after_cursor() {
    let mut c = Cursor::from(String::from("öab"));
    c.right();
    assert_eq!(c.remove(), Some('a'));
    assert_eq!(c.as_str(), "öb");
    assert_eq!(c.index(), 2);
    c.end();
    assert_eq!(c.remove(), None);
    assert_eq!(c.as_str(), "öb");
}

#[test]
fn remove_words() {
    let mut c = Cursor::from(String::from("foo bar(baz)"));
    c.remove_next_word();
    assert_eq!(c.as_str(), "bar(baz)");
    assert_eq!(c.index(), 0);
    c.end();
    c.remove_prev_word();
    assert_eq!(c.as_str(), "bar(");
    assert_eq!(c.index(), 4);
    c.remove_prev_word();
    assert_eq!(c.as_str(), "");
    assert_eq!(c.index(), 0);
}

#[test]
fn word_moves_on_cursor() {
    let mut c = Cursor::from(String::from("   aaa   ((()))bbb   ((()))   "));
    let forward = [3, 9, 15, 21, 30, 30];
    for i in forward {
        c.next_word();
        assert_eq!(c.index(), i);
    }
    let backward = [21, 15, 9, 3, 0, 0];
    for i in backward {
        c.prev_word();
        assert_eq!(c.index(), i);
    }
}

#[test]
fn word_moves_over_multibyte_text() {
    let s = "héé wörld";
    assert_eq!(get_next_word_pos(s, 0), 6);
    assert_eq!(get_prev_word_pos(s, s.len()), 6);
    assert_eq!(get_prev_word_pos(s, 6), 0);
}

#[test]
fn clear_start_end() {
    let mut c = Cursor::from(String::from("abc"));
    c.end();
    assert_eq!(c.index(), 3);
    c.start();
    assert_eq!(c.index(), 0);
    c.end();
    c.clear();
    assert_eq!(c.as_str(), "");
    assert_eq!(c.index(), 0);
    assert_eq!(c.into_inner(), String::new());
}

#[test]
fn into_inner_gives_text() {
    let mut c = Cursor::from(String::from("ab"));
    c.insert('x');
    assert_eq!(c.into_inner(), String::from("xab"));
}

#[test]
fn character_classes() {
    assert_eq!(classify(' '), CharClass { space: true, separator: false });
    assert_eq!(classify('\t'), CharClass { space: true, separator: false });
    assert_eq!(classify('('), CharClass { space: false, separator: true });
    assert_eq!(classify('x'), CharClass { space: false, separator: false });
    assert!(is_separator('?'));
    assert!(is_separator('\\'));
    assert!(!is_separator('_'));
}

#[test]
fn boundary_rule_on_classes() {
    let space = CharClass { space: true, separator: false };
    let sep = CharClass { space: false, separator: true };
    let word = CharClass { space: false, separator: false };
    assert!(classes_differ(space, word));
    assert!(classes_differ(word, sep));
    assert!(classes_differ(space, sep));
    assert!(!classes_differ(word, word));
    assert!(!classes_differ(sep, sep));
    assert!(!classes_differ(space, space));
}

#[test]
fn boundary_rule_on_chars() {
    assert!(is_word_boundary(' ', 'a'));
    assert!(is_word_boundary('a', '('));
    assert!(is_word_boundary(')', ' '));
    assert!(!is_word_boundary('a', 'b'));
    assert!(!is_word_boundary('(', ')'));
    assert!(!is_word_boundary(' ', '\t'));
}

#[test]
fn word_steps_on_characters() {
    let s = chars_of("ab  cd");
    assert_eq!(next_word_in(&s, 0), 4);
    assert_eq!(next_word_in(&s, 4), 6);
    assert_eq!(prev_word_in(&s, 6), 4);
    assert_eq!(prev_word_in(&s, 4), 0);
    assert_eq!(next_word_in(&Vec::new(), 0), 0);
    assert_eq!(prev_word_in(&Vec::new(), 0), 0);
}

#[test]
fn utf8_widths() {
    assert_eq!(char_len('a'), 1);
    assert_eq!(char_len('ö'), 2);
    assert_eq!(char_len('€'), 3);
    assert_eq!(char_len('𝄞'), 4);
}

#[test]
fn string_round_trip() {
    let v = chars_of("aö€");
    assert_eq!(v, vec!['a', 'ö', '€']);
    assert_eq!(string_of(&v), "aö€");
}
