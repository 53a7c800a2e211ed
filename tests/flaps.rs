use flapper::alphabet::next_char;
use flapper::animator::{blank_line, flip_flaps, initial_line};

#[test]
fn test_chars() {
    assert_eq!(next_char('A', 'A'), 'A');
    assert_eq!(next_char('A', 'X'), 'B');
    assert_eq!(next_char('~', 'X'), 'X');
    assert_eq!(next_char('~', '\t'), '\t');

    let cycle = "ABCDEFGHIJKLMNOPQRSTUVWXYZabcdefghijklmnopqrstuvwxyz !\"#$%&'()*+,-./0123456789:;<=>?@[\\]^_`{|}~";
    for (current, next) in cycle.chars().zip(cycle.chars().skip(1)) {
        assert_eq!(next_char(current, '\t'), next);
    }
}

#[test]
fn test_flaps() {
    assert_eq!(flip_flaps("AAAA", "ABCD"), Some("ABBB".into()));
    assert_eq!(flip_flaps("ABCD", "ABCD"), None);
    assert_eq!(flip_flaps("~~", "❤️"), Some("❤️".into()));
}

#[test]
fn settled_face_stays() {
    for c in ['A', 'z', ' ', '~', '\t', '❤', '\u{0}'] {
        assert_eq!(next_char(c, c), c);
    }
}

#[test]
fn last_face_jumps_to_any_target() {
    for t in ['A', ' ', '}', '\n', 'é', '❤'] {
        assert_eq!(next_char('~', t), t);
    }
}

#[test]
fn drum_boundaries() {
    assert_eq!(next_char('Z', '\t'), 'a');
    assert_eq!(next_char('z', '\t'), ' ');
    assert_eq!(next_char(' ', '\t'), '!');
    assert_eq!(next_char('@', '\t'), '[');
    assert_eq!(next_char('`', '\t'), '{');
    assert_eq!(next_char('9', '\t'), ':');
}

#[test]
fn off_drum_face_restarts_at_a() {
    assert_eq!(next_char('\n', 'x'), 'A');
    assert_eq!(next_char('é', 'x'), 'A');
    assert_eq!(next_char('\u{7f}', 'x'), 'A');
}

#[test]
fn empty_line_is_settled() {
    assert_eq!(flip_flaps("", ""), None);
}

#[test]
fn settled_columns_hold_while_others_move() {
    assert_eq!(flip_flaps("AZ~", "Ab!"), Some("Aa!".into()));
}

fn run_to_completion(target: &str) -> (usize, String) {
    let mut line = initial_line(target);
    let mut calls = 0;
    loop {
        calls += 1;
        assert!(calls <= 96);
        match flip_flaps(&line, target) {
            Some(next) => {
                assert_eq!(next.chars().count(), target.chars().count());
                line = next;
            }
            None => return (calls, line),
        }
    }
}

#[test]
fn line_settles_after_farthest_column() {
    assert_eq!(run_to_completion("ABCD"), (4, "ABCD".to_string()));
    assert_eq!(run_to_completion("AAAA"), (1, "AAAA".to_string()));
    assert_eq!(run_to_completion("a"), (27, "a".to_string()));
    assert_eq!(run_to_completion("Hi ~"), (95, "Hi ~".to_string()));
}

#[test]
fn off_drum_target_settles_via_last_face() {
    assert_eq!(run_to_completion("❤️"), (96, "❤️".to_string()));
    assert_eq!(run_to_completion("tab\there"), (96, "tab\there".to_string()));
}

#[test]
fn start_and_blank_lines_match_width_in_characters() {
    assert_eq!(initial_line("ABCD"), "AAAA");
    assert_eq!(initial_line("❤️"), "AA");
    assert_eq!(initial_line(""), "");
    assert_eq!(blank_line("héllo"), "     ");
}
