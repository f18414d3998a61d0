use diamond::{
    diamond, letter_position, letters_upto, to_upper, upper_diamond, InvalidLetterError, UPPERS,
};

fn draw(c: char) -> String {
    diamond(c).unwrap()
}

#[test]
fn single_letter_is_exact() {
    assert_eq!(draw('A'), "A");
}

#[test]
fn two_letters_exact_text() {
    assert_eq!(draw('B'), " A\nB B\n A");
}

#[test]
fn upper_half_ends_with_newline() {
    assert_eq!(upper_diamond('A').unwrap(), "A\n");
    assert_eq!(upper_diamond('C').unwrap(), "  A\n B B\nC   C\n");
}

#[test]
fn no_trailing_whitespace() {
    for c in UPPERS.chars() {
        let d = draw(c);
        assert_eq!(d.trim_end(), d.as_str());
        for line in d.split('\n') {
            assert_eq!(line.trim_end(), line);
        }
    }
}

#[test]
fn lines_read_the_same_both_ways() {
    for c in UPPERS.chars() {
        let d = draw(c);
        let lines: Vec<&str> = d.split('\n').collect();
        let mut reversed = lines.clone();
        reversed.reverse();
        assert_eq!(lines, reversed);
    }
}

#[test]
fn line_count_and_width_follow_position() {
    for (k, c) in UPPERS.chars().enumerate() {
        let d = draw(c);
        let lines: Vec<&str> = d.split('\n').collect();
        assert_eq!(lines.len(), 2 * k + 1);
        let widest = lines.iter().map(|l| l.chars().count()).max().unwrap();
        assert_eq!(widest, 2 * k + 1);
        assert_eq!(lines[k].chars().count(), 2 * k + 1);
    }
}

#[test]
fn lower_case_draws_the_same() {
    assert_eq!(diamond('d'), diamond('D'));
    assert_eq!(diamond('z'), diamond('Z'));
    assert_eq!(letters_upto('c'), Ok(vec!['A', 'B', 'C']));
}

#[test]
fn repeated_calls_agree() {
    assert_eq!(diamond('K'), diamond('K'));
}

#[test]
fn skipped_letter_h_follows_f() {
    assert_eq!(letters_upto('H'), Ok(vec!['A', 'B', 'C', 'D', 'E', 'F', 'H']));
    assert_eq!(letter_position('H'), Some(6));
    assert_eq!(letter_position('Z'), Some(24));
    assert_eq!(letter_position('a'), Some(0));
}

#[test]
fn non_letters_are_refused() {
    for c in ['1', ' ', '@', '?', '\n', 'é'] {
        assert_eq!(diamond(c), Err(InvalidLetterError { letter: c }));
        assert_eq!(upper_diamond(c), Err(InvalidLetterError { letter: c }));
        assert_eq!(letters_upto(c), Err(InvalidLetterError { letter: c }));
        assert_eq!(letter_position(c), None);
    }
}

#[test]
fn letter_g_is_not_in_the_alphabet() {
    assert_eq!(diamond('G'), Err(InvalidLetterError { letter: 'G' }));
    assert_eq!(diamond('g'), Err(InvalidLetterError { letter: 'g' }));
    assert_eq!(letter_position('G'), None);
}

#[test]
fn every_letter_of_the_alphabet_is_accepted() {
    for c in UPPERS.chars() {
        assert!(diamond(c).is_ok());
        assert!(diamond(c.to_ascii_lowercase()).is_ok());
    }
}

#[test]
fn to_upper_maps_only_lower_case_letters() {
    assert_eq!(to_upper('a'), 'A');
    assert_eq!(to_upper('z'), 'Z');
    assert_eq!(to_upper('Q'), 'Q');
    assert_eq!(to_upper('1'), '1');
    assert_eq!(to_upper('{'), '{');
    assert_eq!(to_upper('`'), '`');
}

#[test]
fn widest_diamond_is_forty_nine_lines() {
    let d = draw('Z');
    assert_eq!(d.lines().count(), 49);
    assert_eq!(d.lines().nth(24), Some("Z                                               Z"));
}
