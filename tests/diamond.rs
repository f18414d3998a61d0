use diamond::{diamond, letters_upto, upper_diamond, UPPERS};

#[test]
fn letters_upto_singleton() {
    assert_eq!(letters_upto('A').unwrap(), vec!['A']);
}

#[test]
fn letters_upto_c() {
    assert_eq!(letters_upto('C').unwrap(), vec!['A', 'B', 'C']);
}

#[test]
fn letters_upto_z() {
    assert_eq!(letters_upto('Z').unwrap(), UPPERS.chars().collect::<Vec<char>>());
}

#[test]
fn diamond_upper_two_rows() {
    assert_eq!(
        upper_diamond('B').unwrap().trim(),
        "
 A
B B
"
        .trim()
    );
}

#[test]
fn diamond_upper_four_rows() {
    assert_eq!(
        upper_diamond('D').unwrap().trim(),
        "
   A
  B B
 C   C
D     D
"
        .trim()
    );
}

#[test]
fn diamond_single_row() {
    assert_eq!(diamond('A').unwrap().trim(), "A");
}

#[test]
fn diamond_seven_rows() {
    assert_eq!(
        diamond('D').unwrap().trim(),
        "
   A
  B B
 C   C
D     D
 C   C
  B B
   A
"
        .trim()
    );
}

#[test]
fn diamond_nine_rows() {
    assert_eq!(
        diamond('E').unwrap().trim(),
        "
    A
   B B
  C   C
 D     D
E       E
 D     D
  C   C
   B B
    A
"
        .trim()
    );
}
