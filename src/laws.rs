use vstd::prelude::*;

use crate::alphabet::{
    alphabet, ascii_upper, is_alphabet_prefix, is_valid_letter, letters_through, lemma_alphabet_increasing,
    lemma_ascii_upper_idempotent, lemma_letters_through_prefix, lemma_position_at,
};
use crate::shape::{diamond_rows, diamond_text, lemma_diamond_row};
use crate::text::{has_no_newline, joined, lemma_lines_of_joined, lines_of};

verus! {

/// The rows of a diamond over letters of the alphabet hold no newline, so they are the
/// lines of its text.
proof fn lemma_lines_are_rows(letters: Seq<char>)
    requires
        is_alphabet_prefix(letters),
    ensures
        lines_of(joined(diamond_rows(letters))) == diamond_rows(letters),
        diamond_rows(letters).len() == 2 * letters.len() - 1,
{
    let rows = diamond_rows(letters);
    let n = letters.len() as int;
    lemma_alphabet_increasing();
    lemma_diamond_row(letters, 0);
    assert forall|j: int| 0 <= j < rows.len() implies has_no_newline(#[trigger] rows[j]) by {
        lemma_diamond_row(letters, j);
        let i = if j < n { j } else { 2 * n - 2 - j };
        assert(letters[i] == alphabet()[i]);
        assert(i == 0 || (alphabet()[0] as u32) < (alphabet()[i] as u32));
        assert(letters[i] != '\n');
    }
    lemma_lines_of_joined(rows);
}

/// The lines of a diamond read from the bottom up are the lines read from the top down.
pub proof fn lemma_diamond_palindromic(letter: char)
    requires
        is_valid_letter(letter),
    ensures
        lines_of(diamond_text(letter)).reverse() == lines_of(diamond_text(letter)),
{
    let letters = letters_through(letter);
    lemma_letters_through_prefix(letter);
    lemma_lines_are_rows(letters);
    let rows = diamond_rows(letters);
    let n = letters.len() as int;
    assert forall|j: int| 0 <= j < rows.len() implies #[trigger] rows.reverse()[j] == rows[j] by {
        lemma_diamond_row(letters, j);
        lemma_diamond_row(letters, 2 * n - 2 - j);
    }
    assert(rows.reverse() =~= rows);
}

/// The diamond for the letter at position `k` of the alphabet has `2k + 1` lines, none
/// of them longer than `2k + 1` characters, and its midline is that long.
pub proof fn lemma_diamond_size(letter: char, k: int)
    requires
        0 <= k < alphabet().len(),
        alphabet()[k] == ascii_upper(letter),
    ensures
        lines_of(diamond_text(letter)).len() == 2 * k + 1,
        forall|j: int|
            0 <= j < 2 * k + 1 ==> #[trigger] lines_of(diamond_text(letter))[j].len() <= 2 * k
                + 1,
        lines_of(diamond_text(letter))[k].len() == 2 * k + 1,
{
    lemma_position_at(letter, k);
    let letters = letters_through(letter);
    lemma_letters_through_prefix(letter);
    lemma_lines_are_rows(letters);
    let rows = diamond_rows(letters);
    let n = k + 1;
    assert forall|j: int| 0 <= j < 2 * k + 1 implies #[trigger] rows[j].len() <= 2 * k + 1 by {
        lemma_diamond_row(letters, j);
    }
    lemma_diamond_row(letters, k);
}

/// A lower-case letter is valid when its upper-case form is, and then draws the same
/// diamond.
pub proof fn lemma_diamond_case_insensitive(letter: char)
    ensures
        is_valid_letter(letter) == is_valid_letter(ascii_upper(letter)),
        diamond_text(letter) == diamond_text(ascii_upper(letter)),
{
    lemma_ascii_upper_idempotent(letter);
}

/// Two diamonds drawn for one letter are the same text.
pub proof fn lemma_diamond_repeatable(letter: char, first: Seq<char>, second: Seq<char>)
    requires
        first == diamond_text(letter),
        second == diamond_text(letter),
    ensures
        first == second,
{
}

} // verus!
