use vstd::prelude::*;
use vstd::string::*;

use crate::alphabet::{
    alphabet, is_alphabet_prefix, is_valid_letter, letter_str, letters_through, letters_upto,
    lemma_letters_through_prefix, InvalidLetterError,
};
use crate::text::{joined, lemma_terminated_take, push_spaces, spaces, terminated};

verus! {

/// Row `i` of a diamond over `n` letters, drawn with `c`: the letter ends a field of
/// width `n - i`, and on every row but the first it comes again `2 * i` places further.
pub open spec fn row(c: char, n: int, i: int) -> Seq<char> {
    if i == 0 {
        spaces(n - 1).push(c)
    } else {
        spaces(n - 1 - i).push(c) + spaces(2 * i - 1).push(c)
    }
}

/// The upper half of a diamond over `letters`, down to and including its midline.
pub open spec fn upper_rows(letters: Seq<char>) -> Seq<Seq<char>> {
    Seq::new(letters.len(), |i: int| row(letters[i], letters.len() as int, i))
}

/// The rows of a diamond over non-empty `letters`: the upper half, then the rows above
/// the midline again from the bottom up.
pub open spec fn diamond_rows(letters: Seq<char>) -> Seq<Seq<char>> {
    let upper = upper_rows(letters);
    upper + upper.take(upper.len() - 1).reverse()
}

/// The text of the diamond for the valid letter `letter`.
pub open spec fn diamond_text(letter: char) -> Seq<char> {
    joined(diamond_rows(letters_through(letter)))
}

/// Row `j` of a diamond over `n` letters.
pub proof fn lemma_diamond_row(letters: Seq<char>, j: int)
    requires
        letters.len() >= 1,
        0 <= j < 2 * letters.len() - 1,
    ensures
        diamond_rows(letters).len() == 2 * letters.len() - 1,
        diamond_rows(letters)[j] == ({
            let i = if j < letters.len() { j } else { 2 * letters.len() - 2 - j };
            row(letters[i], letters.len() as int, i)
        }),
{
}

/// Appends row `i` of a diamond over the first `n` letters of the alphabet.
fn push_row(out: &mut String, n: usize, i: usize)
    requires
        i < n <= alphabet().len(),
    ensures
        final(out)@ == old(out)@ + row(alphabet()[i as int], n as int, i as int),
{
    let ghost start = out@;
    let ghost c = alphabet()[i as int];
    let letter = letter_str(i);
    push_spaces(out, n - 1 - i);
    out.append(letter);
    assert(out@ =~= start + spaces(n - 1 - i).push(c));
    if i > 0 {
        push_spaces(out, 2 * i - 1);
        out.append(letter);
        assert(out@ =~= start + (spaces(n - 1 - i).push(c) + spaces(2 * i - 1).push(c)));
    }
}

/// The upper half of the diamond for `letter`, each row followed by a newline; a
/// character that is not among the alphabet's letters, in either case, is refused.
pub fn upper_diamond(letter: char) -> (r: Result<String, InvalidLetterError>)
    ensures
        match r {
            Ok(s) => is_valid_letter(letter) && s@ == terminated(upper_rows(letters_through(letter))),
            Err(e) => !is_valid_letter(letter) && e.letter == letter,
        },
{
    let letters = match letters_upto(letter) {
        Ok(letters) => letters,
        Err(e) => return Err(e),
    };
    let n = letters.len();
    proof {
        lemma_letters_through_prefix(letter);
    }
    let ghost rows = upper_rows(letters@);
    let mut text = String::new();
    let mut i: usize = 0;
    assert(rows.take(0) =~= Seq::<Seq<char>>::empty());
    while i < n
        invariant
            n == letters@.len(),
            is_alphabet_prefix(letters@),
            rows == upper_rows(letters@),
            i <= n,
            text@ == terminated(rows.take(i as int)),
        decreases n - i,
    {
        let ghost before = text@;
        push_row(&mut text, n, i);
        text.append("\n");
        proof {
            reveal_strlit("\n");
            assert(letters@[i as int] == alphabet()[i as int]);
            assert(text@ =~= before + rows[i as int].push('\n'));
            lemma_terminated_take(rows, i as int);
        }
        i += 1;
    }
    assert(rows.take(n as int) =~= rows);
    Ok(text)
}

/// The diamond for `letter`: rows from the alphabet's first letter down to `letter` and
/// back up, separated by newlines. A lower-case letter is read as upper case; a character
/// that is not among the alphabet's letters, in either case, is refused.
pub fn diamond(letter: char) -> (r: Result<String, InvalidLetterError>)
    ensures
        match r {
            Ok(s) => is_valid_letter(letter) && s@ == diamond_text(letter),
            Err(e) => !is_valid_letter(letter) && e.letter == letter,
        },
{
    let letters = match letters_upto(letter) {
        Ok(letters) => letters,
        Err(e) => return Err(e),
    };
    let n = letters.len();
    proof {
        lemma_letters_through_prefix(letter);
    }
    let ghost rows = diamond_rows(letters@);
    let mut text = match upper_diamond(letter) {
        Ok(text) => text,
        Err(e) => return Err(e),
    };
    assert(rows.take(n as int) =~= upper_rows(letters@));
    let mut i: usize = n - 1;
    while i > 0
        invariant
            n == letters@.len(),
            is_alphabet_prefix(letters@),
            rows == diamond_rows(letters@),
            rows.len() == 2 * n - 1,
            i < n,
            text@ == terminated(rows.take(2 * n - 1 - i)),
        decreases i,
    {
        i -= 1;
        let ghost before = text@;
        push_row(&mut text, n, i);
        text.append("\n");
        proof {
            let m = 2 * n - 2 - i;
            reveal_strlit("\n");
            lemma_diamond_row(letters@, m);
            assert(letters@[i as int] == alphabet()[i as int]);
            assert(text@ =~= before + rows[m].push('\n'));
            lemma_terminated_take(rows, m);
        }
    }
    assert(rows.take(2 * n - 1) =~= rows);
    let len = text.unicode_len();
    let r = text.as_str().substring_char(0, len - 1).to_owned();
    assert(r@ =~= joined(rows));
    Ok(r)
}

} // verus!
