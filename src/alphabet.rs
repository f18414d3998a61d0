use vstd::prelude::*;
use vstd::string::*;

verus! {

/// The letters a diamond is drawn from, in order. The letter `G` is not among them.
pub const UPPERS: &'static str = "ABCDEFHIJKLMNOPQRSTUVWXYZ";

/// The letters of [`UPPERS`], as a sequence.
pub open spec fn alphabet() -> Seq<char> {
    seq![
        'A', 'B', 'C', 'D', 'E', 'F', 'H', 'I', 'J', 'K', 'L', 'M', 'N',
        'O', 'P', 'Q', 'R', 'S', 'T', 'U', 'V', 'W', 'X', 'Y', 'Z',
    ]
}

pub open spec fn is_ascii_lower(c: char) -> bool {
    'a' <= c && c <= 'z'
}

/// `c` with an ASCII lower-case letter mapped to its upper-case form.
pub open spec fn ascii_upper(c: char) -> char {
    if is_ascii_lower(c) {
        ((c as u32) - 32) as char
    } else {
        c
    }
}

/// Whether `c`, in either case, is one of the alphabet's letters.
pub open spec fn is_valid_letter(c: char) -> bool {
    alphabet().contains(ascii_upper(c))
}

/// Where `c`, in either case, stands in the alphabet (0 for `A`); meaningful for valid letters.
pub open spec fn position(c: char) -> int {
    alphabet().index_of(ascii_upper(c))
}

/// The letters that a diamond for the valid letter `end` uses: the alphabet from its
/// start up to and including `end`.
pub open spec fn letters_through(end: char) -> Seq<char> {
    alphabet().take(position(end) + 1)
}

/// The character given is not one of the alphabet's letters, in either case.
#[derive(Debug, Clone, Copy, PartialEq, Eq, Structural)]
pub struct InvalidLetterError {
    pub letter: char,
}

/// A non-empty run of the alphabet taken from its start.
pub open spec fn is_alphabet_prefix(s: Seq<char>) -> bool {
    1 <= s.len() <= alphabet().len() && s == alphabet().take(s.len() as int)
}

pub proof fn lemma_uppers_view()
    ensures
        UPPERS@ == alphabet(),
{
    reveal_strlit("ABCDEFHIJKLMNOPQRSTUVWXYZ");
    assert(UPPERS@ =~= alphabet());
}

/// The alphabet is strictly increasing, so each of its letters has one position.
pub proof fn lemma_alphabet_increasing()
    ensures
        alphabet().len() == 25,
        forall|i: int, j: int|
            0 <= i < j < 25 ==> (alphabet()[i] as u32) < (alphabet()[j] as u32),
{
}

/// A letter found at `k` has position `k`.
pub proof fn lemma_position_at(c: char, k: int)
    requires
        0 <= k < alphabet().len(),
        alphabet()[k] == ascii_upper(c),
    ensures
        is_valid_letter(c),
        position(c) == k,
        letters_through(c) == alphabet().take(k + 1),
{
    lemma_alphabet_increasing();
    assert(alphabet().contains(ascii_upper(c)));
    let p = position(c);
    assert(0 <= p < 25 && alphabet()[p] == ascii_upper(c));
}

pub proof fn lemma_letters_through_prefix(c: char)
    requires
        is_valid_letter(c),
    ensures
        is_alphabet_prefix(letters_through(c)),
        letters_through(c).len() == position(c) + 1,
{
    let p = position(c);
    assert(0 <= p < 25);
}

/// Folding case twice is folding it once.
pub proof fn lemma_ascii_upper_idempotent(c: char)
    ensures
        ascii_upper(ascii_upper(c)) == ascii_upper(c),
{
}

/// Maps an ASCII lower-case letter to upper case and leaves any other character alone.
pub fn to_upper(c: char) -> (r: char)
    ensures
        r == ascii_upper(c),
{
    if 'a' <= c && c <= 'z' {
        ((c as u8) - 32) as char
    } else {
        c
    }
}

/// Looks `c` up, in either case, in the alphabet.
pub fn letter_position(c: char) -> (r: Option<usize>)
    ensures
        match r {
            Some(k) => is_valid_letter(c) && k == position(c),
            None => !is_valid_letter(c),
        },
{
    let upped = to_upper(c);
    let n = UPPERS.unicode_len();
    proof {
        lemma_uppers_view();
    }
    let mut i: usize = 0;
    while i < n
        invariant
            n == alphabet().len(),
            UPPERS@ == alphabet(),
            upped == ascii_upper(c),
            i <= n,
            forall|j: int| 0 <= j < i ==> alphabet()[j] != upped,
        decreases n - i,
    {
        if UPPERS.get_char(i) == upped {
            proof {
                lemma_position_at(c, i as int);
            }
            return Some(i);
        }
        i += 1;
    }
    None
}

/// The letters that a diamond for `end` is drawn from (see [`letters_through`]); a
/// character that is not among the alphabet's letters, in either case, is refused.
pub fn letters_upto(end: char) -> (r: Result<Vec<char>, InvalidLetterError>)
    ensures
        match r {
            Ok(letters) => is_valid_letter(end) && letters@ == letters_through(end),
            Err(e) => !is_valid_letter(end) && e.letter == end,
        },
{
    let n = UPPERS.unicode_len();
    proof {
        lemma_uppers_view();
    }
    let count = match letter_position(end) {
        Some(k) => k + 1,
        None => return Err(InvalidLetterError { letter: end }),
    };
    proof {
        lemma_letters_through_prefix(end);
    }
    let mut letters: Vec<char> = Vec::new();
    let mut i: usize = 0;
    while i < count
        invariant
            count == letters_through(end).len(),
            count <= n == alphabet().len(),
            UPPERS@ == alphabet(),
            is_alphabet_prefix(letters_through(end)),
            i <= count,
            letters@ == alphabet().take(i as int),
        decreases count - i,
    {
        letters.push(UPPERS.get_char(i));
        i += 1;
        assert(letters@ =~= alphabet().take(i as int));
    }
    Ok(letters)
}

/// The text of the alphabet's letter at `i`.
pub fn letter_str(i: usize) -> (r: &'static str)
    requires
        i < alphabet().len(),
    ensures
        r@ == seq![alphabet()[i as int]],
{
    proof {
        lemma_uppers_view();
    }
    let r = UPPERS.substring_char(i, i + 1);
    assert(r@ =~= seq![alphabet()[i as int]]);
    r
}

} // verus!
