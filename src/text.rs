use vstd::prelude::*;
use vstd::string::*;

verus! {

/// `n` spaces.
pub open spec fn spaces(n: int) -> Seq<char> {
    Seq::new(n as nat, |_i: int| ' ')
}

/// The lines, each followed by a newline.
pub open spec fn terminated(lines: Seq<Seq<char>>) -> Seq<char>
    decreases lines.len(),
{
    if lines.len() == 0 {
        Seq::empty()
    } else {
        terminated(lines.drop_last()) + lines.last().push('\n')
    }
}

/// The lines with a newline between each two of them and none after the last.
pub open spec fn joined(lines: Seq<Seq<char>>) -> Seq<char> {
    terminated(lines).drop_last()
}

/// The pieces of `text` between its newlines, in order: one more piece than there are
/// newlines, each possibly empty.
pub open spec fn lines_of(text: Seq<char>) -> Seq<Seq<char>>
    decreases text.len(),
{
    if text.len() == 0 {
        seq![Seq::empty()]
    } else {
        let before = lines_of(text.drop_last());
        if text.last() == '\n' {
            before.push(Seq::empty())
        } else {
            before.update(before.len() - 1, before.last().push(text.last()))
        }
    }
}

pub open spec fn has_no_newline(line: Seq<char>) -> bool {
    forall|i: int| 0 <= i < line.len() ==> line[i] != '\n'
}

pub proof fn lemma_lines_of_nonempty(text: Seq<char>)
    ensures
        lines_of(text).len() >= 1,
    decreases text.len(),
{
    if text.len() > 0 {
        lemma_lines_of_nonempty(text.drop_last());
    }
}

/// Text without a newline extends the last line.
pub proof fn lemma_lines_of_extend(text: Seq<char>, tail: Seq<char>)
    requires
        has_no_newline(tail),
    ensures
        lines_of(text + tail) == lines_of(text).update(
            lines_of(text).len() - 1,
            lines_of(text).last() + tail,
        ),
    decreases tail.len(),
{
    lemma_lines_of_nonempty(text);
    let before = lines_of(text);
    if tail.len() == 0 {
        assert(text + tail =~= text);
        assert(before.last() + tail =~= before.last());
        assert(before.update(before.len() - 1, before.last()) =~= before);
    } else {
        let shorter = tail.drop_last();
        lemma_lines_of_extend(text, shorter);
        assert((text + tail).drop_last() =~= text + shorter);
        let mid = lines_of(text + shorter);
        assert(mid.last() == before.last() + shorter);
        assert(mid.last().push(tail.last()) =~= before.last() + tail);
        assert(mid.update(mid.len() - 1, mid.last().push(tail.last())) =~= before.update(
            before.len() - 1,
            before.last() + tail,
        ));
    }
}

/// Splitting newline-terminated lines gives them back, with an empty piece after the last.
pub proof fn lemma_lines_of_terminated(lines: Seq<Seq<char>>)
    requires
        forall|i: int| 0 <= i < lines.len() ==> has_no_newline(#[trigger] lines[i]),
    ensures
        lines_of(terminated(lines)) == lines.push(Seq::empty()),
    decreases lines.len(),
{
    if lines.len() == 0 {
        assert(lines_of(Seq::<char>::empty()) =~= lines.push(Seq::empty()));
    } else {
        let front = lines.drop_last();
        let last = lines.last();
        lemma_lines_of_terminated(front);
        lemma_lines_of_extend(terminated(front), last);
        let text = terminated(lines);
        assert(text.drop_last() =~= terminated(front) + last);
        assert(Seq::<char>::empty() + last =~= last);
        assert(front.push(Seq::empty()).update(front.len() as int, last) =~= lines);
    }
}

/// Splitting lines joined by newlines gives them back.
pub proof fn lemma_lines_of_joined(lines: Seq<Seq<char>>)
    requires
        lines.len() >= 1,
        forall|i: int| 0 <= i < lines.len() ==> has_no_newline(#[trigger] lines[i]),
    ensures
        lines_of(joined(lines)) == lines,
{
    lemma_lines_of_terminated(lines);
    let text = terminated(lines);
    assert(text.last() == '\n');
    assert(text.drop_last() == joined(lines));
    assert(lines_of(text) == lines_of(joined(lines)).push(Seq::empty()));
    assert(lines_of(joined(lines)) =~= lines_of(text).drop_last());
    assert(lines.push(Seq::empty()).drop_last() =~= lines);
}

/// One more line on the end of newline-terminated lines.
pub proof fn lemma_terminated_take(lines: Seq<Seq<char>>, m: int)
    requires
        0 <= m < lines.len(),
    ensures
        terminated(lines.take(m + 1)) == terminated(lines.take(m)) + lines[m].push('\n'),
{
    assert(lines.take(m + 1).drop_last() =~= lines.take(m));
}

/// Appends `n` spaces to `out`.
pub fn push_spaces(out: &mut String, n: usize)
    ensures
        final(out)@ == old(out)@ + spaces(n as int),
{
    let ghost start = out@;
    let mut i: usize = 0;
    while i < n
        invariant
            i <= n,
            out@ == start + spaces(i as int),
        decreases n - i,
    {
        out.append(" ");
        proof {
            reveal_strlit(" ");
        }
        i += 1;
        assert(out@ =~= start + spaces(i as int));
    }
}

} // verus!
