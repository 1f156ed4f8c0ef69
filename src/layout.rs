//! Splitting program text into its lines, one per column.

use vstd::prelude::*;

verus! {

/// `l` without one trailing carriage return.
pub open spec fn strip_cr(l: Seq<char>) -> Seq<char> {
    if l.len() > 0 && l.last() == '\r' {
        l.drop_last()
    } else {
        l
    }
}

/// The lines of `s` that a newline has ended, and the text after the last newline.
pub open spec fn split_acc(s: Seq<char>) -> (Seq<Seq<char>>, Seq<char>)
    decreases s.len(),
{
    if s.len() == 0 {
        (Seq::<Seq<char>>::empty(), Seq::<char>::empty())
    } else {
        let (done, current) = split_acc(s.drop_last());
        if s.last() == '\n' {
            (done.push(strip_cr(current)), Seq::<char>::empty())
        } else {
            (done, current.push(s.last()))
        }
    }
}

/// The lines of `s`: split at each `\n`, with a `\r` before the `\n` dropped,
/// and no empty line after a final `\n`.
pub open spec fn lines_of(s: Seq<char>) -> Seq<Seq<char>> {
    let (done, current) = split_acc(s);
    if current.len() == 0 {
        done
    } else {
        done.push(current)
    }
}

/// A text has no more lines than characters.
pub proof fn lemma_lines_at_most_chars(s: Seq<char>)
    ensures
        lines_of(s).len() <= s.len(),
    decreases s.len(),
{
    lemma_split_acc_len(s);
}

proof fn lemma_split_acc_len(s: Seq<char>)
    ensures
        split_acc(s).0.len() + (if split_acc(s).1.len() > 0 { 1int } else { 0int }) <= s.len(),
    decreases s.len(),
{
    if s.len() > 0 {
        lemma_split_acc_len(s.drop_last());
    }
}

/// The lines of `program`, each as its characters.
pub fn split_lines(program: &str) -> (r: Vec<Vec<char>>)
    ensures
        r@.len() == lines_of(program@).len(),
        forall|i: int| 0 <= i < r@.len() ==> #[trigger] r@[i]@ == lines_of(program@)[i],
{
    let ghost all = program@;
    let mut done: Vec<Vec<char>> = Vec::new();
    let mut current: Vec<char> = Vec::new();
    for c in it: program.chars()
        invariant
            it.seq() == all,
            all == program@,
            done@.len() == split_acc(all.subrange(0, it.index() as int)).0.len(),
            forall|i: int| 0 <= i < done@.len() ==> #[trigger] done@[i]@ == split_acc(all.subrange(0, it.index() as int)).0[i],
            current@ == split_acc(all.subrange(0, it.index() as int)).1,
    {
        let ghost before = all.subrange(0, it.index() as int);
        let ghost after = all.subrange(0, it.index() + 1);
        assert(after.drop_last() =~= before);
        if c == '\n' {
            let n = current.len();
            if n > 0 && current[n - 1] == '\r' {
                current.pop();
            }
            let mut line: Vec<char> = Vec::new();
            std::mem::swap(&mut line, &mut current);
            done.push(line);
        } else {
            current.push(c);
        }
    }
    assert(all.subrange(0, all.len() as int) =~= all);
    if current.len() > 0 {
        done.push(current);
    }
    done
}

} // verus!
