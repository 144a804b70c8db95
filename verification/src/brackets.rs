//! The stack of open loops, and what it means for brackets to match.

use vstd::prelude::*;
use crate::token::Token;

verus! {

/// One open loop: the index of the token that opened it, and which of that
/// token's repetitions did.
pub type Entry = (usize, usize);

/// The entries that a loop start with `count` repetitions pushes, first
/// repetition first.
pub open spec fn opened(index: usize, count: nat) -> Seq<Entry> {
    Seq::new(count, |k: int| (index, k as usize))
}

/// Whether the stack holds an open loop for each repetition of the token.
pub open spec fn closes_within(stack: Seq<Entry>, t: Token, count: nat) -> bool {
    t == Token::LoopEnd ==> count <= stack.len()
}

/// The stack after one token: a loop start pushes one entry per repetition, a
/// loop end pops one per repetition, every other command leaves it alone.
pub open spec fn stack_after(stack: Seq<Entry>, t: Token, index: usize, count: nat) -> Seq<Entry> {
    match t {
        Token::LoopStart => stack + opened(index, count),
        Token::LoopEnd => stack.take(stack.len() - count),
        _ => stack,
    }
}

/// The loop that repetition `k` of a loop end closes: the entries leave the
/// stack last in, first out.
pub open spec fn closed_by(stack: Seq<Entry>, k: nat) -> Entry
    recommends
        k < stack.len(),
{
    stack[stack.len() - 1 - k]
}

/// Pushes the entries of a loop start with `count` repetitions.
pub fn push_loops(stack: &mut Vec<Entry>, index: usize, count: usize)
    ensures
        final(stack)@ == old(stack)@ + opened(index, count as nat),
{
    let mut k: usize = 0;
    assert(stack@ =~= old(stack)@ + opened(index, 0));
    while k < count
        invariant
            k <= count,
            stack@ == old(stack)@ + opened(index, k as nat),
        decreases count - k,
    {
        stack.push((index, k));
        k += 1;
        assert(stack@ =~= old(stack)@ + opened(index, k as nat));
    }
}

/// Pops the loops that a loop end with `count` repetitions closes, and hands
/// them out in the order of the repetitions: the innermost first.
pub fn pop_loops(stack: &mut Vec<Entry>, count: usize) -> (closed: Vec<Entry>)
    requires
        count <= old(stack)@.len(),
    ensures
        final(stack)@ == old(stack)@.take(old(stack)@.len() - count),
        closed@ == Seq::new(count as nat, |l: int| closed_by(old(stack)@, l as nat)),
{
    let mut closed: Vec<Entry> = Vec::new();
    let mut k: usize = 0;
    assert(stack@ =~= old(stack)@.take(old(stack)@.len() - 0));
    assert(closed@ =~= Seq::new(0, |l: int| closed_by(old(stack)@, l as nat)));
    while k < count
        invariant
            k <= count <= old(stack)@.len(),
            stack@ == old(stack)@.take(old(stack)@.len() - k),
            closed@ == Seq::new(k as nat, |l: int| closed_by(old(stack)@, l as nat)),
        decreases count - k,
    {
        let top = stack.pop().unwrap();
        closed.push(top);
        k += 1;
        assert(stack@ =~= old(stack)@.take(old(stack)@.len() - k));
        assert(closed@ =~= Seq::new(k as nat, |l: int| closed_by(old(stack)@, l as nat)));
    }
    closed
}

/// One bracket of a program: a single repetition of a loop start or of a loop
/// end. `entry` names the token that it came from and which repetition it is.
pub struct Bracket {
    pub open: bool,
    pub entry: Entry,
}

/// How many loops are open after the first `n` brackets, counting a loop end
/// that has no loop to close as one below.
pub open spec fn depth(b: Seq<Bracket>, n: int) -> int
    decreases n,
{
    if n <= 0 {
        0
    } else {
        depth(b, n - 1) + if b[n - 1].open {
            1int
        } else {
            -1int
        }
    }
}

/// Whether, among the first `n` brackets, no loop end comes without an open
/// loop.
pub open spec fn never_short(b: Seq<Bracket>, n: int) -> bool {
    forall|m: int| 0 <= m <= n ==> #[trigger] depth(b, m) >= 0
}

/// Whether the brackets pair up: no loop end comes without an open loop, and
/// no loop is open at the end.
pub open spec fn well_nested(b: Seq<Bracket>) -> bool {
    never_short(b, b.len() as int) && depth(b, b.len() as int) == 0
}

/// Whether the depth stays above `floor` after each of the brackets from
/// `from` to `to`, both included.
pub open spec fn stays_above(b: Seq<Bracket>, from: int, to: int, floor: int) -> bool {
    forall|m: int| from < m <= to + 1 ==> #[trigger] depth(b, m) > floor
}

/// Whether the bracket at `j` closes the loop that the bracket at `i` opens:
/// `i` opens, `j` closes later, between them the depth never falls back to
/// what it was before `i`, and after `j` it is there again. This is matching
/// last in, first out.
pub open spec fn pairs(b: Seq<Bracket>, i: int, j: int) -> bool {
    &&& 0 <= i < j < b.len()
    &&& b[i].open
    &&& !b[j].open
    &&& stays_above(b, i, j - 1, depth(b, i))
    &&& depth(b, j + 1) == depth(b, i)
}

/// The positions of the loop starts that are still open after the first `n`
/// brackets, outermost first: what a stack holds that pushes at each loop start
/// and pops at each loop end.
pub open spec fn pending(b: Seq<Bracket>, n: int) -> Seq<int>
    decreases n,
{
    if n <= 0 {
        Seq::empty()
    } else if b[n - 1].open {
        pending(b, n - 1).push(n - 1)
    } else {
        pending(b, n - 1).drop_last()
    }
}

/// Whether `p` is a loop start among the first `n` brackets that opened at
/// depth `k` and has not been closed since.
pub open spec fn open_at(b: Seq<Bracket>, n: int, p: int, k: int) -> bool {
    &&& 0 <= p < n
    &&& b[p].open
    &&& depth(b, p) == k
    &&& stays_above(b, p, n - 1, k)
}

/// What the stack holds: as many positions as loops are open, and the one at
/// height `k` is the loop start that opened at depth `k` and is still open.
pub proof fn lemma_pending(b: Seq<Bracket>, n: int)
    requires
        0 <= n <= b.len(),
        never_short(b, n),
    ensures
        pending(b, n).len() == depth(b, n),
        forall|k: int|
            0 <= k < pending(b, n).len() ==> open_at(b, n, #[trigger] pending(b, n)[k], k),
    decreases n,
{
    if n > 0 {
        assert(never_short(b, n - 1));
        lemma_pending(b, n - 1);
        let before = pending(b, n - 1);
        let after = pending(b, n);
        assert(depth(b, n) >= 0);
        assert forall|k: int| 0 <= k < after.len() implies open_at(b, n, #[trigger] after[k], k) by {
            if b[n - 1].open && k == before.len() {
                assert(after[k] == n - 1);
            } else {
                assert(after[k] == before[k]);
                assert(open_at(b, n - 1, before[k], k));
            }
        }
    }
}

/// Where a loop end comes with a loop open, it closes the loop on top of the
/// stack.
pub proof fn lemma_top_pairs(b: Seq<Bracket>, j: int)
    requires
        0 <= j < b.len(),
        !b[j].open,
        never_short(b, j + 1),
    ensures
        pending(b, j).len() > 0,
        pairs(b, pending(b, j).last(), j),
{
    assert(never_short(b, j));
    lemma_pending(b, j);
    assert(depth(b, j + 1) >= 0);
    let top = pending(b, j).last();
    assert(open_at(b, j, top, pending(b, j).len() - 1));
}

/// A loop end closes at most one loop start.
pub proof fn lemma_pairs_one_open(b: Seq<Bracket>, i1: int, i2: int, j: int)
    requires
        pairs(b, i1, j),
        pairs(b, i2, j),
    ensures
        i1 == i2,
{
    if i1 < i2 {
        assert(depth(b, i2) > depth(b, i1));
    } else if i2 < i1 {
        assert(depth(b, i1) > depth(b, i2));
    }
}

/// A loop start is closed by at most one loop end.
pub proof fn lemma_pairs_one_close(b: Seq<Bracket>, i: int, j1: int, j2: int)
    requires
        pairs(b, i, j1),
        pairs(b, i, j2),
    ensures
        j1 == j2,
{
    if j1 < j2 {
        assert(depth(b, j1 + 1) > depth(b, i));
    } else if j2 < j1 {
        assert(depth(b, j2 + 1) > depth(b, i));
    }
}

/// Loops nest: a loop that starts inside another ends inside it.
pub proof fn lemma_pairs_nest(b: Seq<Bracket>, i1: int, j1: int, i2: int, j2: int)
    requires
        pairs(b, i1, j1),
        pairs(b, i2, j2),
        i1 < i2 < j1,
    ensures
        j2 < j1,
{
    assert(depth(b, i2) > depth(b, i1));
    if j2 > j1 {
        assert(depth(b, j1 + 1) > depth(b, i2));
    } else if j2 == j1 {
        lemma_pairs_one_open(b, i1, i2, j1);
    }
}

/// In well-nested brackets every loop end closes a loop start.
pub proof fn lemma_close_has_partner(b: Seq<Bracket>, j: int)
    requires
        well_nested(b),
        0 <= j < b.len(),
        !b[j].open,
    ensures
        exists|i: int| pairs(b, i, j),
{
    assert(never_short(b, j + 1));
    lemma_top_pairs(b, j);
}

/// Finds the loop end of the loop start at `i`, given that the depth stays
/// above its depth up to bracket `n`.
proof fn lemma_find_close(b: Seq<Bracket>, i: int, n: int) -> (j: int)
    requires
        well_nested(b),
        0 <= i < n < b.len() + 1,
        b[i].open,
        stays_above(b, i, n - 1, depth(b, i)),
    ensures
        pairs(b, i, j),
    decreases b.len() - n,
{
    assert(depth(b, i) >= 0);
    if n == b.len() {
        assert(depth(b, n) > depth(b, i));
        n
    } else {
        assert(depth(b, n) > depth(b, i));
        if depth(b, n + 1) > depth(b, i) {
            lemma_find_close(b, i, n + 1)
        } else {
            n
        }
    }
}

/// In well-nested brackets every loop start is closed by a loop end.
pub proof fn lemma_open_has_partner(b: Seq<Bracket>, i: int)
    requires
        well_nested(b),
        0 <= i < b.len(),
        b[i].open,
    ensures
        exists|j: int| pairs(b, i, j),
{
    assert(depth(b, i + 1) == depth(b, i) + 1);
    let j = lemma_find_close(b, i, i + 1);
}

/// The depth and the stack after `n` brackets depend on those brackets only.
pub proof fn lemma_prefix(a: Seq<Bracket>, b: Seq<Bracket>, n: int)
    requires
        0 <= n <= a.len(),
        n <= b.len(),
        forall|m: int| 0 <= m < n ==> a[m] == b[m],
    ensures
        depth(a, n) == depth(b, n),
        pending(a, n) == pending(b, n),
    decreases n,
{
    if n > 0 {
        lemma_prefix(a, b, n - 1);
    }
}

} // verus!
