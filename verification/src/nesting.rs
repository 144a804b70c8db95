//! The brackets of a token sequence, and the proof that the stack which the
//! assembler keeps pairs them as matching brackets are paired.

use vstd::prelude::*;
use crate::brackets::{
    closed_by, closes_within, depth, lemma_pending, lemma_prefix, lemma_top_pairs, never_short,
    open_at, opened, pairs, pending, stack_after, well_nested, Bracket, Entry,
};
use crate::error::MalformedBracketNesting;
use crate::lexer::EncodedToken;
use crate::token::Token;

verus! {

/// The loops that are open after the first `n` tokens.
pub open spec fn stack_before(ts: Seq<EncodedToken>, n: nat) -> Seq<Entry>
    decreases n,
{
    if n == 0 {
        Seq::empty()
    } else {
        let i = (n - 1) as nat;
        stack_after(stack_before(ts, i), ts[i as int].token, i as usize, ts[i as int].count as nat)
    }
}

/// Whether each of the first `n` tokens finds the open loops that it closes.
pub open spec fn accepted(ts: Seq<EncodedToken>, n: nat) -> bool {
    forall|i: nat|
        i < n ==> closes_within(
            #[trigger] stack_before(ts, i),
            ts[i as int].token,
            ts[i as int].count as nat,
        )
}

/// Whether every loop end finds the loops that it closes and no loop is open
/// at the end: what the assembler asks of a token sequence.
pub open spec fn nests(ts: Seq<EncodedToken>) -> bool {
    accepted(ts, ts.len()) && stack_before(ts, ts.len()).len() == 0
}

/// Whether `fault` is what is reported for a token sequence that does not
/// nest: the first loop end that has no loop to close or, where there is none,
/// the innermost loop that is never closed.
pub open spec fn is_first_fault(ts: Seq<EncodedToken>, fault: MalformedBracketNesting) -> bool {
    match fault {
        MalformedBracketNesting::UnmatchedClose { token_index } => {
            &&& token_index < ts.len()
            &&& accepted(ts, token_index as nat)
            &&& !closes_within(
                stack_before(ts, token_index as nat),
                ts[token_index as int].token,
                ts[token_index as int].count as nat,
            )
        },
        MalformedBracketNesting::UnclosedOpen { token_index, repetition } => {
            &&& accepted(ts, ts.len())
            &&& stack_before(ts, ts.len()).len() > 0
            &&& stack_before(ts, ts.len()).last() == (token_index, repetition)
        },
    }
}

/// The brackets that one token stands for: one per repetition of a loop start
/// or a loop end, none for any other command.
pub open spec fn token_brackets(t: Token, index: usize, count: nat) -> Seq<Bracket> {
    match t {
        Token::LoopStart => Seq::new(
            count,
            |k: int| Bracket { open: true, entry: (index, k as usize) },
        ),
        Token::LoopEnd => Seq::new(
            count,
            |k: int| Bracket { open: false, entry: (index, k as usize) },
        ),
        _ => Seq::empty(),
    }
}

/// The brackets of the first `n` tokens, in the order of the program.
pub open spec fn brackets_of(ts: Seq<EncodedToken>, n: nat) -> Seq<Bracket>
    decreases n,
{
    if n == 0 {
        Seq::empty()
    } else {
        let i = (n - 1) as nat;
        brackets_of(ts, i) + token_brackets(ts[i as int].token, i as usize, ts[i as int].count as nat)
    }
}

/// The place, among the brackets of a program, of repetition `k` of the loop
/// start or loop end `i`.
pub open spec fn bracket_at(ts: Seq<EncodedToken>, i: nat, k: nat) -> int {
    brackets_of(ts, i).len() + k as int
}

/// Each bracket carries the token and the repetition that it came from, and
/// stands at their place: a loop start's are open brackets, a loop end's
/// closing ones.
pub proof fn lemma_bracket_entry(ts: Seq<EncodedToken>, n: nat, x: int)
    requires
        n <= ts.len() <= usize::MAX,
        0 <= x < brackets_of(ts, n).len(),
    ensures
        ({
            let bracket = brackets_of(ts, n)[x];
            let i = bracket.entry.0 as nat;
            let k = bracket.entry.1 as nat;
            &&& i < n
            &&& k < ts[i as int].count
            &&& ts[i as int].token == if bracket.open {
                Token::LoopStart
            } else {
                Token::LoopEnd
            }
            &&& x == bracket_at(ts, i, k)
        }),
    decreases n,
{
    if n > 0 {
        let before = brackets_of(ts, (n - 1) as nat);
        if x < before.len() {
            lemma_bracket_entry(ts, (n - 1) as nat, x);
            assert(brackets_of(ts, n)[x] == before[x]);
        }
    }
}

/// The entries of the brackets at the given positions.
pub open spec fn entries_at(b: Seq<Bracket>, positions: Seq<int>) -> Seq<Entry> {
    Seq::new(positions.len(), |k: int| b[positions[k]].entry)
}

/// After `a`, the first `k` of `c` loop starts raise the depth by `k` and push
/// their positions.
proof fn lemma_opens_run(a: Seq<Bracket>, index: usize, c: nat, k: nat)
    requires
        k <= c,
        never_short(a, a.len() as int),
    ensures
        ({
            let b = a + token_brackets(Token::LoopStart, index, c);
            &&& depth(b, a.len() + k as int) == depth(a, a.len() as int) + k
            &&& never_short(b, a.len() + k as int)
            &&& pending(b, a.len() + k as int) == pending(a, a.len() as int) + Seq::new(
                k,
                |x: int| a.len() + x,
            )
        }),
    decreases k,
{
    let b = a + token_brackets(Token::LoopStart, index, c);
    let n = a.len() as int;
    if k == 0 {
        lemma_prefix(a, b, n);
        assert forall|m: int| 0 <= m <= n implies #[trigger] depth(b, m) >= 0 by {
            lemma_prefix(a, b, m);
        }
        assert(pending(a, n) + Seq::new(0, |x: int| a.len() + x) =~= pending(a, n));
    } else {
        lemma_opens_run(a, index, c, (k - 1) as nat);
        assert(b[n + k - 1].open);
        assert(pending(b, n + k) =~= pending(a, n) + Seq::new(k, |x: int| a.len() + x));
        assert forall|m: int| 0 <= m <= n + k implies #[trigger] depth(b, m) >= 0 by {
            if m == n + k {
            } else {
                assert(never_short(b, n + k - 1));
            }
        }
    }
}

/// After `a`, the first `k` of `c` loop ends lower the depth by `k`.
proof fn lemma_closes_depth(a: Seq<Bracket>, index: usize, c: nat, k: nat)
    requires
        k <= c,
    ensures
        depth(a + token_brackets(Token::LoopEnd, index, c), a.len() + k as int) == depth(
            a,
            a.len() as int,
        ) - k,
    decreases k,
{
    let b = a + token_brackets(Token::LoopEnd, index, c);
    let n = a.len() as int;
    if k == 0 {
        lemma_prefix(a, b, n);
    } else {
        lemma_closes_depth(a, index, c, (k - 1) as nat);
        assert(!b[n + k - 1].open);
    }
}

/// After `a`, the first `k` of `c` loop ends pop the `k` innermost open loops,
/// as long as that many are open.
proof fn lemma_closes_run(a: Seq<Bracket>, index: usize, c: nat, k: nat)
    requires
        k <= c,
        k <= depth(a, a.len() as int),
        never_short(a, a.len() as int),
    ensures
        ({
            let b = a + token_brackets(Token::LoopEnd, index, c);
            &&& never_short(b, a.len() + k as int)
            &&& pending(a, a.len() as int).len() == depth(a, a.len() as int)
            &&& pending(b, a.len() + k as int) == pending(a, a.len() as int).take(
                depth(a, a.len() as int) - k,
            )
        }),
    decreases k,
{
    let b = a + token_brackets(Token::LoopEnd, index, c);
    let n = a.len() as int;
    lemma_pending(a, n);
    lemma_closes_depth(a, index, c, k);
    if k == 0 {
        lemma_prefix(a, b, n);
        assert forall|m: int| 0 <= m <= n implies #[trigger] depth(b, m) >= 0 by {
            lemma_prefix(a, b, m);
        }
        assert(pending(a, n).take(depth(a, n)) =~= pending(a, n));
    } else {
        lemma_closes_run(a, index, c, (k - 1) as nat);
        assert(!b[n + k - 1].open);
        assert(pending(b, n + k) =~= pending(a, n).take(depth(a, n) - k));
        assert forall|m: int| 0 <= m <= n + k implies #[trigger] depth(b, m) >= 0 by {
            if m == n + k {
            } else {
                assert(never_short(b, n + k - 1));
            }
        }
    }
}

/// The stack that the assembler keeps holds the entries of the loop starts
/// that are open, outermost first, as long as no loop end came without a loop.
pub proof fn lemma_stack_tracks_brackets(ts: Seq<EncodedToken>, n: nat)
    requires
        n <= ts.len(),
        accepted(ts, n),
    ensures
        ({
            let b = brackets_of(ts, n);
            &&& never_short(b, b.len() as int)
            &&& stack_before(ts, n).len() == depth(b, b.len() as int)
            &&& stack_before(ts, n) == entries_at(b, pending(b, b.len() as int))
        }),
    decreases n,
{
    let b = brackets_of(ts, n);
    if n == 0 {
        assert(stack_before(ts, n) =~= entries_at(b, pending(b, b.len() as int)));
    } else {
        let i = (n - 1) as nat;
        let a = brackets_of(ts, i);
        let t = ts[i as int].token;
        let c = ts[i as int].count as nat;
        let index = i as usize;
        let len = a.len() as int;
        assert(accepted(ts, i));
        lemma_stack_tracks_brackets(ts, i);
        lemma_pending(a, len);
        let before = stack_before(ts, i);
        assert(closes_within(before, t, c));
        if t == Token::LoopStart {
            lemma_opens_run(a, index, c, c);
            assert forall|k: int| 0 <= k < pending(b, b.len() as int).len() implies (
            #[trigger] entries_at(b, pending(b, b.len() as int))[k]) == (before + opened(
                index,
                c,
            ))[k] by {
                if k < before.len() {
                    assert(open_at(a, len, pending(a, len)[k], k));
                }
            }
            assert(stack_before(ts, n) =~= entries_at(b, pending(b, b.len() as int)));
        } else if t == Token::LoopEnd {
            lemma_closes_run(a, index, c, c);
            lemma_closes_depth(a, index, c, c);
            assert forall|k: int| 0 <= k < pending(b, b.len() as int).len() implies (
            #[trigger] entries_at(b, pending(b, b.len() as int))[k]) == before.take(
                before.len() - c,
            )[k] by {
                assert(open_at(a, len, pending(a, len)[k], k));
            }
            assert(stack_before(ts, n) =~= entries_at(b, pending(b, b.len() as int)));
        } else {
            assert(b =~= a);
        }
    }
}

/// The brackets of the first `n` tokens begin the brackets of any longer part.
pub proof fn lemma_brackets_grow(ts: Seq<EncodedToken>, n: nat, m: nat)
    requires
        n <= m,
    ensures
        brackets_of(ts, n).len() <= brackets_of(ts, m).len(),
        forall|x: int|
            0 <= x < brackets_of(ts, n).len() ==> brackets_of(ts, n)[x] == brackets_of(ts, m)[x],
    decreases m,
{
    if n < m {
        lemma_brackets_grow(ts, n, (m - 1) as nat);
    }
}

/// What the generated code does at a loop end is to close the matching loop:
/// the entry that repetition `l` of the loop end `j` finds `l` below the top of
/// the stack, and whose labels it names in its branch, is a repetition of a
/// loop start, and the bracket of that repetition is the one that pairs with
/// the bracket of this loop end.
pub proof fn lemma_loop_end_closes_partner(ts: Seq<EncodedToken>, j: nat, l: nat) -> (open: int)
    requires
        j < ts.len() <= usize::MAX,
        accepted(ts, j + 1),
        ts[j as int].token == Token::LoopEnd,
        l < ts[j as int].count,
    ensures
        ({
            let b = brackets_of(ts, ts.len());
            let start = closed_by(stack_before(ts, j), l);
            &&& pairs(b, open, bracket_at(ts, j, l))
            &&& open == bracket_at(ts, start.0 as nat, start.1 as nat)
            &&& ts[start.0 as int].token == Token::LoopStart
            &&& start.1 < ts[start.0 as int].count
        }),
{
    let a = brackets_of(ts, j);
    let c = ts[j as int].count as nat;
    let index = j as usize;
    let b1 = brackets_of(ts, j + 1);
    let b = brackets_of(ts, ts.len());
    let len = a.len() as int;
    let close = len + l;
    assert(accepted(ts, j));
    lemma_stack_tracks_brackets(ts, j);
    let before = stack_before(ts, j);
    assert(closes_within(before, Token::LoopEnd, c));
    lemma_pending(a, len);
    lemma_closes_run(a, index, c, l);
    lemma_closes_run(a, index, c, l + 1);
    lemma_top_pairs(b1, close);
    let open = pending(b1, close).last();
    assert(open == pending(a, len)[before.len() - 1 - l]);
    assert(open_at(a, len, open, before.len() - 1 - l));
    assert(b1[open] == a[open]);
    assert(before[before.len() - 1 - l] == a[open].entry);
    lemma_brackets_grow(ts, j + 1, ts.len());
    assert forall|m: int| open < m <= close implies #[trigger] depth(b, m) > depth(b, open) by {
        lemma_prefix(b1, b, m);
        lemma_prefix(b1, b, open);
    }
    lemma_prefix(b1, b, close + 1);
    lemma_prefix(b1, b, open);
    lemma_bracket_entry(ts, ts.len(), open);
    open
}

/// The token sequences that the assembler takes to the end are those whose
/// brackets are well nested: every loop end finds a loop, and none is left
/// open.
pub proof fn lemma_accepted_is_well_nested(ts: Seq<EncodedToken>)
    ensures
        nests(ts) <==> well_nested(brackets_of(ts, ts.len())),
{
    let b = brackets_of(ts, ts.len());
    if accepted(ts, ts.len()) {
        lemma_stack_tracks_brackets(ts, ts.len());
    } else {
        let j = choose|j: nat|
            j < ts.len() && !closes_within(
                #[trigger] stack_before(ts, j),
                ts[j as int].token,
                ts[j as int].count as nat,
            );
        lemma_first_fault(ts, j);
    }
}

/// Where some loop end comes without a loop, the brackets are not well nested.
proof fn lemma_first_fault(ts: Seq<EncodedToken>, j: nat)
    requires
        j < ts.len(),
        !closes_within(stack_before(ts, j), ts[j as int].token, ts[j as int].count as nat),
    ensures
        !never_short(brackets_of(ts, ts.len()), brackets_of(ts, ts.len()).len() as int),
    decreases j,
{
    let b = brackets_of(ts, ts.len());
    if !accepted(ts, j) {
        let i = choose|i: nat|
            i < j && !closes_within(
                #[trigger] stack_before(ts, i),
                ts[i as int].token,
                ts[i as int].count as nat,
            );
        lemma_first_fault(ts, i);
    } else {
        let a = brackets_of(ts, j);
        let c = ts[j as int].count as nat;
        let b1 = brackets_of(ts, j + 1);
        let len = a.len() as int;
        lemma_stack_tracks_brackets(ts, j);
        let s = stack_before(ts, j).len();
        lemma_closes_depth(a, j as usize, c, s + 1);
        lemma_brackets_grow(ts, j + 1, ts.len());
        lemma_prefix(b1, b, len + s + 1);
        assert(depth(b, len + s + 1) < 0);
    }
}

} // verus!
