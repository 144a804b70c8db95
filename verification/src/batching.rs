//! Run-length batching leaves no trace: the code of one token with a repeat
//! count does what as many single tokens would do.

use vstd::arithmetic::div_mod::{lemma_add_mod_noop, lemma_sub_mod_noop};
use vstd::prelude::*;
use crate::machine::{
    effect, effect_one_by_one, left_of, lowered, raised, read_cycles, read_once, right_of,
    same_observation, Bound, BoundsViolation, State, Written,
};
use crate::token::Token;

verus! {

/// After a violation nothing happens any more, however many tokens follow.
proof fn lemma_stopped(
    s: State,
    t: Token,
    n: nat,
    position: usize,
    newline_as_null: bool,
    input: Seq<u8>,
)
    requires
        s.violation is Some,
    ensures
        effect_one_by_one(s, t, n, position, newline_as_null, input) == s,
    decreases n,
{
    if n > 0 {
        lemma_stopped(s, t, (n - 1) as nat, position, newline_as_null, input);
    }
}

/// Single moves to the right reach the cell `n` further on, or stop at the
/// right bound.
proof fn lemma_right_one_by_one(s: State, n: nat, position: usize)
    requires
        s.wf(),
        s.violation is None,
    ensures
        ({
            let r = effect_one_by_one(s, Token::Right, n, position, false, seq![]);
            if s.position + n < s.cells.len() {
                r == State { position: s.position + n, ..s }
            } else {
                &&& r.violation == Some(BoundsViolation { bound: Bound::Right, position })
                &&& r.cells == s.cells
                &&& r.read == s.read
                &&& r.written == s.written
            }
        }),
    decreases n,
{
    if n > 0 {
        lemma_right_one_by_one(s, (n - 1) as nat, position);
        let before = effect_one_by_one(s, Token::Right, (n - 1) as nat, position, false, seq![]);
        if s.position + n - 1 < s.cells.len() {
            assert(right_of(before.position, 1) == s.position + n);
        }
    }
}

/// Single moves to the left reach the cell `n` back, or stop at the left
/// bound.
proof fn lemma_left_one_by_one(s: State, n: nat, position: usize)
    requires
        s.wf(),
        s.violation is None,
    ensures
        ({
            let r = effect_one_by_one(s, Token::Left, n, position, false, seq![]);
            if n <= s.position {
                r == State { position: (s.position - n) as nat, ..s }
            } else {
                &&& r.violation == Some(BoundsViolation { bound: Bound::Left, position })
                &&& r.cells == s.cells
                &&& r.read == s.read
                &&& r.written == s.written
            }
        }),
    decreases n,
{
    if n > 0 {
        lemma_left_one_by_one(s, (n - 1) as nat, position);
        let before = effect_one_by_one(s, Token::Left, (n - 1) as nat, position, false, seq![]);
        if n - 1 <= s.position {
            if before.position > 0 {
                assert(left_of(before.position, 1) == before.position - 1);
            } else {
                assert(left_of(before.position, 1) == 65535);
            }
        }
    }
}

/// A move to the right in one step agrees with single moves, unless the step
/// wraps the position register back onto the tape.
proof fn lemma_right_batched(s: State, k: nat, position: usize)
    requires
        s.wf(),
        s.violation is None,
        right_of(s.position, k) >= s.cells.len() || s.position + k < 65536,
    ensures
        same_observation(
            effect(s, Token::Right, k, position, false, seq![]),
            effect_one_by_one(s, Token::Right, k, position, false, seq![]),
        ),
{
    lemma_right_one_by_one(s, k, position);
    if s.position + k < 65536 {
        assert(right_of(s.position, k) == s.position + k);
    }
}

/// A move to the left in one step agrees with single moves, unless the step
/// wraps the position register back onto the tape.
proof fn lemma_left_batched(s: State, k: nat, position: usize)
    requires
        s.wf(),
        s.violation is None,
        k <= s.position || left_of(s.position, k) > s.position,
    ensures
        same_observation(
            effect(s, Token::Left, k, position, false, seq![]),
            effect_one_by_one(s, Token::Left, k, position, false, seq![]),
        ),
{
    lemma_left_one_by_one(s, k, position);
    if k <= s.position {
        assert(left_of(s.position, k) == s.position - k);
    }
}

/// Single additions add up, wrapping at eight bits.
proof fn lemma_raise_one_by_one(s: State, n: nat, position: usize)
    requires
        s.wf(),
        s.violation is None,
    ensures
        effect_one_by_one(s, Token::Increment, n, position, false, seq![]) == s.with_cell(
            raised(s.cell(), n),
        ),
    decreases n,
{
    if n == 0 {
        assert(s.cells.update(s.position as int, raised(s.cell(), 0)) =~= s.cells);
    } else {
        lemma_raise_one_by_one(s, (n - 1) as nat, position);
        let before = effect_one_by_one(s, Token::Increment, (n - 1) as nat, position, false, seq![]);
        lemma_add_mod_noop(s.cell() + n - 1, 1, 256);
        assert(raised(before.cell(), 1) == raised(s.cell(), n));
        assert(before.cells.update(before.position as int, raised(s.cell(), n)) =~= s.cells.update(
            s.position as int,
            raised(s.cell(), n),
        ));
    }
}

/// Single subtractions add up, wrapping at eight bits.
proof fn lemma_lower_one_by_one(s: State, n: nat, position: usize)
    requires
        s.wf(),
        s.violation is None,
    ensures
        effect_one_by_one(s, Token::Decrement, n, position, false, seq![]) == s.with_cell(
            lowered(s.cell(), n),
        ),
    decreases n,
{
    if n == 0 {
        assert(s.cells.update(s.position as int, lowered(s.cell(), 0)) =~= s.cells);
    } else {
        lemma_lower_one_by_one(s, (n - 1) as nat, position);
        let before = effect_one_by_one(s, Token::Decrement, (n - 1) as nat, position, false, seq![]);
        lemma_sub_mod_noop(s.cell() - (n - 1), 1, 256);
        assert(lowered(before.cell(), 1) == lowered(s.cell(), n));
        assert(before.cells.update(before.position as int, lowered(s.cell(), n)) =~= s.cells.update(
            s.position as int,
            lowered(s.cell(), n),
        ));
    }
}

/// Single writes write the same value again: nothing changes the cell
/// between them.
proof fn lemma_write_one_by_one(s: State, t: Token, n: nat, position: usize)
    requires
        s.violation is None,
        t == Token::Output || t == Token::PrintNumber,
    ensures
        effect_one_by_one(s, t, n, position, false, seq![]) == effect(
            s,
            t,
            n,
            position,
            false,
            seq![],
        ),
    decreases n,
{
    let item = if t == Token::Output {
        Written::Byte(s.cell())
    } else {
        Written::Number(s.cell())
    };
    if n == 0 {
        assert(s.written + Seq::new(0, |k: int| item) =~= s.written);
        assert(effect(s, t, n, position, false, seq![]) =~= s);
    } else {
        lemma_write_one_by_one(s, t, (n - 1) as nat, position);
        let before = effect_one_by_one(s, t, (n - 1) as nat, position, false, seq![]);
        assert(before.written + Seq::new(1, |k: int| item) =~= s.written + Seq::new(
            n,
            |k: int| item,
        ));
        assert(effect(before, t, 1, position, false, seq![]) =~= effect(
            s,
            t,
            n,
            position,
            false,
            seq![],
        ));
    }
}

/// Single reads are the read cycles of one token.
proof fn lemma_read_one_by_one(
    s: State,
    n: nat,
    position: usize,
    newline_as_null: bool,
    input: Seq<u8>,
)
    requires
        s.violation is None,
    ensures
        effect_one_by_one(s, Token::Input, n, position, newline_as_null, input) == read_cycles(
            s,
            n,
            newline_as_null,
            input,
        ),
        read_cycles(s, n, newline_as_null, input).violation is None,
    decreases n,
{
    if n > 0 {
        lemma_read_one_by_one(s, (n - 1) as nat, position, newline_as_null, input);
        let before = read_cycles(s, (n - 1) as nat, newline_as_null, input);
        assert(read_cycles(before, 1, newline_as_null, input) == read_once(
            read_cycles(before, 0, newline_as_null, input),
            newline_as_null,
            input,
        ));
    }
}

/// What the state holds besides the place on the tape does not matter to a
/// move, an addition or a write: the input and the newline option are not
/// looked at.
proof fn lemma_input_is_not_looked_at(
    s: State,
    t: Token,
    n: nat,
    position: usize,
    newline_as_null: bool,
    input: Seq<u8>,
)
    requires
        t != Token::Input,
    ensures
        effect(s, t, n, position, newline_as_null, input) == effect(
            s,
            t,
            n,
            position,
            false,
            seq![],
        ),
        effect_one_by_one(s, t, n, position, newline_as_null, input) == effect_one_by_one(
            s,
            t,
            n,
            position,
            false,
            seq![],
        ),
    decreases n,
{
    if n > 0 {
        lemma_input_is_not_looked_at(s, t, (n - 1) as nat, position, newline_as_null, input);
    }
}

/// Run-length batching is transparent: the code of a token with repeat count
/// `k` leaves the same to observe as `k` tokens of the same command with
/// count one, run from the same state.
///
/// A move is folded into one step of the 16-bit position register. The law
/// leaves out the moves on which that step wraps back onto the tape: to the
/// right, a target beyond the register whose remainder is a cell; to the left,
/// a count beyond the position whose remainder is not. There the folded move
/// arrives on a cell where single moves stop at the bound.
pub proof fn lemma_batching_is_transparent(
    s: State,
    t: Token,
    k: nat,
    position: usize,
    newline_as_null: bool,
    input: Seq<u8>,
)
    requires
        s.wf(),
        t == Token::Right ==> right_of(s.position, k) >= s.cells.len() || s.position + k < 65536,
        t == Token::Left ==> k <= s.position || left_of(s.position, k) > s.position,
    ensures
        same_observation(
            effect(s, t, k, position, newline_as_null, input),
            effect_one_by_one(s, t, k, position, newline_as_null, input),
        ),
{
    if s.violation is Some {
        lemma_stopped(s, t, k, position, newline_as_null, input);
    } else if t == Token::Input {
        lemma_read_one_by_one(s, k, position, newline_as_null, input);
    } else {
        lemma_input_is_not_looked_at(s, t, k, position, newline_as_null, input);
        match t {
            Token::Right => {
                lemma_right_batched(s, k, position);
            },
            Token::Left => {
                lemma_left_batched(s, k, position);
            },
            Token::Increment => {
                lemma_raise_one_by_one(s, k, position);
            },
            Token::Decrement => {
                lemma_lower_one_by_one(s, k, position);
            },
            Token::Output => {
                lemma_write_one_by_one(s, t, k, position);
            },
            Token::PrintNumber => {
                lemma_write_one_by_one(s, t, k, position);
            },
            _ => {
                lemma_stays(s, t, k, position);
            },
        }
    }
}

/// A loop start or end leaves the state alone, however often it is repeated.
proof fn lemma_stays(s: State, t: Token, n: nat, position: usize)
    requires
        t == Token::LoopStart || t == Token::LoopEnd,
    ensures
        effect_one_by_one(s, t, n, position, false, seq![]) == s,
    decreases n,
{
    if n > 0 {
        lemma_stays(s, t, (n - 1) as nat, position);
    }
}

} // verus!
