//! A whole program on the tape machine: the commands in order, and the loops
//! as the generated branches direct them.

use vstd::prelude::*;
use crate::brackets::{
    closed_by, closes_within, opened, pairs, pop_loops, push_loops, stack_after, Entry,
};
use crate::error::MalformedBracketNesting;
use crate::lexer::EncodedToken;
use crate::machine::{effect, Machine, State};
use crate::nesting::{
    accepted, bracket_at, brackets_of, is_first_fault, lemma_loop_end_closes_partner, nests,
    stack_before,
};
use crate::token::Token;

verus! {

/// How far a program has come: the state of the machine, and the unit of code
/// that is next: repetition `repetition` of token `token`. Only a loop start
/// or end has a unit for each repetition; the code of any other token is one
/// unit.
pub struct Progress {
    pub machine: State,
    pub token: nat,
    pub repetition: nat,
}

/// Whether the program has ended: by running off its end, or by a bounds
/// violation.
pub open spec fn finished(ts: Seq<EncodedToken>, p: Progress) -> bool {
    p.token >= ts.len() || p.machine.violation is Some
}

/// The unit that follows repetition `k` of token `i` in the text.
pub open spec fn place_after(ts: Seq<EncodedToken>, i: nat, k: nat) -> (nat, nat) {
    if i >= ts.len() {
        (ts.len(), 0)
    } else if k + 1 < ts[i as int].count {
        (i, k + 1)
    } else {
        (i + 1, 0)
    }
}

/// The loop end that closes a loop, found by reading on from token `m` with
/// `inner` loops open inside the loop: the first loop end that is left a
/// repetition once those are closed.
pub open spec fn scan_close(ts: Seq<EncodedToken>, m: nat, inner: nat) -> Option<(nat, nat)>
    decreases ts.len() - m,
{
    if m >= ts.len() {
        None
    } else {
        let unit = ts[m as int];
        match unit.token {
            Token::LoopStart => scan_close(ts, m + 1, inner + unit.count as nat),
            Token::LoopEnd => if inner < unit.count {
                Some((m, inner))
            } else {
                scan_close(ts, m + 1, (inner - unit.count) as nat)
            },
            _ => scan_close(ts, m + 1, inner),
        }
    }
}

/// The loop end, as token and repetition, that closes the loop which
/// repetition `k` of the loop start `i` opens. The later repetitions of the
/// same token open loops inside it.
pub open spec fn closer(ts: Seq<EncodedToken>, i: nat, k: nat) -> Option<(nat, nat)> {
    scan_close(ts, i + 1, (ts[i as int].count - 1 - k) as nat)
}

/// Where control goes from the unit at `p`.
///
/// A loop start tests the cell once: on zero control skips to what follows
/// the loop end that closes the loop, otherwise it enters the body. A loop end
/// tests the cell: on nonzero control goes back to what follows the loop
/// start that it closes, which is the entry that it finds on the stack of
/// open loops; otherwise it leaves the loop. Every other token is followed by
/// the next.
pub open spec fn next_place(ts: Seq<EncodedToken>, p: Progress) -> (nat, nat) {
    let unit = ts[p.token as int];
    match unit.token {
        Token::LoopStart => if p.repetition >= unit.count {
            (p.token + 1, 0)
        } else if p.machine.cell() == 0 {
            match closer(ts, p.token, p.repetition) {
                Some(end) => place_after(ts, end.0, end.1),
                None => (ts.len(), 0),
            }
        } else {
            place_after(ts, p.token, p.repetition)
        },
        Token::LoopEnd => if p.repetition >= unit.count {
            (p.token + 1, 0)
        } else if p.machine.cell() != 0 {
            let start = closed_by(stack_before(ts, p.token), p.repetition);
            place_after(ts, start.0 as nat, start.1 as nat)
        } else {
            place_after(ts, p.token, p.repetition)
        },
        _ => (p.token + 1, 0),
    }
}

/// One unit of code: its effect on the machine, and where control goes. A
/// program that has ended stays as it is.
pub open spec fn step(
    ts: Seq<EncodedToken>,
    p: Progress,
    newline_as_null: bool,
    input: Seq<u8>,
) -> Progress {
    if finished(ts, p) {
        p
    } else {
        let unit = ts[p.token as int];
        let to = next_place(ts, p);
        Progress {
            machine: effect(
                p.machine,
                unit.token,
                unit.count as nat,
                unit.position,
                newline_as_null,
                input,
            ),
            token: to.0,
            repetition: to.1,
        }
    }
}

/// `n` units of code, one after the other.
pub open spec fn steps(
    ts: Seq<EncodedToken>,
    p: Progress,
    n: nat,
    newline_as_null: bool,
    input: Seq<u8>,
) -> Progress
    decreases n,
{
    if n == 0 {
        p
    } else {
        step(ts, steps(ts, p, (n - 1) as nat, newline_as_null, input), newline_as_null, input)
    }
}

/// Once a program has ended, further steps change nothing.
pub proof fn lemma_ended_stays(
    ts: Seq<EncodedToken>,
    p: Progress,
    m: nat,
    n: nat,
    newline_as_null: bool,
    input: Seq<u8>,
)
    requires
        m <= n,
        finished(ts, steps(ts, p, m, newline_as_null, input)),
    ensures
        steps(ts, p, n, newline_as_null, input) == steps(ts, p, m, newline_as_null, input),
    decreases n,
{
    if m < n {
        lemma_ended_stays(ts, p, m, (n - 1) as nat, newline_as_null, input);
    }
}

/// Reading on from token `m`, the scan finds the loop end that closes the loop
/// whose entry lies at height `h` of the stack.
proof fn lemma_scan_finds(ts: Seq<EncodedToken>, m: nat, h: nat)
    requires
        nests(ts),
        m <= ts.len(),
        h < stack_before(ts, m).len(),
    ensures
        ({
            let stack = stack_before(ts, m);
            &&& scan_close(ts, m, (stack.len() - 1 - h) as nat) matches Some(end)
            &&& end.0 < ts.len()
            &&& ts[end.0 as int].token == Token::LoopEnd
            &&& end.1 < ts[end.0 as int].count
            &&& closed_by(stack_before(ts, end.0), end.1) == stack[h as int]
        }),
    decreases ts.len() - m,
{
    let stack = stack_before(ts, m);
    if m < ts.len() {
        let unit = ts[m as int];
        let inner = (stack.len() - 1 - h) as nat;
        assert(closes_within(stack, unit.token, unit.count as nat));
        assert(stack_before(ts, m + 1) == stack_after(
            stack,
            unit.token,
            m as usize,
            unit.count as nat,
        ));
        if unit.token == Token::LoopEnd && inner < unit.count {
        } else {
            lemma_scan_finds(ts, m + 1, h);
        }
    }
}

/// Where a loop start finds a zero cell, control skips to what follows the
/// loop end that closes its loop: the unit which, in the generated text,
/// defines the skip label of that loop start, because the entry that it takes
/// from the stack is the loop start's own.
pub proof fn lemma_skip_lands_after_partner(ts: Seq<EncodedToken>, i: nat, k: nat)
    requires
        nests(ts),
        i < ts.len(),
        ts[i as int].token == Token::LoopStart,
        k < ts[i as int].count,
    ensures
        closer(ts, i, k) matches Some(end) && {
            &&& end.0 < ts.len()
            &&& ts[end.0 as int].token == Token::LoopEnd
            &&& end.1 < ts[end.0 as int].count
            &&& closed_by(stack_before(ts, end.0), end.1) == (i as usize, k as usize)
        },
{
    let before = stack_before(ts, i);
    let count = ts[i as int].count as nat;
    let stack = stack_before(ts, i + 1);
    assert(stack == before + opened(i as usize, count));
    let h = before.len() + k;
    assert(stack[h as int] == (i as usize, k as usize));
    lemma_scan_finds(ts, i + 1, h);
}

/// The two jumps of a loop go between matching brackets: in a program that
/// nests, every repetition of a loop start has a loop end that closes it, the
/// skip on a zero cell leads behind that loop end, and the two brackets pair.
pub proof fn lemma_skip_target_pairs(ts: Seq<EncodedToken>, i: nat, k: nat)
    requires
        nests(ts),
        i < ts.len() <= usize::MAX,
        ts[i as int].token == Token::LoopStart,
        k < ts[i as int].count,
    ensures
        closer(ts, i, k) matches Some(end) && pairs(
            brackets_of(ts, ts.len()),
            bracket_at(ts, i, k),
            bracket_at(ts, end.0, end.1),
        ),
{
    lemma_skip_lands_after_partner(ts, i, k);
    let end = closer(ts, i, k)->0;
    assert(accepted(ts, end.0 + 1));
    let open = lemma_loop_end_closes_partner(ts, end.0, end.1);
}

/// For each loop end, the loops that its repetitions close, in the order of
/// the repetitions; nothing for any other token.
pub open spec fn loop_starts(ts: Seq<EncodedToken>, j: nat) -> Seq<Entry> {
    if ts[j as int].token == Token::LoopEnd {
        Seq::new(ts[j as int].count as nat, |l: int| closed_by(stack_before(ts, j), l as nat))
    } else {
        Seq::empty()
    }
}

/// Whether `backs` holds, token by token, the loops that the loop ends close.
pub open spec fn holds_loop_starts(ts: Seq<EncodedToken>, backs: Seq<Vec<Entry>>, n: nat) -> bool {
    &&& backs.len() == n
    &&& forall|j: int| 0 <= j < n ==> (#[trigger] backs[j])@ == loop_starts(ts, j as nat)
}

/// Pairs the loop brackets of a token sequence as the assembler does, and
/// hands out, for each loop end, the loops that it closes; or reports the
/// first fault.
pub fn pair_loops(tokens: &Vec<EncodedToken>) -> (r: Result<
    Vec<Vec<Entry>>,
    MalformedBracketNesting,
>)
    ensures
        match r {
            Ok(backs) => nests(tokens@) && holds_loop_starts(tokens@, backs@, tokens@.len()),
            Err(fault) => is_first_fault(tokens@, fault),
        },
{
    let n: usize = tokens.len();
    let mut stack: Vec<Entry> = Vec::new();
    let mut backs: Vec<Vec<Entry>> = Vec::new();
    let mut i: usize = 0;
    while i < n
        invariant
            i <= n,
            n == tokens.len(),
            accepted(tokens@, i as nat),
            stack@ == stack_before(tokens@, i as nat),
            holds_loop_starts(tokens@, backs@, i as nat),
        decreases n - i,
    {
        let unit = tokens[i];
        let ghost before = backs@;
        let row: Vec<Entry> = match unit.token {
            Token::LoopStart => {
                push_loops(&mut stack, i, unit.count);
                Vec::new()
            },
            Token::LoopEnd => {
                if unit.count > stack.len() {
                    return Err(MalformedBracketNesting::UnmatchedClose { token_index: i });
                }
                pop_loops(&mut stack, unit.count)
            },
            _ => Vec::new(),
        };
        assert(row@ =~= loop_starts(tokens@, i as nat));
        backs.push(row);
        i += 1;
        assert forall|j: int| 0 <= j < i implies (#[trigger] backs@[j])@ == loop_starts(
            tokens@,
            j as nat,
        ) by {
            if j < i - 1 {
                assert(backs@[j] == before[j]);
            }
        }
    }
    if stack.len() > 0 {
        let top = stack[stack.len() - 1];
        return Err(MalformedBracketNesting::UnclosedOpen { token_index: top.0, repetition: top.1 });
    }
    Ok(backs)
}

/// Finds the loop end that closes a loop by reading on from token `m`.
fn find_close(tokens: &Vec<EncodedToken>, from: usize, inner: usize) -> (r: Option<(usize, usize)>)
    requires
        from <= tokens@.len(),
    ensures
        match r {
            Some(end) => {
                &&& scan_close(tokens@, from as nat, inner as nat) == Some(
                    (end.0 as nat, end.1 as nat),
                )
                &&& end.0 < tokens@.len()
            },
            None => scan_close(tokens@, from as nat, inner as nat) is None,
        },
{
    let n: usize = tokens.len();
    let mut m: usize = from;
    let mut open: u128 = inner as u128;
    while m < n
        invariant
            from <= m <= n,
            n == tokens.len(),
            open <= (m - from + 1) * 0xffff_ffff_ffff_ffff,
            scan_close(tokens@, m as nat, open as nat) == scan_close(
                tokens@,
                from as nat,
                inner as nat,
            ),
        decreases n - m,
    {
        let unit = tokens[m];
        match unit.token {
            Token::LoopStart => {
                open = open + unit.count as u128;
            },
            Token::LoopEnd => {
                if open < unit.count as u128 {
                    return Some((m, open as usize));
                }
                open = open - unit.count as u128;
            },
            _ => {},
        }
        m += 1;
    }
    None
}

/// The unit that follows repetition `k` of token `i`.
fn place_after_unit(tokens: &Vec<EncodedToken>, i: usize, k: usize) -> (r: (usize, usize))
    ensures
        (r.0 as nat, r.1 as nat) == place_after(tokens@, i as nat, k as nat),
{
    if i >= tokens.len() {
        (tokens.len(), 0)
    } else if k < usize::MAX && k + 1 < tokens[i].count {
        (i, k + 1)
    } else {
        (i + 1, 0)
    }
}

/// Where an execution has come to.
#[derive(Debug, PartialEq, Eq)]
pub struct Outcome {
    /// The machine as the execution left it.
    pub machine: Machine,
    /// Whether the program has ended, by running off its end or by a bounds
    /// violation, or has only used up the steps that it was given.
    pub finished: bool,
}

/// The machine of `p`, with the program at its first unit.
pub open spec fn at_start(machine: State) -> Progress {
    Progress { machine, token: 0, repetition: 0 }
}

/// Runs a program on a machine for at most `limit` units of code.
///
/// The program is taken where the assembler takes it, and refused with the
/// same fault where it is not. `input` is everything that the program can
/// read. Loops may run forever, hence the limit.
pub fn execute(
    tokens: &Vec<EncodedToken>,
    machine: Machine,
    newline_as_null: bool,
    input: &Vec<u8>,
    limit: usize,
) -> (r: Result<Outcome, MalformedBracketNesting>)
    requires
        machine.wf(),
    ensures
        r is Ok <==> nests(tokens@),
        r matches Ok(outcome) ==> {
            let end = steps(tokens@, at_start(machine@), limit as nat, newline_as_null, input@);
            &&& outcome.machine.wf()
            &&& outcome.machine@ == end.machine
            &&& outcome.finished == finished(tokens@, end)
        },
        r matches Err(fault) ==> is_first_fault(tokens@, fault),
{
    let backs = match pair_loops(tokens) {
        Ok(backs) => backs,
        Err(fault) => {
            return Err(fault);
        },
    };
    let n: usize = tokens.len();
    let mut machine = machine;
    let mut token: usize = 0;
    let mut repetition: usize = 0;
    let mut done: usize = 0;
    let ghost start = at_start(machine@);
    while done < limit && token < n && machine.violation.is_none()
        invariant
            done <= limit,
            n == tokens.len(),
            machine.wf(),
            holds_loop_starts(tokens@, backs@, n as nat),
            steps(tokens@, start, done as nat, newline_as_null, input@) == (Progress {
                machine: machine@,
                token: token as nat,
                repetition: repetition as nat,
            }),
        decreases limit - done,
    {
        let ghost here = Progress {
            machine: machine@,
            token: token as nat,
            repetition: repetition as nat,
        };
        let unit = tokens[token];
        let to: (usize, usize) = match unit.token {
            Token::LoopStart => {
                if repetition >= unit.count {
                    (token + 1, 0)
                } else if machine.cell() == 0 {
                    match find_close(tokens, token + 1, unit.count - 1 - repetition) {
                        Some(end) => place_after_unit(tokens, end.0, end.1),
                        None => (n, 0),
                    }
                } else {
                    place_after_unit(tokens, token, repetition)
                }
            },
            Token::LoopEnd => {
                if repetition >= unit.count {
                    (token + 1, 0)
                } else if machine.cell() != 0 {
                    assert(backs@[token as int]@ == loop_starts(tokens@, token as nat));
                    let loop_start = backs[token][repetition];
                    place_after_unit(tokens, loop_start.0, loop_start.1)
                } else {
                    place_after_unit(tokens, token, repetition)
                }
            },
            _ => (token + 1, 0),
        };
        assert((to.0 as nat, to.1 as nat) == next_place(tokens@, here));
        machine.apply(unit.token, unit.count, unit.position, newline_as_null, input);
        token = to.0;
        repetition = to.1;
        done += 1;
    }
    let finished = !(token < n && machine.violation.is_none());
    proof {
        if finished {
            lemma_ended_stays(tokens@, start, done as nat, limit as nat, newline_as_null, input@);
        }
    }
    Ok(Outcome { machine, finished })
}

} // verus!
