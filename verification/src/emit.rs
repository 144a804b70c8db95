//! The code of one token: what is written for each command, and the function
//! that writes it while keeping the stack of open loops.

use vstd::prelude::*;
use vstd::string::*;
use crate::brackets::{closed_by, closes_within, pop_loops, push_loops, stack_after, Entry};
use crate::decimal::{
    decimal, decimal_string, is_digit, lemma_decimal_digits, lemma_decimal_injective,
    successor_decimal_string,
};
use crate::error::MalformedBracketNesting;
use crate::templates::{
    close_test, close_test_text, comment, comment_text, decrement, decrement_text, increment,
    increment_text, input_newline_as_null, input_newline_as_null_text, input_plain,
    input_plain_text, load_cell, load_cell_text, move_left, move_left_text, move_right,
    move_right_text, open_test, open_test_text, output_call, output_call_text, pair_id,
    pair_id_text, print_call, print_call_text, TOKEN_END,
};
use crate::token::{token_name, Token};

verus! {

/// A line written `times` times over.
pub open spec fn repeated(line: Seq<char>, times: nat) -> Seq<char>
    decreases times,
{
    if times == 0 {
        Seq::empty()
    } else {
        repeated(line, (times - 1) as nat) + line
    }
}

/// The suffix of the names that belong to repetition `k` of token `index`.
/// Every block label and every value of a loop start or a loop end carries
/// it.
pub open spec fn unit_id(index: nat, k: nat) -> Seq<char> {
    pair_id_text(decimal(index), decimal(k))
}

/// The suffix that names the loop of a stack entry.
pub open spec fn entry_id(entry: Entry) -> Seq<char> {
    unit_id(entry.0 as nat, entry.1 as nat)
}

/// The names of two repetitions are the same only where the tokens and the
/// repetitions are: a name is keyed by the pair, so no two units of a program
/// share a label or a value.
pub proof fn lemma_unit_id_injective(i1: nat, k1: nat, i2: nat, k2: nat)
    requires
        unit_id(i1, k1) == unit_id(i2, k2),
    ensures
        i1 == i2,
        k1 == k2,
{
    reveal_strlit("_");
    let a1 = decimal(i1);
    let a2 = decimal(i2);
    let b1 = decimal(k1);
    let b2 = decimal(k2);
    let u1 = unit_id(i1, k1);
    let u2 = unit_id(i2, k2);
    lemma_decimal_digits(i1);
    lemma_decimal_digits(i2);
    assert(u1.len() == a1.len() + 1 + b1.len());
    assert(u2.len() == a2.len() + 1 + b2.len());
    assert(u1[a1.len() as int] == '_');
    assert(u2[a2.len() as int] == '_');
    assert(!is_digit('_'));
    if a1.len() < a2.len() {
        assert(u2[a1.len() as int] == a2[a1.len() as int]);
        assert(is_digit(a2[a1.len() as int]));
    } else if a2.len() < a1.len() {
        assert(u1[a2.len() as int] == a1[a2.len() as int]);
        assert(is_digit(a1[a2.len() as int]));
    }
    assert forall|x: int| 0 <= x < a1.len() implies a1[x] == a2[x] by {
        assert(u1[x] == a1[x]);
        assert(u2[x] == a2[x]);
    }
    assert(a1 =~= a2);
    assert forall|x: int| 0 <= x < b1.len() implies b1[x] == b2[x] by {
        assert(u1[a1.len() + 1 + x] == b1[x]);
        assert(u2[a2.len() + 1 + x] == b2[x]);
    }
    assert(b1 =~= b2);
    lemma_decimal_injective(i1, i2);
    lemma_decimal_injective(k1, k2);
}

/// The name of a repetition is never the name of a whole token: the one holds
/// an underscore, the other digits only.
pub proof fn lemma_unit_id_is_no_token_id(index: nat, i: nat, k: nat)
    ensures
        decimal(index) != unit_id(i, k),
{
    reveal_strlit("_");
    lemma_decimal_digits(index);
    lemma_decimal_digits(i);
    let u = unit_id(i, k);
    let at = decimal(i).len() as int;
    assert(u[at] == '_');
    assert(!is_digit('_'));
    if decimal(index) == u {
        assert(is_digit(decimal(index)[at]));
    }
}

/// One read cycle, with or without the replacement of a newline by 0.
pub open spec fn input_cycle_text(id: Seq<char>, newline_as_null: bool) -> Seq<char> {
    if newline_as_null {
        input_newline_as_null_text(id)
    } else {
        input_plain_text(id)
    }
}

/// The suffix of the names in read cycle `k` of the input token `index`: the
/// first cycle goes by the token's own name, as the code of any other command
/// does, and each further cycle by the name of its repetition, so that a
/// repeated read defines no value twice.
pub open spec fn cycle_id(index: nat, k: nat) -> Seq<char> {
    if k == 0 {
        decimal(index)
    } else {
        unit_id(index, k)
    }
}

/// The names of two read cycles are the same only where the tokens and the
/// cycles are.
pub proof fn lemma_cycle_id_injective(i1: nat, k1: nat, i2: nat, k2: nat)
    requires
        cycle_id(i1, k1) == cycle_id(i2, k2),
    ensures
        i1 == i2,
        k1 == k2,
{
    if k1 == 0 && k2 == 0 {
        lemma_decimal_injective(i1, i2);
    } else if k1 == 0 {
        lemma_unit_id_is_no_token_id(i1, i2, k2);
    } else if k2 == 0 {
        lemma_unit_id_is_no_token_id(i2, i1, k1);
    } else {
        lemma_unit_id_injective(i1, k1, i2, k2);
    }
}

/// The first `n` read cycles of an input token. Reading cannot be folded:
/// each repetition has its own cycle.
pub open spec fn input_cycles_text(index: nat, n: nat, newline_as_null: bool) -> Seq<char>
    decreases n,
{
    if n == 0 {
        Seq::empty()
    } else {
        input_cycles_text(index, (n - 1) as nat, newline_as_null) + input_cycle_text(
            cycle_id(index, (n - 1) as nat),
            newline_as_null,
        )
    }
}

/// The entry of one loop: the cell is read and tested once.
pub open spec fn open_unit_text(id: Seq<char>) -> Seq<char> {
    load_cell_text(id) + open_test_text(id)
}

/// The first `n` loop entries of a loop start. Each repetition opens a loop of
/// its own, nested in the one before.
pub open spec fn open_units_text(index: nat, n: nat) -> Seq<char>
    decreases n,
{
    if n == 0 {
        Seq::empty()
    } else {
        open_units_text(index, (n - 1) as nat) + open_unit_text(unit_id(index, (n - 1) as nat))
    }
}

/// The exit of one loop: the cell is read and tested, and control returns to
/// the body of the loop named `partner` or leaves it.
pub open spec fn close_unit_text(id: Seq<char>, partner: Seq<char>) -> Seq<char> {
    load_cell_text(id) + close_test_text(id, partner)
}

/// The first `n` loop exits of a loop end that meets the open loops `stack`.
/// Repetition `k` closes the loop that lies `k` below the top of the stack.
pub open spec fn close_units_text(index: nat, n: nat, stack: Seq<Entry>) -> Seq<char>
    decreases n,
{
    if n == 0 {
        Seq::empty()
    } else {
        close_units_text(index, (n - 1) as nat, stack) + close_unit_text(
            unit_id(index, (n - 1) as nat),
            entry_id(closed_by(stack, (n - 1) as nat)),
        )
    }
}

/// The instructions of one token, between its two comments.
///
/// `index` is the token's place in the encoded sequence and names what is
/// written; `position` is the source index of its first character, reported
/// one-based where a move fails; `stack` holds the loops that are open before
/// the token; `cells` is the size of the tape.
pub open spec fn token_body_text(
    t: Token,
    count: nat,
    index: nat,
    position: nat,
    stack: Seq<Entry>,
    newline_as_null: bool,
    cells: nat,
) -> Seq<char> {
    let id = decimal(index);
    match t {
        Token::Right => move_right_text(id, decimal(count), decimal(cells), decimal(position + 1)),
        Token::Left => move_left_text(id, decimal(count), decimal(position + 1)),
        Token::Increment => load_cell_text(id) + increment_text(id, decimal(count)),
        Token::Decrement => load_cell_text(id) + decrement_text(id, decimal(count)),
        Token::Output => load_cell_text(id) + repeated(output_call_text(id), count),
        Token::Input => input_cycles_text(index, count, newline_as_null),
        Token::LoopStart => open_units_text(index, count),
        Token::LoopEnd => close_units_text(index, count, stack),
        Token::PrintNumber => load_cell_text(id) + repeated(print_call_text(id), count),
    }
}

/// Everything that is written for one token: a comment that describes it, its
/// instructions, and a closing comment.
pub open spec fn token_text(
    t: Token,
    count: nat,
    index: nat,
    position: nat,
    stack: Seq<Entry>,
    newline_as_null: bool,
    cells: nat,
) -> Seq<char> {
    comment_text(decimal(index), token_name(t), decimal(count), decimal(position + 1))
        + token_body_text(t, count, index, position, stack, newline_as_null, cells) + TOKEN_END@
}

/// Writes a line `times` times over.
fn repeat_line(line: &str, times: usize) -> (s: String)
    ensures
        s@ == repeated(line@, times as nat),
{
    let mut s = String::new();
    let mut k: usize = 0;
    while k < times
        invariant
            k <= times,
            s@ == repeated(line@, k as nat),
        decreases times - k,
    {
        s.append(line);
        k += 1;
    }
    s
}

/// Writes the name suffix of one repetition of one token.
fn unit_id_string(index: &str, k: usize) -> (s: String)
    ensures
        s@ == pair_id_text(index@, decimal(k as nat)),
{
    let which = decimal_string(k);
    pair_id(index, which.as_str())
}

/// Writes the read cycles of an input token.
fn input_cycles(index: usize, count: usize, newline_as_null: bool) -> (s: String)
    ensures
        s@ == input_cycles_text(index as nat, count as nat, newline_as_null),
{
    let id = decimal_string(index);
    let mut s = String::new();
    let mut k: usize = 0;
    while k < count
        invariant
            k <= count,
            id@ == decimal(index as nat),
            s@ == input_cycles_text(index as nat, k as nat, newline_as_null),
        decreases count - k,
    {
        let name = if k == 0 {
            String::from_str(id.as_str())
        } else {
            unit_id_string(id.as_str(), k)
        };
        let cycle = if newline_as_null {
            input_newline_as_null(name.as_str())
        } else {
            input_plain(name.as_str())
        };
        s.append(cycle.as_str());
        k += 1;
    }
    s
}

/// Writes the loop entries of a loop start.
fn open_units(index: usize, count: usize) -> (s: String)
    ensures
        s@ == open_units_text(index as nat, count as nat),
{
    let id = decimal_string(index);
    let mut s = String::new();
    let mut k: usize = 0;
    while k < count
        invariant
            k <= count,
            id@ == decimal(index as nat),
            s@ == open_units_text(index as nat, k as nat),
        decreases count - k,
    {
        let name = unit_id_string(id.as_str(), k);
        let mut unit = load_cell(name.as_str());
        let test = open_test(name.as_str());
        unit.append(test.as_str());
        s.append(unit.as_str());
        k += 1;
    }
    s
}

/// Writes the loop exits of a loop end. `closed` holds the loops that its
/// repetitions close, as they left the stack `stack`.
fn close_units(index: usize, closed: &Vec<Entry>, Ghost(stack): Ghost<Seq<Entry>>) -> (s: String)
    requires
        closed@ == Seq::new(closed@.len(), |l: int| closed_by(stack, l as nat)),
    ensures
        s@ == close_units_text(index as nat, closed@.len(), stack),
{
    let id = decimal_string(index);
    let count: usize = closed.len();
    let mut s = String::new();
    let mut k: usize = 0;
    while k < count
        invariant
            k <= count,
            count == closed@.len(),
            closed@ == Seq::new(closed@.len(), |l: int| closed_by(stack, l as nat)),
            id@ == decimal(index as nat),
            s@ == close_units_text(index as nat, k as nat, stack),
        decreases count - k,
    {
        let partner = closed[k];
        assert(partner == closed_by(stack, k as nat));
        let name = unit_id_string(id.as_str(), k);
        let partner_index = decimal_string(partner.0);
        let partner_name = unit_id_string(partner_index.as_str(), partner.1);
        let mut unit = load_cell(name.as_str());
        let test = close_test(name.as_str(), partner_name.as_str());
        unit.append(test.as_str());
        s.append(unit.as_str());
        k += 1;
    }
    s
}

/// Writes the code of one token to the end of `f` and updates the stack of
/// open loops.
///
/// A loop end with more repetitions than there are open loops is refused:
/// the error names the token, and neither the text nor the stack is touched.
/// Every other token succeeds.
pub fn process_token(
    t: Token,
    count: usize,
    index: usize,
    file_pos: usize,
    brkcs: &mut Vec<Entry>,
    override_enter_to_null: bool,
    cell_count: u16,
    f: &mut String,
) -> (r: Result<(), MalformedBracketNesting>)
    ensures
        r is Ok <==> closes_within(old(brkcs)@, t, count as nat),
        r is Ok ==> final(brkcs)@ == stack_after(old(brkcs)@, t, index, count as nat),
        r is Ok ==> final(f)@ == old(f)@ + token_text(
            t,
            count as nat,
            index as nat,
            file_pos as nat,
            old(brkcs)@,
            override_enter_to_null,
            cell_count as nat,
        ),
        r is Err ==> r == Err::<(), MalformedBracketNesting>(
            MalformedBracketNesting::UnmatchedClose { token_index: index },
        ),
        r is Err ==> final(brkcs)@ == old(brkcs)@ && final(f)@ == old(f)@,
{
    match t {
        Token::LoopEnd => {
            if count > brkcs.len() {
                return Err(MalformedBracketNesting::UnmatchedClose { token_index: index });
            }
        },
        _ => {},
    }
    let id = decimal_string(index);
    let amount = decimal_string(count);
    let at = successor_decimal_string(file_pos);
    let mut unit = comment(id.as_str(), t.name(), amount.as_str(), at.as_str());
    let body: String = match t {
        Token::Right => {
            let cells = decimal_string(cell_count as usize);
            move_right(id.as_str(), amount.as_str(), cells.as_str(), at.as_str())
        },
        Token::Left => move_left(id.as_str(), amount.as_str(), at.as_str()),
        Token::Increment => {
            let mut s = load_cell(id.as_str());
            s.append(increment(id.as_str(), amount.as_str()).as_str());
            s
        },
        Token::Decrement => {
            let mut s = load_cell(id.as_str());
            s.append(decrement(id.as_str(), amount.as_str()).as_str());
            s
        },
        Token::Output => {
            let mut s = load_cell(id.as_str());
            let call = output_call(id.as_str());
            s.append(repeat_line(call.as_str(), count).as_str());
            s
        },
        Token::Input => input_cycles(index, count, override_enter_to_null),
        Token::LoopStart => {
            push_loops(brkcs, index, count);
            open_units(index, count)
        },
        Token::LoopEnd => {
            let ghost before = brkcs@;
            let closed = pop_loops(brkcs, count);
            close_units(index, &closed, Ghost(before))
        },
        Token::PrintNumber => {
            let mut s = load_cell(id.as_str());
            let call = print_call(id.as_str());
            s.append(repeat_line(call.as_str(), count).as_str());
            s
        },
    };
    unit.append(body.as_str());
    unit.append(TOKEN_END);
    f.append(unit.as_str());
    Ok(())
}

} // verus!
