//! The tape machine: what a generated program does to its tape when it runs.
//!
//! The assembler writes text; this module states what that text is written
//! to do, command by command, so that it can be reasoned about and tried out.
//! The state holds what a run can show: the cells, the position register,
//! what was read and written, and the bounds violation that ended the run, if
//! one did.

use vstd::arithmetic::div_mod::{
    lemma_add_mod_noop_right, lemma_mod_add_multiples_vanish, lemma_sub_mod_noop_right,
};
use vstd::prelude::*;
use vstd::string::*;
use crate::decimal::{decimal, decimal_string, successor_decimal_string};
use crate::templates::{right_message, right_message_text, LEFT_MESSAGE};
use crate::token::Token;

verus! {

/// The bound of the tape that a move passed.
#[derive(Debug, Clone, Copy, PartialEq, Eq, Structural)]
pub enum Bound {
    Right,
    Left,
}

/// A move that left the tape. The program reports it and exits with a
/// nonzero status; nothing after it is run.
#[derive(Debug, Clone, Copy, PartialEq, Eq, Structural)]
pub struct BoundsViolation {
    /// Which bound was passed.
    pub bound: Bound,
    /// The source index, counted from zero, of the command that moved.
    pub position: usize,
}

/// One thing that a program wrote.
#[derive(Debug, Clone, Copy, PartialEq, Eq, Structural)]
pub enum Written {
    /// A cell value written as a byte.
    Byte(u8),
    /// A cell value printed as a number.
    Number(u8),
}

/// What a running program has reached.
pub struct State {
    /// The tape.
    pub cells: Seq<u8>,
    /// The position register.
    pub position: nat,
    /// How many bytes of the input have been read.
    pub read: nat,
    /// What has been written, in order.
    pub written: Seq<Written>,
    /// The bounds violation that stopped the program, if one did.
    pub violation: Option<BoundsViolation>,
}

impl State {
    /// The position is on the tape, and the tape is one that a 16-bit
    /// position register can address.
    pub open spec fn wf(self) -> bool {
        self.position < self.cells.len() <= 65535
    }

    /// The value of the cell under the position.
    pub open spec fn cell(self) -> u8 {
        self.cells[self.position as int]
    }

    /// The state with `value` in the cell under the position.
    pub open spec fn with_cell(self, value: u8) -> State {
        State { cells: self.cells.update(self.position as int, value), ..self }
    }
}

/// The message that the program prints for a violation, on a tape of `cells`
/// cells.
pub open spec fn violation_message(bound: Bound, cells: nat) -> Seq<char> {
    match bound {
        Bound::Right => right_message_text(decimal(cells)),
        Bound::Left => LEFT_MESSAGE@,
    }
}

/// The byte that the next read yields: the next byte of the input, or 255, the
/// end-of-file value cut to a byte, once the input is used up.
pub open spec fn next_byte(input: Seq<u8>, read: nat) -> u8 {
    if read < input.len() {
        input[read as int]
    } else {
        255
    }
}

/// The byte that a read stores: 0 in place of a newline where that is asked
/// for, and the byte itself otherwise.
pub open spec fn stored_byte(byte: u8, newline_as_null: bool) -> u8 {
    if newline_as_null && byte == 10 {
        0
    } else {
        byte
    }
}

/// One read cycle.
pub open spec fn read_once(s: State, newline_as_null: bool, input: Seq<u8>) -> State {
    State {
        read: if s.read < input.len() {
            s.read + 1
        } else {
            s.read
        },
        ..s.with_cell(stored_byte(next_byte(input, s.read), newline_as_null))
    }
}

/// `n` read cycles, one after the other.
pub open spec fn read_cycles(s: State, n: nat, newline_as_null: bool, input: Seq<u8>) -> State
    decreases n,
{
    if n == 0 {
        s
    } else {
        read_once(read_cycles(s, (n - 1) as nat, newline_as_null, input), newline_as_null, input)
    }
}

/// The position that a move to the right by `count` computes: the sum in a
/// 16-bit register.
pub open spec fn right_of(position: nat, count: nat) -> nat {
    ((position + count) % 65536) as nat
}

/// The position that a move to the left by `count` computes: the difference
/// in a 16-bit unsigned register, which wraps below zero.
pub open spec fn left_of(position: nat, count: nat) -> nat {
    ((position - count) % 65536) as nat
}

/// A cell value after `count` is added to it, wrapping at eight bits.
pub open spec fn raised(value: u8, count: nat) -> u8 {
    ((value + count) % 256) as u8
}

/// A cell value after `count` is subtracted from it, wrapping at eight bits.
pub open spec fn lowered(value: u8, count: nat) -> u8 {
    ((value - count) % 256) as u8
}

/// What the code of one token does to the state, for the commands that work
/// on the tape. `position` is the source index of the token's first
/// character. A loop start or end only directs control and leaves the state
/// alone, and after a bounds violation nothing happens any more.
///
/// A move is one step by `count`, checked before it is committed: to the
/// right against the number of cells, to the left by the wrap of the unsigned
/// register. Addition and subtraction act once, by `count`. Writing and
/// printing take the cell value once and use it `count` times. Reading is
/// `count` separate cycles.
pub open spec fn effect(
    s: State,
    t: Token,
    count: nat,
    position: usize,
    newline_as_null: bool,
    input: Seq<u8>,
) -> State {
    if s.violation is Some {
        s
    } else {
        match t {
            Token::Right => if right_of(s.position, count) >= s.cells.len() {
                State { violation: Some(BoundsViolation { bound: Bound::Right, position }), ..s }
            } else {
                State { position: right_of(s.position, count), ..s }
            },
            Token::Left => if left_of(s.position, count) > s.position {
                State { violation: Some(BoundsViolation { bound: Bound::Left, position }), ..s }
            } else {
                State { position: left_of(s.position, count), ..s }
            },
            Token::Increment => s.with_cell(raised(s.cell(), count)),
            Token::Decrement => s.with_cell(lowered(s.cell(), count)),
            Token::Output => State {
                written: s.written + Seq::new(count, |k: int| Written::Byte(s.cell())),
                ..s
            },
            Token::PrintNumber => State {
                written: s.written + Seq::new(count, |k: int| Written::Number(s.cell())),
                ..s
            },
            Token::Input => read_cycles(s, count, newline_as_null, input),
            Token::LoopStart => s,
            Token::LoopEnd => s,
        }
    }
}

/// The position never leaves the tape: whatever a token does, the cell under
/// the position is a cell of the tape afterwards, so no access of the
/// generated code falls outside it.
pub proof fn lemma_position_stays_on_tape(
    s: State,
    t: Token,
    count: nat,
    position: usize,
    newline_as_null: bool,
    input: Seq<u8>,
)
    requires
        s.wf(),
    ensures
        effect(s, t, count, position, newline_as_null, input).wf(),
        effect(s, t, count, position, newline_as_null, input).cells.len() == s.cells.len(),
{
    if t == Token::Input {
        lemma_reads_keep_the_place(s, count, newline_as_null, input);
    }
}

/// Reading changes cells only: the tape keeps its size, the position stays,
/// and no violation arises.
pub proof fn lemma_reads_keep_the_place(s: State, n: nat, newline_as_null: bool, input: Seq<u8>)
    requires
        s.wf(),
    ensures
        read_cycles(s, n, newline_as_null, input).cells.len() == s.cells.len(),
        read_cycles(s, n, newline_as_null, input).position == s.position,
        read_cycles(s, n, newline_as_null, input).written == s.written,
        read_cycles(s, n, newline_as_null, input).violation == s.violation,
    decreases n,
{
    if n > 0 {
        lemma_reads_keep_the_place(s, (n - 1) as nat, newline_as_null, input);
    }
}

/// A move is a violation exactly where it would leave the tape, and a move
/// that stays on the tape arrives where it should. The violation names the
/// bound that was passed and the command that moved. Left out are the moves on
/// which the one step wraps the 16-bit position register back onto the tape:
/// those arrive on a cell and go unnoticed.
pub proof fn lemma_moves_are_checked(s: State, t: Token, count: nat, position: usize)
    requires
        s.wf(),
        s.violation is None,
        t == Token::Right ==> right_of(s.position, count) >= s.cells.len() || s.position + count
            < 65536,
        t == Token::Left ==> count <= s.position || left_of(s.position, count) > s.position,
    ensures
        t == Token::Right ==> effect(s, t, count, position, false, seq![]) == if s.position + count
            < s.cells.len() {
            State { position: s.position + count, ..s }
        } else {
            State { violation: Some(BoundsViolation { bound: Bound::Right, position }), ..s }
        },
        t == Token::Left ==> effect(s, t, count, position, false, seq![]) == if count
            <= s.position {
            State { position: (s.position - count) as nat, ..s }
        } else {
            State { violation: Some(BoundsViolation { bound: Bound::Left, position }), ..s }
        },
{
    if t == Token::Right && s.position + count < 65536 {
        assert(right_of(s.position, count) == s.position + count);
    }
    if t == Token::Left && count <= s.position {
        assert(left_of(s.position, count) == s.position - count);
    }
}

/// What `n` tokens in a row do, each a single repetition of the command.
pub open spec fn effect_one_by_one(
    s: State,
    t: Token,
    n: nat,
    position: usize,
    newline_as_null: bool,
    input: Seq<u8>,
) -> State
    decreases n,
{
    if n == 0 {
        s
    } else {
        effect(
            effect_one_by_one(s, t, (n - 1) as nat, position, newline_as_null, input),
            t,
            1,
            position,
            newline_as_null,
            input,
        )
    }
}

/// Whether two states show the same to an observer: the same violation, the
/// same input used and output written and, while the program runs on, the
/// same tape and position.
pub open spec fn same_observation(a: State, b: State) -> bool {
    &&& a.violation == b.violation
    &&& a.read == b.read
    &&& a.written == b.written
    &&& a.violation is None ==> a.cells == b.cells && a.position == b.position
}

/// A machine: the state of a program, held in memory.
#[derive(Debug, PartialEq, Eq)]
pub struct Machine {
    pub cells: Vec<u8>,
    pub position: u16,
    pub read: usize,
    pub written: Vec<Written>,
    pub violation: Option<BoundsViolation>,
}

impl View for Machine {
    type V = State;

    open spec fn view(&self) -> State {
        State {
            cells: self.cells@,
            position: self.position as nat,
            read: self.read as nat,
            written: self.written@,
            violation: self.violation,
        }
    }
}

/// The byte that a read stores.
pub fn byte_to_store(byte: u8, newline_as_null: bool) -> (r: u8)
    ensures
        r == stored_byte(byte, newline_as_null),
        newline_as_null && byte == 10 ==> r == 0,
        !(newline_as_null && byte == 10) ==> r == byte,
{
    if newline_as_null && byte == 10 {
        0
    } else {
        byte
    }
}

impl Machine {
    /// Whether the machine holds a state that a program can be in.
    pub open spec fn wf(&self) -> bool {
        self@.wf()
    }

    /// The machine at the start of a program: a tape of `cell_count` zeroed
    /// cells, the position on the first, nothing read or written. A tape
    /// without cells has no cell under the position, so there is no machine
    /// for it.
    pub fn new(cell_count: u16) -> (r: Option<Machine>)
        ensures
            r is Some <==> cell_count >= 1,
            r matches Some(m) ==> {
                &&& m.wf()
                &&& m@.cells == Seq::new(cell_count as nat, |i: int| 0u8)
                &&& m@.position == 0
                &&& m@.read == 0
                &&& m@.written == Seq::<Written>::empty()
                &&& m@.violation is None
            },
    {
        if cell_count == 0 {
            return None;
        }
        let mut cells: Vec<u8> = Vec::new();
        let mut i: u16 = 0;
        while i < cell_count
            invariant
                i <= cell_count,
                cells@ == Seq::new(i as nat, |i: int| 0u8),
            decreases cell_count - i,
        {
            cells.push(0);
            i += 1;
            assert(cells@ =~= Seq::new(i as nat, |i: int| 0u8));
        }
        Some(Machine { cells, position: 0, read: 0, written: Vec::new(), violation: None })
    }

    /// The status with which the program exits: 1 after a bounds violation,
    /// 0 otherwise.
    pub fn exit_code(&self) -> (r: u8)
        ensures
            r == if self@.violation is Some {
                1u8
            } else {
                0u8
            },
    {
        if self.violation.is_some() {
            1
        } else {
            0
        }
    }

    /// The value of the cell under the position.
    pub fn cell(&self) -> (r: u8)
        requires
            self.wf(),
        ensures
            r == self@.cell(),
    {
        self.cells[self.position as usize]
    }

    /// Writes the cell value `count` times, as bytes or as numbers.
    fn write(&mut self, count: usize, as_number: bool)
        requires
            old(self).wf(),
        ensures
            final(self).wf(),
            final(self)@ == (State {
                written: old(self)@.written + Seq::new(
                    count as nat,
                    |k: int|
                        if as_number {
                            Written::Number(old(self)@.cell())
                        } else {
                            Written::Byte(old(self)@.cell())
                        },
                ),
                ..old(self)@
            }),
    {
        let value = self.cell();
        let item = if as_number {
            Written::Number(value)
        } else {
            Written::Byte(value)
        };
        let ghost before = self.written@;
        let mut k: usize = 0;
        assert(self.written@ =~= before + Seq::new(0, |k: int| item));
        while k < count
            invariant
                k <= count,
                self.wf(),
                self.written@ == before + Seq::new(k as nat, |k: int| item),
                self.cells == old(self).cells,
                self.position == old(self).position,
                self.read == old(self).read,
                self.violation == old(self).violation,
            decreases count - k,
        {
            self.written.push(item);
            k += 1;
            assert(self.written@ =~= before + Seq::new(k as nat, |k: int| item));
        }
        assert(Seq::new(count as nat, |k: int| item) =~= Seq::new(
            count as nat,
            |k: int|
                if as_number {
                    Written::Number(old(self)@.cell())
                } else {
                    Written::Byte(old(self)@.cell())
                },
        ));
    }

    /// Runs `count` read cycles.
    fn read(&mut self, count: usize, newline_as_null: bool, input: &Vec<u8>)
        requires
            old(self).wf(),
        ensures
            final(self).wf(),
            final(self)@ == read_cycles(old(self)@, count as nat, newline_as_null, input@),
    {
        let mut k: usize = 0;
        while k < count
            invariant
                k <= count,
                self.wf(),
                self@ == read_cycles(old(self)@, k as nat, newline_as_null, input@),
            decreases count - k,
        {
            let ghost before = self@;
            let byte: u8 = if self.read < input.len() {
                let byte = input[self.read];
                self.read += 1;
                byte
            } else {
                255
            };
            self.cells.set(self.position as usize, byte_to_store(byte, newline_as_null));
            k += 1;
            assert(self@ =~= read_once(before, newline_as_null, input@));
        }
    }

    /// Moves to the right.
    fn move_right(&mut self, count: usize, position: usize)
        requires
            old(self).wf(),
            old(self).violation is None,
        ensures
            final(self).wf(),
            final(self)@ == effect(old(self)@, Token::Right, count as nat, position, false, seq![]),
    {
        let at: usize = self.position as usize;
        let to: usize = (at + count % 65536) % 65536;
        proof {
            lemma_add_mod_noop_right(at as int, count as int, 65536);
        }
        if to >= self.cells.len() {
            self.violation = Some(BoundsViolation { bound: Bound::Right, position });
        } else {
            self.position = to as u16;
        }
    }

    /// Moves to the left.
    fn move_left(&mut self, count: usize, position: usize)
        requires
            old(self).wf(),
            old(self).violation is None,
        ensures
            final(self).wf(),
            final(self)@ == effect(old(self)@, Token::Left, count as nat, position, false, seq![]),
    {
        let at: usize = self.position as usize;
        let to: usize = (at + 65536 - count % 65536) % 65536;
        proof {
            lemma_sub_mod_noop_right(at as int, count as int, 65536);
            lemma_mod_add_multiples_vanish(at - count % 65536, 65536);
        }
        if to > at {
            self.violation = Some(BoundsViolation { bound: Bound::Left, position });
        } else {
            self.position = to as u16;
        }
    }

    /// Adds to the cell under the position.
    fn raise(&mut self, count: usize)
        requires
            old(self).wf(),
        ensures
            final(self).wf(),
            final(self)@ == old(self)@.with_cell(raised(old(self)@.cell(), count as nat)),
    {
        let at: usize = self.position as usize;
        let value: usize = self.cells[at] as usize;
        let sum: usize = (value + count % 256) % 256;
        proof {
            lemma_add_mod_noop_right(value as int, count as int, 256);
        }
        self.cells.set(at, sum as u8);
    }

    /// Subtracts from the cell under the position.
    fn lower(&mut self, count: usize)
        requires
            old(self).wf(),
        ensures
            final(self).wf(),
            final(self)@ == old(self)@.with_cell(lowered(old(self)@.cell(), count as nat)),
    {
        let at: usize = self.position as usize;
        let value: usize = self.cells[at] as usize;
        let difference: usize = (value + 256 - count % 256) % 256;
        proof {
            lemma_sub_mod_noop_right(value as int, count as int, 256);
            lemma_mod_add_multiples_vanish(value - count % 256, 256);
        }
        self.cells.set(at, difference as u8);
    }

    /// Does what the code of one token does, for the commands that work on
    /// the tape. `position` is the source index of the token's first
    /// character; `input` is everything that the program can read.
    pub fn apply(
        &mut self,
        t: Token,
        count: usize,
        position: usize,
        newline_as_null: bool,
        input: &Vec<u8>,
    )
        requires
            old(self).wf(),
        ensures
            final(self).wf(),
            final(self)@ == effect(
                old(self)@,
                t,
                count as nat,
                position,
                newline_as_null,
                input@,
            ),
    {
        if self.violation.is_some() {
            return;
        }
        match t {
            Token::Right => self.move_right(count, position),
            Token::Left => self.move_left(count, position),
            Token::Increment => self.raise(count),
            Token::Decrement => self.lower(count),
            Token::Output => self.write(count, false),
            Token::PrintNumber => self.write(count, true),
            Token::Input => self.read(count, newline_as_null, input),
            Token::LoopStart => {},
            Token::LoopEnd => {},
        }
    }
}

impl BoundsViolation {
    /// The message that the program prints, on a tape of `cell_count` cells:
    /// it tells a move past the right bound from one past the left.
    pub fn message(&self, cell_count: u16) -> (s: String)
        ensures
            s@ == violation_message(self.bound, cell_count as nat),
    {
        match self.bound {
            Bound::Right => {
                let cells = decimal_string(cell_count as usize);
                right_message(cells.as_str())
            },
            Bound::Left => String::from_str(LEFT_MESSAGE),
        }
    }

    /// The offset that the program reports: the source position of the
    /// command that moved, counted from one.
    pub fn reported_offset(&self) -> (s: String)
        ensures
            s@ == decimal(self.position as nat + 1),
    {
        successor_decimal_string(self.position)
    }
}

} // verus!
