//! The assembly of a whole program from its tokens.

use vstd::prelude::*;
use vstd::string::*;
use crate::brackets::{closes_within, well_nested, Entry};
use crate::emit::{process_token, token_text};
use crate::error::MalformedBracketNesting;
use crate::lexer::{encode, tokenize, EncodedToken};
use crate::nesting::{
    accepted, brackets_of, is_first_fault, lemma_accepted_is_well_nested, nests, stack_before,
};
use crate::preamble::{init_text, write_init};
use crate::templates::{source_line, source_line_text, CONSOLE, PROGRAM_END};

verus! {

/// The code of the first `n` tokens, in order.
pub open spec fn body_text(
    ts: Seq<EncodedToken>,
    n: nat,
    newline_as_null: bool,
    cells: nat,
) -> Seq<char>
    decreases n,
{
    if n == 0 {
        Seq::empty()
    } else {
        let i = (n - 1) as nat;
        body_text(ts, i, newline_as_null, cells) + token_text(
            ts[i as int].token,
            ts[i as int].count as nat,
            i,
            ts[i as int].position as nat,
            stack_before(ts, i),
            newline_as_null,
            cells,
        )
    }
}

/// The name of the program's origin in the module header: the given name, or
/// a placeholder where no file backs the program.
pub open spec fn source_label(source: Option<Seq<char>>) -> Seq<char> {
    match source {
        Some(name) => name,
        None => CONSOLE@,
    }
}

/// The complete program: the module header, the preamble and the head of the
/// entry function, the code of every token, and the end of the entry function.
pub open spec fn program_text(
    ts: Seq<EncodedToken>,
    cells: nat,
    newline_as_null: bool,
    source: Option<Seq<char>>,
) -> Seq<char> {
    source_line_text(source_label(source)) + init_text(cells) + body_text(
        ts,
        ts.len(),
        newline_as_null,
        cells,
    ) + PROGRAM_END@
}

/// What `assemble` owes for a token sequence: the program where every loop end
/// finds its loop and no loop is left open, and otherwise the first fault.
pub open spec fn assembled(
    ts: Seq<EncodedToken>,
    cells: nat,
    newline_as_null: bool,
    source: Option<Seq<char>>,
    r: Result<String, MalformedBracketNesting>,
) -> bool {
    match r {
        Ok(text) => nests(ts) && text@ == program_text(ts, cells, newline_as_null, source),
        Err(fault) => is_first_fault(ts, fault),
    }
}

/// Assembles the program text for a token sequence.
///
/// `cell_count` is the size of the tape; with `newline_as_null` every read
/// stores 0 in place of a newline; `source` names the file that the program
/// came from, if there is one.
///
/// The text is produced exactly where the brackets of the sequence are well
/// nested. Otherwise the first fault is reported: the first loop end that has
/// no loop to close or, where there is none, the innermost loop that is never
/// closed.
pub fn assemble(
    tokens: &Vec<EncodedToken>,
    cell_count: u16,
    newline_as_null: bool,
    source: Option<&str>,
) -> (r: Result<String, MalformedBracketNesting>)
    ensures
        assembled(
            tokens@,
            cell_count as nat,
            newline_as_null,
            match source {
                Some(name) => Some(name@),
                None => None,
            },
            r,
        ),
        r is Ok <==> well_nested(brackets_of(tokens@, tokens@.len())),
{
    let mut brkcs: Vec<Entry> = Vec::new();
    let mut body = String::new();
    let n: usize = tokens.len();
    let mut i: usize = 0;
    while i < n
        invariant
            i <= n,
            n == tokens.len(),
            accepted(tokens@, i as nat),
            brkcs@ == stack_before(tokens@, i as nat),
            body@ == body_text(tokens@, i as nat, newline_as_null, cell_count as nat),
        decreases n - i,
    {
        let unit = tokens[i];
        match process_token(
            unit.token,
            unit.count,
            i,
            unit.position,
            &mut brkcs,
            newline_as_null,
            cell_count,
            &mut body,
        ) {
            Ok(()) => {},
            Err(e) => {
                proof {
                    lemma_accepted_is_well_nested(tokens@);
                    assert(!closes_within(
                        stack_before(tokens@, i as nat),
                        unit.token,
                        unit.count as nat,
                    ));
                }
                return Err(e);
            },
        }
        i += 1;
    }
    proof {
        lemma_accepted_is_well_nested(tokens@);
    }
    if brkcs.len() > 0 {
        let top = brkcs[brkcs.len() - 1];
        return Err(MalformedBracketNesting::UnclosedOpen { token_index: top.0, repetition: top.1 });
    }
    let mut text = match source {
        Some(name) => source_line(name),
        None => source_line(CONSOLE),
    };
    write_init(&mut text, cell_count);
    text.append(body.as_str());
    text.append(PROGRAM_END);
    Ok(text)
}

/// Translates a source text into the program text: the source is run-length
/// encoded and the tokens are assembled.
pub fn compile(
    source_text: &str,
    cell_count: u16,
    newline_as_null: bool,
    source: Option<&str>,
) -> (r: Result<String, MalformedBracketNesting>)
    ensures
        assembled(
            encode(source_text@),
            cell_count as nat,
            newline_as_null,
            match source {
                Some(name) => Some(name@),
                None => None,
            },
            r,
        ),
        r is Ok <==> well_nested(brackets_of(encode(source_text@), encode(source_text@).len())),
{
    let tokens = tokenize(source_text);
    assemble(&tokens, cell_count, newline_as_null, source)
}

} // verus!
