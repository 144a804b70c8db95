//! The fixed head of every generated program.

use vstd::prelude::*;
use vstd::string::*;
use crate::decimal::{decimal, decimal_len, decimal_string};
use crate::templates::{entry, entry_text, right_message, right_message_text, LEFT_MESSAGE};

verus! {

/// The runtime that the generated code leans on, written ahead of it word for
/// word: the output, input and formatted-print primitives and the intrinsic
/// that zeroes memory; the empty message, the format of a panic report and the
/// format of a numeric print; and the process entry, which runs the generated
/// entry function and hands its exit code to the system.
pub const PREAMBLE: &'static str =
    "declare void @putchar(i8)\ndeclare i8 @getchar()\ndeclare void @printf(ptr, ...)\ndeclare void @llvm.memset.p0.i32(ptr, i8, i32, i1)\n\n@none = private constant [1 x i8] c\"\\00\"\n@panic_f = private constant [16 x i8] c\"%s at char %hu\\0A\\00\"\n@i_print = private constant [5 x i8] c\"%hhu\\00\"\n\ndefine i32 @main() {\n  %status = call i8 @code()\n  %wide = zext i8 %status to i32\n  ret i32 %wide\n}\n";

/// The size of the constant that holds the right-bound message for a tape of
/// `cells` cells: the length of the message and one more for the terminator.
pub open spec fn right_message_size(cells: nat) -> nat {
    right_message_text(decimal(cells)).len() + 1
}

/// What stands between the module header and the code of the first token: the
/// preamble, the two bound messages, and the head of the entry function with a
/// tape of `cells` cells. The messages are those that a violation reports.
pub open spec fn init_text(cells: nat) -> Seq<char> {
    PREAMBLE@ + "\n"@ + entry_text(
        decimal(right_message_size(cells)),
        right_message_text(decimal(cells)),
        LEFT_MESSAGE@,
        decimal(cells),
    )
}

/// The left-bound message has 38 characters, so its constant, which is written
/// with a fixed size, holds it with its terminator.
pub proof fn lemma_left_message_size()
    ensures
        LEFT_MESSAGE@.len() + 1 == 39,
{
    reveal_strlit("exceeded bounds check (smaller than 0)");
}

/// Writes the preamble and the head of the entry function to the end of `f`.
pub fn write_init(f: &mut String, cell_count: u16)
    ensures
        final(f)@ == old(f)@ + init_text(cell_count as nat),
{
    let word: usize = cell_count as usize;
    let cells = decimal_string(word);
    let size: usize = 36 + decimal_len(word) + 1;
    proof {
        reveal_strlit("exceeded bounds check (larger than ");
        reveal_strlit(")");
        assert(size == right_message_size(cell_count as nat));
    }
    let size_text = decimal_string(size);
    let message = right_message(cells.as_str());
    let mut text = String::from_str(PREAMBLE);
    text.append("\n");
    text.append(
        entry(size_text.as_str(), message.as_str(), LEFT_MESSAGE, cells.as_str()).as_str(),
    );
    f.append(text.as_str());
}

} // verus!
