//! The fixed shapes of the generated text, each with holes for the names and
//! numbers that vary. A shape is stated once as a sequence of characters and
//! written by one function that is proved to produce exactly that sequence.

use vstd::prelude::*;
use vstd::string::*;

verus! {

/// The line that closes the code of one token.
pub const TOKEN_END: &'static str = "; ------------\n\n";

/// The end of the entry function: control reaches the `exit` block, which
/// returns the exit code.
pub const PROGRAM_END: &'static str =
    "; ------- END ------ ;\n  br label %exit\nexit:\n  %exit_v = load i8, ptr %exit_code\n  ret i8 %exit_v\n}\n";

/// What the generated program prints when a move passes the left bound.
pub const LEFT_MESSAGE: &'static str = "exceeded bounds check (smaller than 0)";

/// The name that the module header gives a program that no file backs.
pub const CONSOLE: &'static str = "console";

/// The comment that opens the code of one token: its index, its command,
/// its repeat count and the one-based source offset of its first character.
pub open spec fn comment_text(index: Seq<char>, name: Seq<char>, count: Seq<char>, at: Seq<char>) -> Seq<char> {
    "; ---- "@ + index + " | "@ + name + " x "@ + count + " | at char "@ + at + " ----\n"@
}

/// Writes the comment that opens the code of one token.
pub fn comment(index: &str, name: &str, count: &str, at: &str) -> (s: String)
    ensures
        s@ == comment_text(index@, name@, count@, at@),
{
    let mut s = String::from_str("; ---- ");
    s.append(index);
    s.append(" | ");
    s.append(name);
    s.append(" x ");
    s.append(count);
    s.append(" | at char ");
    s.append(at);
    s.append(" ----\n");
    s
}

/// Three instructions that read the cell under the tape position into `%c` and
/// leave its address in `%t`, every name suffixed with `id`.
pub open spec fn load_cell_text(id: Seq<char>) -> Seq<char> {
    "  %pos"@ + id + " = load i16, ptr %pos\n"@
        + "  %t"@ + id + " = getelementptr i8, ptr %arr, i16 %pos"@ + id + "\n"@
        + "  %c"@ + id + " = load i8, ptr %t"@ + id + "\n"@
}

/// Writes the instructions that read the cell under the tape position.
pub fn load_cell(id: &str) -> (s: String)
    ensures
        s@ == load_cell_text(id@),
{
    let mut s = String::from_str("  %pos");
    s.append(id);
    s.append(" = load i16, ptr %pos\n");
    s.append("  %t");
    s.append(id);
    s.append(" = getelementptr i8, ptr %arr, i16 %pos");
    s.append(id);
    s.append("\n");
    s.append("  %c");
    s.append(id);
    s.append(" = load i8, ptr %t");
    s.append(id);
    s.append("\n");
    s
}

/// A move to the right by `count` cells in one addition. The new position is
/// compared, unsigned, with the number of cells; at or beyond it the code records
/// the offset `at` and the message for the right bound and branches to the shared
/// panic block, and only otherwise is the new position stored.
pub open spec fn move_right_text(id: Seq<char>, count: Seq<char>, cells: Seq<char>, at: Seq<char>) -> Seq<char> {
    "  %pos"@ + id + " = load i16, ptr %pos\n"@
        + "  %pos"@ + id + "n = add i16 %pos"@ + id + ", "@ + count + "\n"@
        + "  %rbound"@ + id + " = icmp uge i16 %pos"@ + id + "n, "@ + cells + "\n"@
        + "  br i1 %rbound"@ + id + ", label %bounds_panic"@ + id + ", label %continue"@ + id + "\n"@
        + "bounds_panic"@ + id + ":\n"@
        + "  store i16 "@ + at + ", ptr %panic_pos\n"@
        + "  store i8* @bounds_r_panic_msg, ptr %panic_msg\n"@
        + "  br label %panic\n"@
        + "continue"@ + id + ":\n"@
        + "  store i16 %pos"@ + id + "n, ptr %pos\n"@
}

/// Writes a bounds-checked move to the right.
pub fn move_right(id: &str, count: &str, cells: &str, at: &str) -> (s: String)
    ensures
        s@ == move_right_text(id@, count@, cells@, at@),
{
    let mut s = String::from_str("  %pos");
    s.append(id);
    s.append(" = load i16, ptr %pos\n");
    s.append("  %pos");
    s.append(id);
    s.append("n = add i16 %pos");
    s.append(id);
    s.append(", ");
    s.append(count);
    s.append("\n");
    s.append("  %rbound");
    s.append(id);
    s.append(" = icmp uge i16 %pos");
    s.append(id);
    s.append("n, ");
    s.append(cells);
    s.append("\n");
    s.append("  br i1 %rbound");
    s.append(id);
    s.append(", label %bounds_panic");
    s.append(id);
    s.append(", label %continue");
    s.append(id);
    s.append("\n");
    s.append("bounds_panic");
    s.append(id);
    s.append(":\n");
    s.append("  store i16 ");
    s.append(at);
    s.append(", ptr %panic_pos\n");
    s.append("  store i8* @bounds_r_panic_msg, ptr %panic_msg\n");
    s.append("  br label %panic\n");
    s.append("continue");
    s.append(id);
    s.append(":\n");
    s.append("  store i16 %pos");
    s.append(id);
    s.append("n, ptr %pos\n");
    s
}

/// A move to the left by `count` cells in one subtraction. The position register
/// is unsigned, so a move below zero wraps: it is detected by the new position
/// being greater, unsigned, than the old one. Then the code records the offset
/// `at` and the message for the left bound and branches to the shared panic
/// block; only otherwise is the new position stored. The comparison and the
/// branch on it share a line.
pub open spec fn move_left_text(id: Seq<char>, count: Seq<char>, at: Seq<char>) -> Seq<char> {
    "  %pos"@ + id + " = load i16, ptr %pos\n"@
        + "  %pos"@ + id + "n = sub i16 %pos"@ + id + ", "@ + count + "\n"@
        + "  %lbound"@ + id + " = icmp ugt i16 %pos"@ + id + "n, %pos"@ + id + "  br i1 %lbound"@ + id + ", label %bounds_panic"@ + id + ", label %continue"@ + id + "\n"@
        + "bounds_panic"@ + id + ":\n"@
        + "  store i16 "@ + at + ", ptr %panic_pos\n"@
        + "  store i8* @bounds_l_panic_msg, ptr %panic_msg\n"@
        + "  br label %panic\n"@
        + "continue"@ + id + ":\n"@
        + "  store i16 %pos"@ + id + "n, ptr %pos\n"@
}

/// Writes a bounds-checked move to the left.
pub fn move_left(id: &str, count: &str, at: &str) -> (s: String)
    ensures
        s@ == move_left_text(id@, count@, at@),
{
    let mut s = String::from_str("  %pos");
    s.append(id);
    s.append(" = load i16, ptr %pos\n");
    s.append("  %pos");
    s.append(id);
    s.append("n = sub i16 %pos");
    s.append(id);
    s.append(", ");
    s.append(count);
    s.append("\n");
    s.append("  %lbound");
    s.append(id);
    s.append(" = icmp ugt i16 %pos");
    s.append(id);
    s.append("n, %pos");
    s.append(id);
    s.append("  br i1 %lbound");
    s.append(id);
    s.append(", label %bounds_panic");
    s.append(id);
    s.append(", label %continue");
    s.append(id);
    s.append("\n");
    s.append("bounds_panic");
    s.append(id);
    s.append(":\n");
    s.append("  store i16 ");
    s.append(at);
    s.append(", ptr %panic_pos\n");
    s.append("  store i8* @bounds_l_panic_msg, ptr %panic_msg\n");
    s.append("  br label %panic\n");
    s.append("continue");
    s.append(id);
    s.append(":\n");
    s.append("  store i16 %pos");
    s.append(id);
    s.append("n, ptr %pos\n");
    s
}

/// Adds `count` to the cell that was read, wrapping at eight bits, and stores it.
pub open spec fn increment_text(id: Seq<char>, count: Seq<char>) -> Seq<char> {
    "  %c"@ + id + "n = add i8 %c"@ + id + ", "@ + count + "\n"@
        + "  store i8 %c"@ + id + "n, ptr %t"@ + id + "\n"@
}

/// Writes the wrapping addition to the cell that was read.
pub fn increment(id: &str, count: &str) -> (s: String)
    ensures
        s@ == increment_text(id@, count@),
{
    let mut s = String::from_str("  %c");
    s.append(id);
    s.append("n = add i8 %c");
    s.append(id);
    s.append(", ");
    s.append(count);
    s.append("\n");
    s.append("  store i8 %c");
    s.append(id);
    s.append("n, ptr %t");
    s.append(id);
    s.append("\n");
    s
}

/// Subtracts `count` from the cell that was read, wrapping at eight bits, and
/// stores it.
pub open spec fn decrement_text(id: Seq<char>, count: Seq<char>) -> Seq<char> {
    "  %c"@ + id + "n = sub i8 %c"@ + id + ", "@ + count + "\n"@
        + "  store i8 %c"@ + id + "n, ptr %t"@ + id + "\n"@
}

/// Writes the wrapping subtraction from the cell that was read.
pub fn decrement(id: &str, count: &str) -> (s: String)
    ensures
        s@ == decrement_text(id@, count@),
{
    let mut s = String::from_str("  %c");
    s.append(id);
    s.append("n = sub i8 %c");
    s.append(id);
    s.append(", ");
    s.append(count);
    s.append("\n");
    s.append("  store i8 %c");
    s.append(id);
    s.append("n, ptr %t");
    s.append(id);
    s.append("\n");
    s
}

/// One call that writes the cell value that was read as a byte.
pub open spec fn output_call_text(id: Seq<char>) -> Seq<char> {
    "  call void @putchar(i8 %c"@ + id + ")\n"@
}

/// Writes one call that outputs the cell value that was read.
pub fn output_call(id: &str) -> (s: String)
    ensures
        s@ == output_call_text(id@),
{
    let mut s = String::from_str("  call void @putchar(i8 %c");
    s.append(id);
    s.append(")\n");
    s
}

/// One call that prints the cell value that was read as a number.
pub open spec fn print_call_text(id: Seq<char>) -> Seq<char> {
    "  call void @printf(ptr @i_print, i8 %c"@ + id + ")\n"@
}

/// Writes one call that prints the cell value that was read as a number.
pub fn print_call(id: &str) -> (s: String)
    ensures
        s@ == print_call_text(id@),
{
    let mut s = String::from_str("  call void @printf(ptr @i_print, i8 %c");
    s.append(id);
    s.append(")\n");
    s
}

/// One read cycle: a byte is read and stored, unchanged, in the cell under the
/// tape position.
pub open spec fn input_plain_text(id: Seq<char>) -> Seq<char> {
    "  %nc"@ + id + " = call i8 @getchar()\n"@
        + "  %pos"@ + id + " = load i16, ptr %pos\n"@
        + "  %t"@ + id + " = getelementptr i8, ptr %arr, i16 %pos"@ + id + "\n"@
        + "  store i8 %nc"@ + id + ", ptr %t"@ + id + "\n"@
}

/// Writes one read cycle that stores the byte as it was read.
pub fn input_plain(id: &str) -> (s: String)
    ensures
        s@ == input_plain_text(id@),
{
    let mut s = String::from_str("  %nc");
    s.append(id);
    s.append(" = call i8 @getchar()\n");
    s.append("  %pos");
    s.append(id);
    s.append(" = load i16, ptr %pos\n");
    s.append("  %t");
    s.append(id);
    s.append(" = getelementptr i8, ptr %arr, i16 %pos");
    s.append(id);
    s.append("\n");
    s.append("  store i8 %nc");
    s.append(id);
    s.append(", ptr %t");
    s.append(id);
    s.append("\n");
    s
}

/// One read cycle in which a byte equal to the newline code, 10, is replaced by
/// 0 before it is stored; every other byte is stored unchanged.
pub open spec fn input_newline_as_null_text(id: Seq<char>) -> Seq<char> {
    "  %nc"@ + id + " = call i8 @getchar()\n"@
        + "  %pos"@ + id + " = load i16, ptr %pos\n"@
        + "  %t"@ + id + " = getelementptr i8, ptr %arr, i16 %pos"@ + id + "\n"@
        + "  %eof_is"@ + id + " = icmp eq i8 %nc"@ + id + ", 10\n"@
        + "  %nsc"@ + id + " = select i1 %eof_is"@ + id + ", i8 0, i8 %nc"@ + id + "\n"@
        + "  store i8 %nsc"@ + id + ", ptr %t"@ + id + "\n"@
}

/// Writes one read cycle that stores 0 in place of a newline.
pub fn input_newline_as_null(id: &str) -> (s: String)
    ensures
        s@ == input_newline_as_null_text(id@),
{
    let mut s = String::from_str("  %nc");
    s.append(id);
    s.append(" = call i8 @getchar()\n");
    s.append("  %pos");
    s.append(id);
    s.append(" = load i16, ptr %pos\n");
    s.append("  %t");
    s.append(id);
    s.append(" = getelementptr i8, ptr %arr, i16 %pos");
    s.append(id);
    s.append("\n");
    s.append("  %eof_is");
    s.append(id);
    s.append(" = icmp eq i8 %nc");
    s.append(id);
    s.append(", 10\n");
    s.append("  %nsc");
    s.append(id);
    s.append(" = select i1 %eof_is");
    s.append(id);
    s.append(", i8 0, i8 %nc");
    s.append(id);
    s.append("\n");
    s.append("  store i8 %nsc");
    s.append(id);
    s.append(", ptr %t");
    s.append(id);
    s.append("\n");
    s
}

/// The entry test of one loop: on a zero cell control goes to the loop's skip
/// label, otherwise to its body label, which is defined here. Both labels carry
/// the loop's own `id`.
pub open spec fn open_test_text(id: Seq<char>) -> Seq<char> {
    "  %cmp_rs"@ + id + " = icmp eq i8 %c"@ + id + ", 0\n"@
        + "  br i1 %cmp_rs"@ + id + ", label %skip"@ + id + ", label %loop"@ + id + "\n"@
        + "loop"@ + id + ":\n"@
}

/// Writes the entry test of one loop and defines its body label.
pub fn open_test(id: &str) -> (s: String)
    ensures
        s@ == open_test_text(id@),
{
    let mut s = String::from_str("  %cmp_rs");
    s.append(id);
    s.append(" = icmp eq i8 %c");
    s.append(id);
    s.append(", 0\n");
    s.append("  br i1 %cmp_rs");
    s.append(id);
    s.append(", label %skip");
    s.append(id);
    s.append(", label %loop");
    s.append(id);
    s.append("\n");
    s.append("loop");
    s.append(id);
    s.append(":\n");
    s
}

/// The exit test of one loop: on a nonzero cell control goes back to the body
/// label of the loop that `partner` names, otherwise on to that loop's skip
/// label, which is defined here.
pub open spec fn close_test_text(id: Seq<char>, partner: Seq<char>) -> Seq<char> {
    "  %cmp_rs"@ + id + " = icmp ne i8 %c"@ + id + ", 0\n"@
        + "  br i1 %cmp_rs"@ + id + ", label %loop"@ + partner + ", label %skip"@ + partner + "\n"@
        + "skip"@ + partner + ":\n"@
}

/// Writes the exit test of one loop and defines the skip label of its partner.
pub fn close_test(id: &str, partner: &str) -> (s: String)
    ensures
        s@ == close_test_text(id@, partner@),
{
    let mut s = String::from_str("  %cmp_rs");
    s.append(id);
    s.append(" = icmp ne i8 %c");
    s.append(id);
    s.append(", 0\n");
    s.append("  br i1 %cmp_rs");
    s.append(id);
    s.append(", label %loop");
    s.append(partner);
    s.append(", label %skip");
    s.append(partner);
    s.append("\n");
    s.append("skip");
    s.append(partner);
    s.append(":\n");
    s
}

/// The suffix that names one repetition of one token.
pub open spec fn pair_id_text(index: Seq<char>, repetition: Seq<char>) -> Seq<char> {
    index + "_"@ + repetition
}

/// Writes the suffix that names one repetition of one token.
pub fn pair_id(index: &str, repetition: &str) -> (s: String)
    ensures
        s@ == pair_id_text(index@, repetition@),
{
    let mut s = String::from_str(index);
    s.append("_");
    s.append(repetition);
    s
}

/// The module header, which names where the program came from.
pub open spec fn source_line_text(name: Seq<char>) -> Seq<char> {
    "source_filename = \""@ + name + "\"\n"@
}

/// Writes the module header.
pub fn source_line(name: &str) -> (s: String)
    ensures
        s@ == source_line_text(name@),
{
    let mut s = String::from_str("source_filename = \"");
    s.append(name);
    s.append("\"\n");
    s
}

/// What the generated program prints when a move passes the right bound.
pub open spec fn right_message_text(cells: Seq<char>) -> Seq<char> {
    "exceeded bounds check (larger than "@ + cells + ")"@
}

/// Writes the message for a move past the right bound.
pub fn right_message(cells: &str) -> (s: String)
    ensures
        s@ == right_message_text(cells@),
{
    let mut s = String::from_str("exceeded bounds check (larger than ");
    s.append(cells);
    s.append(")");
    s
}

/// The two bound messages as constants, each with a terminator, and the head of
/// the entry function: the exit code, the panic registers, the tape of `cells`
/// zeroed cells and the position register, then the shared panic block, which
/// prints the recorded message and offset, sets exit code 1 and leaves through
/// `exit`. The text ends with the label under which the generated code follows.
/// The constant of the left message has the fixed size 39, that of the right
/// message the size `right_size`.
pub open spec fn entry_text(right_size: Seq<char>, right: Seq<char>, left: Seq<char>, cells: Seq<char>) -> Seq<char> {
    "\n"@
        + "@bounds_r_panic_msg = private constant ["@ + right_size + " x i8] c\""@ + right + "\\00\";\n"@
        + "@bounds_l_panic_msg = private constant [39 x i8] c\""@ + left + "\\00\";\n"@
        + "\n"@
        + "define i8 @code() {\n"@
        + "init:\n"@
        + "  %exit_code = alloca i8\n"@
        + "  store i8 0, ptr %exit_code\n"@
        + "\n"@
        + "  %panic_msg = alloca i8*\n"@
        + "  %panic_pos = alloca i16\n"@
        + "  store i8* @none, ptr %panic_msg\n"@
        + "  %arr = alloca ["@ + cells + " x i8]\n"@
        + "  call void @llvm.memset.p0.i32(ptr %arr, i8 0, i32 "@ + cells + ", i1 0)\n"@
        + "  %pos = alloca i16\n"@
        + "  store i16 0, ptr %pos\n"@
        + "  br label %code\n"@
        + "panic:\n"@
        + "  %msg = load ptr, i8* %panic_msg\n"@
        + "  %p_pos = load i16, ptr %panic_pos\n"@
        + "  store i8 1, ptr %exit_code\n"@
        + "  call void @printf(ptr @panic_f, ptr %msg, i16 %p_pos)\n"@
        + "  br label %exit\n"@
        + "code:\n"@
}

/// Writes the bound messages and the head of the entry function.
pub fn entry(right_size: &str, right: &str, left: &str, cells: &str) -> (s: String)
    ensures
        s@ == entry_text(right_size@, right@, left@, cells@),
{
    let mut s = String::from_str("\n");
    s.append("@bounds_r_panic_msg = private constant [");
    s.append(right_size);
    s.append(" x i8] c\"");
    s.append(right);
    s.append("\\00\";\n");
    s.append("@bounds_l_panic_msg = private constant [39 x i8] c\"");
    s.append(left);
    s.append("\\00\";\n");
    s.append("\n");
    s.append("define i8 @code() {\n");
    s.append("init:\n");
    s.append("  %exit_code = alloca i8\n");
    s.append("  store i8 0, ptr %exit_code\n");
    s.append("\n");
    s.append("  %panic_msg = alloca i8*\n");
    s.append("  %panic_pos = alloca i16\n");
    s.append("  store i8* @none, ptr %panic_msg\n");
    s.append("  %arr = alloca [");
    s.append(cells);
    s.append(" x i8]\n");
    s.append("  call void @llvm.memset.p0.i32(ptr %arr, i8 0, i32 ");
    s.append(cells);
    s.append(", i1 0)\n");
    s.append("  %pos = alloca i16\n");
    s.append("  store i16 0, ptr %pos\n");
    s.append("  br label %code\n");
    s.append("panic:\n");
    s.append("  %msg = load ptr, i8* %panic_msg\n");
    s.append("  %p_pos = load i16, ptr %panic_pos\n");
    s.append("  store i8 1, ptr %exit_code\n");
    s.append("  call void @printf(ptr @panic_f, ptr %msg, i16 %p_pos)\n");
    s.append("  br label %exit\n");
    s.append("code:\n");
    s
}

/// The diagnostic for a loop end that no loop start is left to match.
pub open spec fn unmatched_close_message_text(index: Seq<char>) -> Seq<char> {
    "no matching loop bracket: token "@ + index + " closes a loop that was not opened"@
}

/// Writes the diagnostic for a loop end without a loop start.
pub fn unmatched_close_message(index: &str) -> (s: String)
    ensures
        s@ == unmatched_close_message_text(index@),
{
    let mut s = String::from_str("no matching loop bracket: token ");
    s.append(index);
    s.append(" closes a loop that was not opened");
    s
}

/// The diagnostic for a loop start that is still open where the program ends.
pub open spec fn unclosed_open_message_text(index: Seq<char>, repetition: Seq<char>) -> Seq<char> {
    "no matching loop bracket: repetition "@ + repetition + " of token "@ + index + " opens a loop that is not closed"@
}

/// Writes the diagnostic for a loop start without a loop end.
pub fn unclosed_open_message(index: &str, repetition: &str) -> (s: String)
    ensures
        s@ == unclosed_open_message_text(index@, repetition@),
{
    let mut s = String::from_str("no matching loop bracket: repetition ");
    s.append(repetition);
    s.append(" of token ");
    s.append(index);
    s.append(" opens a loop that is not closed");
    s
}
} // verus!
