use bf_compiler::emit::process_token;
use bf_compiler::error::MalformedBracketNesting;
use bf_compiler::token::Token;

fn emit(
    t: Token,
    count: usize,
    index: usize,
    file_pos: usize,
    stack: &mut Vec<(usize, usize)>,
    newline_as_null: bool,
    cell_count: u16,
) -> String {
    let mut f = String::new();
    process_token(t, count, index, file_pos, stack, newline_as_null, cell_count, &mut f)
        .expect("the token is accepted");
    f
}

fn framed(index: usize, name: &str, count: usize, at: usize, body: &str) -> String {
    format!("; ---- {index} | {name} x {count} | at char {at} ----\n{body}; ------------\n\n")
}

fn load(id: &str) -> String {
    format!(
        "  %pos{id} = load i16, ptr %pos\n  %t{id} = getelementptr i8, ptr %arr, i16 %pos{id}\n  %c{id} = load i8, ptr %t{id}\n"
    )
}

#[test]
fn move_right_is_one_checked_addition() {
    let mut stack = vec![];
    let text = emit(Token::Right, 3, 4, 9, &mut stack, false, 30000);
    let body = [
        "  %pos4 = load i16, ptr %pos\n",
        "  %pos4n = add i16 %pos4, 3\n",
        "  %rbound4 = icmp uge i16 %pos4n, 30000\n",
        "  br i1 %rbound4, label %bounds_panic4, label %continue4\n",
        "bounds_panic4:\n",
        "  store i16 10, ptr %panic_pos\n",
        "  store i8* @bounds_r_panic_msg, ptr %panic_msg\n",
        "  br label %panic\n",
        "continue4:\n",
        "  store i16 %pos4n, ptr %pos\n",
    ]
    .concat();
    assert_eq!(text, framed(4, "Right", 3, 10, &body));
    assert!(stack.is_empty());
}

#[test]
fn move_left_detects_the_wrap() {
    let mut stack = vec![];
    let text = emit(Token::Left, 2, 0, 0, &mut stack, false, 30000);
    let body = [
        "  %pos0 = load i16, ptr %pos\n",
        "  %pos0n = sub i16 %pos0, 2\n",
        "  %lbound0 = icmp ugt i16 %pos0n, %pos0",
        "  br i1 %lbound0, label %bounds_panic0, label %continue0\n",
        "bounds_panic0:\n",
        "  store i16 1, ptr %panic_pos\n",
        "  store i8* @bounds_l_panic_msg, ptr %panic_msg\n",
        "  br label %panic\n",
        "continue0:\n",
        "  store i16 %pos0n, ptr %pos\n",
    ]
    .concat();
    assert_eq!(text, framed(0, "Left", 2, 1, &body));
}

#[test]
fn a_move_is_folded_into_one_step() {
    let mut stack = vec![];
    let text = emit(Token::Right, 250, 1, 0, &mut stack, false, 300);
    assert_eq!(text.matches("add i16").count(), 1);
    assert!(text.contains("  %pos1n = add i16 %pos1, 250\n"));
    assert_eq!(text.matches("store i16 %pos1n, ptr %pos\n").count(), 1);
}

#[test]
fn increment_is_one_load_and_one_store() {
    let mut stack = vec![];
    let text = emit(Token::Increment, 7, 2, 5, &mut stack, false, 10);
    let body = format!("{}  %c2n = add i8 %c2, 7\n  store i8 %c2n, ptr %t2\n", load("2"));
    assert_eq!(text, framed(2, "Increment", 7, 6, &body));
    assert_eq!(text.matches("load i8").count(), 1);
    assert_eq!(text.matches("store i8").count(), 1);
}

#[test]
fn decrement_is_one_load_and_one_store() {
    let mut stack = vec![];
    let text = emit(Token::Decrement, 300, 12, 40, &mut stack, false, 10);
    let body = format!("{}  %c12n = sub i8 %c12, 300\n  store i8 %c12n, ptr %t12\n", load("12"));
    assert_eq!(text, framed(12, "Decrement", 300, 41, &body));
}

#[test]
fn cell_arithmetic_is_emitted_without_overflow_flags() {
    let mut stack = vec![];
    let up = emit(Token::Increment, 1, 0, 0, &mut stack, false, 1);
    let down = emit(Token::Decrement, 1, 1, 1, &mut stack, false, 1);
    assert!(up.contains(" = add i8 %c0, 1\n"));
    assert!(down.contains(" = sub i8 %c1, 1\n"));
    assert!(!up.contains("nuw") && !up.contains("nsw"));
    assert!(!down.contains("nuw") && !down.contains("nsw"));
}

#[test]
fn output_reads_once_and_writes_each_time() {
    let mut stack = vec![];
    let text = emit(Token::Output, 3, 5, 2, &mut stack, false, 10);
    let call = "  call void @putchar(i8 %c5)\n";
    let body = format!("{}{call}{call}{call}", load("5"));
    assert_eq!(text, framed(5, "Output", 3, 3, &body));
    assert_eq!(text.matches("load i8").count(), 1);
}

#[test]
fn print_number_reads_once_and_prints_each_time() {
    let mut stack = vec![];
    let text = emit(Token::PrintNumber, 2, 6, 0, &mut stack, false, 10);
    let call = "  call void @printf(ptr @i_print, i8 %c6)\n";
    let body = format!("{}{call}{call}", load("6"));
    assert_eq!(text, framed(6, "PrintNumber", 2, 1, &body));
}

fn plain_cycle(id: &str) -> String {
    format!(
        "  %nc{id} = call i8 @getchar()\n  %pos{id} = load i16, ptr %pos\n  %t{id} = getelementptr i8, ptr %arr, i16 %pos{id}\n  store i8 %nc{id}, ptr %t{id}\n"
    )
}

fn null_cycle(id: &str) -> String {
    format!(
        "  %nc{id} = call i8 @getchar()\n  %pos{id} = load i16, ptr %pos\n  %t{id} = getelementptr i8, ptr %arr, i16 %pos{id}\n  %eof_is{id} = icmp eq i8 %nc{id}, 10\n  %nsc{id} = select i1 %eof_is{id}, i8 0, i8 %nc{id}\n  store i8 %nsc{id}, ptr %t{id}\n"
    )
}

#[test]
fn input_is_one_cycle_per_repetition() {
    let mut stack = vec![];
    let text = emit(Token::Input, 2, 3, 7, &mut stack, false, 10);
    let body = format!("{}{}", plain_cycle("3"), plain_cycle("3_1"));
    assert_eq!(text, framed(3, "Input", 2, 8, &body));
    assert_eq!(text.matches("call i8 @getchar()").count(), 2);
}

#[test]
fn input_replaces_a_newline_in_every_cycle() {
    let mut stack = vec![];
    let text = emit(Token::Input, 2, 3, 7, &mut stack, true, 10);
    let body = format!("{}{}", null_cycle("3"), null_cycle("3_1"));
    assert_eq!(text, framed(3, "Input", 2, 8, &body));
    assert_eq!(text.matches("icmp eq i8").count(), 2);
    assert_eq!(text.matches(", i8 0, i8 %nc").count(), 2);
}

#[test]
fn input_without_the_option_stores_what_was_read() {
    let mut stack = vec![];
    let text = emit(Token::Input, 1, 0, 0, &mut stack, false, 10);
    assert!(!text.contains("select"));
    assert!(text.contains("  store i8 %nc0, ptr %t0\n"));
}

#[test]
fn a_single_read_goes_by_the_name_of_its_token() {
    let mut stack = vec![];
    let text = emit(Token::Input, 1, 0, 0, &mut stack, true, 30000);
    let expected = [
        "; ---- 0 | Input x 1 | at char 1 ----\n",
        "  %nc0 = call i8 @getchar()\n",
        "  %pos0 = load i16, ptr %pos\n",
        "  %t0 = getelementptr i8, ptr %arr, i16 %pos0\n",
        "  %eof_is0 = icmp eq i8 %nc0, 10\n",
        "  %nsc0 = select i1 %eof_is0, i8 0, i8 %nc0\n",
        "  store i8 %nsc0, ptr %t0\n",
        "; ------------\n\n",
    ]
    .concat();
    assert_eq!(text, expected);
    let text = emit(Token::Input, 1, 7, 2, &mut stack, false, 30000);
    assert_eq!(text, framed(7, "Input", 1, 3, &plain_cycle("7")));
}

#[test]
fn further_reads_go_by_the_name_of_their_repetition() {
    let mut stack = vec![];
    let text = emit(Token::Input, 4, 12, 0, &mut stack, false, 10);
    let body = format!(
        "{}{}{}{}",
        plain_cycle("12"),
        plain_cycle("12_1"),
        plain_cycle("12_2"),
        plain_cycle("12_3")
    );
    assert_eq!(text, framed(12, "Input", 4, 1, &body));
    assert!(!text.contains("12_0"));
}

fn open_unit(id: &str) -> String {
    format!(
        "{}  %cmp_rs{id} = icmp eq i8 %c{id}, 0\n  br i1 %cmp_rs{id}, label %skip{id}, label %loop{id}\nloop{id}:\n",
        load(id)
    )
}

fn close_unit(id: &str, partner: &str) -> String {
    format!(
        "{}  %cmp_rs{id} = icmp ne i8 %c{id}, 0\n  br i1 %cmp_rs{id}, label %loop{partner}, label %skip{partner}\nskip{partner}:\n",
        load(id)
    )
}

#[test]
fn loop_start_opens_one_loop_per_repetition() {
    let mut stack = vec![(0, 0)];
    let text = emit(Token::LoopStart, 2, 3, 4, &mut stack, false, 10);
    let body = format!("{}{}", open_unit("3_0"), open_unit("3_1"));
    assert_eq!(text, framed(3, "LoopStart", 2, 5, &body));
    assert_eq!(stack, vec![(0, 0), (3, 0), (3, 1)]);
}

#[test]
fn loop_end_closes_last_in_first_out() {
    let mut stack = vec![(0, 0), (3, 0), (3, 1)];
    let text = emit(Token::LoopEnd, 2, 9, 20, &mut stack, false, 10);
    let body = format!("{}{}", close_unit("9_0", "3_1"), close_unit("9_1", "3_0"));
    assert_eq!(text, framed(9, "LoopEnd", 2, 21, &body));
    assert_eq!(stack, vec![(0, 0)]);
}

#[test]
fn loop_end_without_a_loop_is_refused() {
    let mut stack = vec![];
    let mut f = String::from("before");
    let r = process_token(Token::LoopEnd, 1, 5, 0, &mut stack, false, 10, &mut f);
    assert_eq!(r, Err(MalformedBracketNesting::UnmatchedClose { token_index: 5 }));
    assert_eq!(f, "before");
    assert!(stack.is_empty());
}

#[test]
fn loop_end_with_too_few_loops_is_refused_whole() {
    let mut stack = vec![(1, 0)];
    let mut f = String::new();
    let r = process_token(Token::LoopEnd, 2, 2, 3, &mut stack, false, 10, &mut f);
    assert_eq!(r, Err(MalformedBracketNesting::UnmatchedClose { token_index: 2 }));
    assert_eq!(f, "");
    assert_eq!(stack, vec![(1, 0)]);
}

#[test]
fn text_is_appended_after_what_is_there() {
    let mut stack = vec![];
    let mut f = String::from("head\n");
    process_token(Token::Output, 1, 0, 0, &mut stack, false, 10, &mut f).unwrap();
    let body = format!("{}  call void @putchar(i8 %c0)\n", load("0"));
    assert_eq!(f, format!("head\n{}", framed(0, "Output", 1, 1, &body)));
}

#[test]
fn the_reported_offset_is_one_based() {
    let mut stack = vec![];
    let text = emit(Token::Right, 1, 0, 5, &mut stack, false, 1);
    assert!(text.contains("| at char 6 ----\n"));
    assert!(text.contains("  store i16 6, ptr %panic_pos\n"));
    assert!(text.contains("  store i8* @bounds_r_panic_msg, ptr %panic_msg\n"));
    let text = emit(Token::Left, 1, 1, 0, &mut stack, false, 1);
    assert!(text.contains("  store i16 1, ptr %panic_pos\n"));
    assert!(text.contains("  store i8* @bounds_l_panic_msg, ptr %panic_msg\n"));
}

#[test]
fn the_offset_of_the_last_position_a_word_can_hold() {
    let mut stack = vec![];
    let text = emit(Token::Right, 1, 0, usize::MAX, &mut stack, false, 1);
    let at = (usize::MAX as u128 + 1).to_string();
    assert!(text.contains(&format!("  store i16 {at}, ptr %panic_pos\n")));
}

#[test]
fn diagnostics_name_the_token() {
    let e = MalformedBracketNesting::UnmatchedClose { token_index: 17 };
    assert_eq!(
        e.message(),
        "no matching loop bracket: token 17 closes a loop that was not opened"
    );
    let e = MalformedBracketNesting::UnclosedOpen { token_index: 4, repetition: 2 };
    assert_eq!(
        e.message(),
        "no matching loop bracket: repetition 2 of token 4 opens a loop that is not closed"
    );
}
