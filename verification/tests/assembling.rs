use bf_compiler::assemble::{assemble, compile};
use bf_compiler::error::MalformedBracketNesting;
use bf_compiler::lexer::tokenize;
use bf_compiler::preamble::{write_init, PREAMBLE};

fn head(cells: u16, size: usize) -> String {
    format!(
        "{PREAMBLE}\n\n@bounds_r_panic_msg = private constant [{size} x i8] c\"exceeded bounds check (larger than {cells})\\00\";\n@bounds_l_panic_msg = private constant [39 x i8] c\"exceeded bounds check (smaller than 0)\\00\";\n\ndefine i8 @code() {{\ninit:\n  %exit_code = alloca i8\n  store i8 0, ptr %exit_code\n\n  %panic_msg = alloca i8*\n  %panic_pos = alloca i16\n  store i8* @none, ptr %panic_msg\n  %arr = alloca [{cells} x i8]\n  call void @llvm.memset.p0.i32(ptr %arr, i8 0, i32 {cells}, i1 0)\n  %pos = alloca i16\n  store i16 0, ptr %pos\n  br label %code\npanic:\n  %msg = load ptr, i8* %panic_msg\n  %p_pos = load i16, ptr %panic_pos\n  store i8 1, ptr %exit_code\n  call void @printf(ptr @panic_f, ptr %msg, i16 %p_pos)\n  br label %exit\ncode:\n"
    )
}

const END: &str = "; ------- END ------ ;\n  br label %exit\nexit:\n  %exit_v = load i8, ptr %exit_code\n  ret i8 %exit_v\n}\n";

#[test]
fn the_head_declares_the_tape_and_the_messages() {
    let mut f = String::from("x");
    write_init(&mut f, 30000);
    assert_eq!(f, format!("x{}", head(30000, 42)));
}

#[test]
fn the_message_constant_holds_the_message_and_its_terminator() {
    for cells in [0u16, 1, 9, 10, 99, 100, 999, 1000, 9999, 10000, 30000, 65535] {
        let mut f = String::new();
        write_init(&mut f, cells);
        let message = format!("exceeded bounds check (larger than {cells})");
        let declared = format!(
            "@bounds_r_panic_msg = private constant [{} x i8] c\"{message}\\00\";\n",
            message.len() + 1
        );
        assert!(f.contains(&declared));
        assert!(f.contains(&format!("  %arr = alloca [{cells} x i8]\n")));
    }
}

#[test]
fn the_left_message_constant_has_its_fixed_size() {
    let mut f = String::new();
    write_init(&mut f, 1);
    let message = "exceeded bounds check (smaller than 0)";
    assert_eq!(message.len() + 1, 39);
    assert!(f.contains(&format!(
        "@bounds_l_panic_msg = private constant [39 x i8] c\"{message}\\00\";\n"
    )));
}

#[test]
fn the_preamble_supplies_what_the_code_calls() {
    for name in ["@putchar", "@getchar", "@printf", "@llvm.memset.p0.i32", "@none", "@panic_f", "@i_print"] {
        assert!(PREAMBLE.contains(name));
    }
}

#[test]
fn an_empty_program() {
    let text = assemble(&vec![], 7, false, None).unwrap();
    assert_eq!(text, format!("source_filename = \"console\"\n{}{END}", head(7, 38)));
}

#[test]
fn the_header_names_the_source_file() {
    let text = compile("", 7, false, Some("hello.bf")).unwrap();
    assert!(text.starts_with("source_filename = \"hello.bf\"\n"));
    let text = compile("", 7, false, None).unwrap();
    assert!(text.starts_with("source_filename = \"console\"\n"));
}

#[test]
fn two_increments_and_an_output() {
    let text = compile("++.", 1, false, None).unwrap();
    let code = [
        "; ---- 0 | Increment x 2 | at char 1 ----\n",
        "  %pos0 = load i16, ptr %pos\n",
        "  %t0 = getelementptr i8, ptr %arr, i16 %pos0\n",
        "  %c0 = load i8, ptr %t0\n",
        "  %c0n = add i8 %c0, 2\n",
        "  store i8 %c0n, ptr %t0\n",
        "; ------------\n\n",
        "; ---- 1 | Output x 1 | at char 3 ----\n",
        "  %pos1 = load i16, ptr %pos\n",
        "  %t1 = getelementptr i8, ptr %arr, i16 %pos1\n",
        "  %c1 = load i8, ptr %t1\n",
        "  call void @putchar(i8 %c1)\n",
        "; ------------\n\n",
    ]
    .concat();
    let expected = format!("source_filename = \"console\"\n{}{code}{END}", head(1, 38));
    assert_eq!(text, expected);
    assert_eq!(text.matches("call void @putchar").count(), 1);
}

#[test]
fn nested_brackets_pair_innermost_first() {
    let text = compile("[[]]", 10, false, None).unwrap();
    let first = text.find("label %loop0_1, label %skip0_1\nskip0_1:\n").unwrap();
    let second = text.find("label %loop0_0, label %skip0_0\nskip0_0:\n").unwrap();
    assert!(first < second);
    assert!(text.contains("  br i1 %cmp_rs1_0, label %loop0_1, label %skip0_1\n"));
    assert!(text.contains("  br i1 %cmp_rs1_1, label %loop0_0, label %skip0_0\n"));
}

#[test]
fn brackets_in_a_row_are_independent_loops() {
    let text = compile("[][]", 10, false, None).unwrap();
    assert!(text.contains("  br i1 %cmp_rs1_0, label %loop0_0, label %skip0_0\nskip0_0:\n"));
    assert!(text.contains("  br i1 %cmp_rs3_0, label %loop2_0, label %skip2_0\nskip2_0:\n"));
    let first_closed = text.find("skip0_0:\n").unwrap();
    let second_opened = text.find("loop2_0:\n").unwrap();
    assert!(first_closed < second_opened);
}

#[test]
fn a_clearing_loop() {
    let text = compile("[-]", 10, false, None).unwrap();
    let opened = text.find("  br i1 %cmp_rs0_0, label %skip0_0, label %loop0_0\nloop0_0:\n").unwrap();
    let body = text.find("  %c1n = sub i8 %c1, 1\n").unwrap();
    let closed = text.find("  br i1 %cmp_rs2_0, label %loop0_0, label %skip0_0\nskip0_0:\n").unwrap();
    assert!(opened < body && body < closed);
}

#[test]
fn every_label_is_defined_once() {
    let text = compile("+[>[-]<[->+<]]>[[.-]]", 100, true, None).unwrap();
    let mut labels: Vec<&str> = text
        .lines()
        .filter(|l| l.ends_with(':') && !l.starts_with(' ') && !l.starts_with(';'))
        .collect();
    let defined = labels.len();
    labels.sort();
    labels.dedup();
    assert_eq!(labels.len(), defined);
    for label in ["init:", "panic:", "code:", "exit:"] {
        assert!(labels.contains(&label));
    }
}

#[test]
fn every_branch_target_is_defined() {
    let text = compile("+[>[-]<[->+<]]>[[.-]],,<<", 100, true, None).unwrap();
    for line in text.lines() {
        for part in line.split("label %").skip(1) {
            let name: String = part.chars().take_while(|c| c.is_alphanumeric() || *c == '_').collect();
            assert!(text.contains(&format!("\n{name}:\n")), "label {name} is not defined");
        }
    }
}

#[test]
fn every_value_is_defined_once() {
    let text = compile("+[>[-]<[->+<]]>[[.-]],,,!!<<>>", 100, true, None).unwrap();
    let mut names: Vec<&str> = text
        .lines()
        .filter(|l| l.starts_with("  %") && l.contains(" = "))
        .map(|l| l.trim_start().split(" = ").next().unwrap())
        .collect();
    let defined = names.len();
    names.sort();
    names.dedup();
    assert_eq!(names.len(), defined);
}

#[test]
fn a_loop_end_without_a_loop_aborts() {
    assert_eq!(
        compile("]", 10, false, None),
        Err(MalformedBracketNesting::UnmatchedClose { token_index: 0 })
    );
    assert_eq!(
        compile("+[-]]", 10, false, None),
        Err(MalformedBracketNesting::UnmatchedClose { token_index: 3 })
    );
    assert_eq!(
        compile("[]]+", 10, false, None),
        Err(MalformedBracketNesting::UnmatchedClose { token_index: 1 })
    );
}

#[test]
fn the_first_fault_is_reported() {
    assert_eq!(
        compile("][", 10, false, None),
        Err(MalformedBracketNesting::UnmatchedClose { token_index: 0 })
    );
    assert_eq!(
        compile("[[]+]]+]", 10, false, None),
        Err(MalformedBracketNesting::UnmatchedClose { token_index: 3 })
    );
}

#[test]
fn a_loop_that_is_never_closed_aborts() {
    assert_eq!(
        compile("[", 10, false, None),
        Err(MalformedBracketNesting::UnclosedOpen { token_index: 0, repetition: 0 })
    );
    assert_eq!(
        compile("[[[]", 10, false, None),
        Err(MalformedBracketNesting::UnclosedOpen { token_index: 0, repetition: 1 })
    );
    assert_eq!(
        compile("+[-]>[+[-]", 10, false, None),
        Err(MalformedBracketNesting::UnclosedOpen { token_index: 5, repetition: 0 })
    );
}

#[test]
fn well_nested_sources_are_assembled() {
    for source in ["", "+", "[]", "[[]]", "[][]", "[[][]]", "+[>[-]<[->+<]]", "[[[[]]]]"] {
        assert!(compile(source, 10, false, None).is_ok(), "{source}");
    }
}

#[test]
fn compiling_is_lexing_then_assembling() {
    let source = ">+[<,.>-]!!";
    assert_eq!(
        compile(source, 30000, true, Some("a.bf")),
        assemble(&tokenize(source), 30000, true, Some("a.bf"))
    );
}

#[test]
fn a_move_right_on_a_tape_of_one_cell() {
    let text = compile("     >", 1, false, None).unwrap();
    assert!(text.contains("c\"exceeded bounds check (larger than 1)\\00\""));
    assert!(text.contains("  %rbound0 = icmp uge i16 %pos0n, 1\n"));
    assert!(text.contains("  store i16 6, ptr %panic_pos\n  store i8* @bounds_r_panic_msg, ptr %panic_msg\n  br label %panic\n"));
}

#[test]
fn a_move_left_from_the_first_cell() {
    let text = compile("<", 1, false, None).unwrap();
    assert!(text.contains("c\"exceeded bounds check (smaller than 0)\\00\""));
    assert!(text.contains(
        "  %lbound0 = icmp ugt i16 %pos0n, %pos0  br i1 %lbound0, label %bounds_panic0, label %continue0\n"
    ));
    assert!(text.contains("  store i16 1, ptr %panic_pos\n  store i8* @bounds_l_panic_msg, ptr %panic_msg\n  br label %panic\n"));
}

#[test]
fn every_bounds_check_shares_the_panic_block() {
    let text = compile("><><", 5, false, None).unwrap();
    assert_eq!(text.matches("\npanic:\n").count(), 1);
    assert_eq!(text.matches("  br label %panic\n").count(), 4);
    assert_eq!(text.matches("call void @printf(ptr @panic_f").count(), 1);
}
