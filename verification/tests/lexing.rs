use bf_compiler::lexer::{encode_chars, source_chars, tokenize, EncodedToken};
use bf_compiler::token::Token;

fn unit(token: Token, count: usize, position: usize) -> EncodedToken {
    EncodedToken { token, count, position }
}

#[test]
fn every_command_character_is_read() {
    assert_eq!(Token::from_char(&'>'), Some(Token::Right));
    assert_eq!(Token::from_char(&'<'), Some(Token::Left));
    assert_eq!(Token::from_char(&'+'), Some(Token::Increment));
    assert_eq!(Token::from_char(&'-'), Some(Token::Decrement));
    assert_eq!(Token::from_char(&'.'), Some(Token::Output));
    assert_eq!(Token::from_char(&','), Some(Token::Input));
    assert_eq!(Token::from_char(&'['), Some(Token::LoopStart));
    assert_eq!(Token::from_char(&']'), Some(Token::LoopEnd));
    assert_eq!(Token::from_char(&'!'), Some(Token::PrintNumber));
}

#[test]
fn other_characters_are_comments() {
    for c in ['a', ' ', '\n', '0', '#', '(', '}', 'é', '\u{1F600}'] {
        assert_eq!(Token::from_char(&c), None);
    }
}

#[test]
fn command_names() {
    assert_eq!(Token::Right.name(), "Right");
    assert_eq!(Token::Left.name(), "Left");
    assert_eq!(Token::Increment.name(), "Increment");
    assert_eq!(Token::Decrement.name(), "Decrement");
    assert_eq!(Token::Output.name(), "Output");
    assert_eq!(Token::Input.name(), "Input");
    assert_eq!(Token::LoopStart.name(), "LoopStart");
    assert_eq!(Token::LoopEnd.name(), "LoopEnd");
    assert_eq!(Token::PrintNumber.name(), "PrintNumber");
    assert_eq!(format!("{:?}", Token::PrintNumber), Token::PrintNumber.name());
}

#[test]
fn empty_source_has_no_tokens() {
    assert_eq!(tokenize(""), vec![]);
    assert_eq!(tokenize("no commands here"), vec![]);
}

#[test]
fn a_run_becomes_one_token() {
    assert_eq!(tokenize("+++"), vec![unit(Token::Increment, 3, 0)]);
    assert_eq!(
        tokenize("++."),
        vec![unit(Token::Increment, 2, 0), unit(Token::Output, 1, 2)]
    );
}

#[test]
fn runs_are_maximal_and_in_source_order() {
    assert_eq!(
        tokenize(">>><<+-..,,[[]]!!"),
        vec![
            unit(Token::Right, 3, 0),
            unit(Token::Left, 2, 3),
            unit(Token::Increment, 1, 5),
            unit(Token::Decrement, 1, 6),
            unit(Token::Output, 2, 7),
            unit(Token::Input, 2, 9),
            unit(Token::LoopStart, 2, 11),
            unit(Token::LoopEnd, 2, 13),
            unit(Token::PrintNumber, 2, 15),
        ]
    );
}

#[test]
fn a_run_ends_where_the_next_character_differs() {
    assert_eq!(
        tokenize("+ +"),
        vec![unit(Token::Increment, 1, 0), unit(Token::Increment, 1, 2)]
    );
    assert_eq!(
        tokenize("++a++"),
        vec![unit(Token::Increment, 2, 0), unit(Token::Increment, 2, 3)]
    );
    assert_eq!(
        tokenize("+-+"),
        vec![
            unit(Token::Increment, 1, 0),
            unit(Token::Decrement, 1, 1),
            unit(Token::Increment, 1, 2),
        ]
    );
}

#[test]
fn comments_are_skipped_one_by_one() {
    assert_eq!(tokenize("aaa+bbb"), vec![unit(Token::Increment, 1, 3)]);
    assert_eq!(tokenize("     >"), vec![unit(Token::Right, 1, 5)]);
}

#[test]
fn positions_count_characters_not_bytes() {
    assert_eq!(tokenize("é+"), vec![unit(Token::Increment, 1, 1)]);
    assert_eq!(tokenize("\u{1F600}\u{1F600}.."), vec![unit(Token::Output, 2, 2)]);
}

#[test]
fn counts_are_at_least_one() {
    for token in tokenize("+[->+<]>.,!") {
        assert!(token.count >= 1);
    }
}

#[test]
fn characters_are_collected_in_order() {
    assert_eq!(source_chars("a+é"), vec!['a', '+', 'é']);
    assert_eq!(source_chars(""), Vec::<char>::new());
}

#[test]
fn encoding_characters_agrees_with_tokenizing() {
    let source = "++[>,.<-]!!";
    assert_eq!(encode_chars(&source_chars(source)), tokenize(source));
}

#[test]
fn brackets_are_not_checked_while_lexing() {
    assert_eq!(
        tokenize("]]["),
        vec![unit(Token::LoopEnd, 2, 0), unit(Token::LoopStart, 1, 2)]
    );
}
