//! The commands of the tape language.

use vstd::prelude::*;

verus! {

/// One command of the language, as read from a single source character.
#[derive(Debug, Clone, Copy, PartialEq, Eq, Structural)]
pub enum Token {
    Right,
    Left,
    Increment,
    Decrement,
    Output,
    Input,
    LoopStart,
    LoopEnd,
    PrintNumber,
}

/// The command that a source character stands for, if any.
pub open spec fn token_of(c: char) -> Option<Token> {
    if c == '>' {
        Some(Token::Right)
    } else if c == '<' {
        Some(Token::Left)
    } else if c == '+' {
        Some(Token::Increment)
    } else if c == '-' {
        Some(Token::Decrement)
    } else if c == '.' {
        Some(Token::Output)
    } else if c == ',' {
        Some(Token::Input)
    } else if c == '[' {
        Some(Token::LoopStart)
    } else if c == ']' {
        Some(Token::LoopEnd)
    } else if c == '!' {
        Some(Token::PrintNumber)
    } else {
        None
    }
}

/// The name under which a command appears in the comments of the generated text.
pub open spec fn token_name(t: Token) -> Seq<char> {
    match t {
        Token::Right => "Right"@,
        Token::Left => "Left"@,
        Token::Increment => "Increment"@,
        Token::Decrement => "Decrement"@,
        Token::Output => "Output"@,
        Token::Input => "Input"@,
        Token::LoopStart => "LoopStart"@,
        Token::LoopEnd => "LoopEnd"@,
        Token::PrintNumber => "PrintNumber"@,
    }
}

impl Token {
    /// Reads a command from a source character; every other character is a comment.
    pub fn from_char(c: &char) -> (r: Option<Self>)
        ensures
            r == token_of(*c),
    {
        let c: char = *c;
        if c == '>' {
            Some(Token::Right)
        } else if c == '<' {
            Some(Token::Left)
        } else if c == '+' {
            Some(Token::Increment)
        } else if c == '-' {
            Some(Token::Decrement)
        } else if c == '.' {
            Some(Token::Output)
        } else if c == ',' {
            Some(Token::Input)
        } else if c == '[' {
            Some(Token::LoopStart)
        } else if c == ']' {
            Some(Token::LoopEnd)
        } else if c == '!' {
            Some(Token::PrintNumber)
        } else {
            None
        }
    }

    /// The command's name, as written in the comments of the generated text.
    pub fn name(&self) -> (r: &'static str)
        ensures
            r@ == token_name(*self),
    {
        match self {
            Token::Right => "Right",
            Token::Left => "Left",
            Token::Increment => "Increment",
            Token::Decrement => "Decrement",
            Token::Output => "Output",
            Token::Input => "Input",
            Token::LoopStart => "LoopStart",
            Token::LoopEnd => "LoopEnd",
            Token::PrintNumber => "PrintNumber",
        }
    }
}

} // verus!
