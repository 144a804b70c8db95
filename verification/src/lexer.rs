//! Run-length encoding of source text into command tokens.

use vstd::prelude::*;
use crate::token::{token_of, Token};

verus! {

/// A maximal run of one command character in the source.
#[derive(Debug, Clone, Copy, PartialEq, Eq, Structural)]
pub struct EncodedToken {
    /// The command that the run's character stands for.
    pub token: Token,
    /// How many times the character is repeated; at least one.
    pub count: usize,
    /// The index, counted in characters from zero, of the run's first character.
    pub position: usize,
}

/// The length of the run of equal characters that begins at `start`: it ends
/// where the next character differs, whatever that character is.
pub open spec fn run_length(s: Seq<char>, start: int) -> nat
    decreases s.len() - start,
{
    if 0 <= start && start + 1 < s.len() && s[start + 1] == s[start] {
        1 + run_length(s, start + 1)
    } else {
        1
    }
}

/// The tokens of the source from character `start` on. A character that is no
/// command is skipped; a command character yields one token for its whole run.
pub open spec fn encode_from(s: Seq<char>, start: int) -> Seq<EncodedToken>
    decreases s.len() - start,
{
    if start < 0 || start >= s.len() {
        Seq::empty()
    } else {
        match token_of(s[start]) {
            None => encode_from(s, start + 1),
            Some(t) => {
                proof {
                    lemma_run_length(s, start);
                }
                seq![
                EncodedToken {
                    token: t,
                    count: run_length(s, start) as usize,
                    position: start as usize,
                },
            ] + encode_from(s, start + run_length(s, start))
            },
        }
    }
}

/// The tokens of a whole source text, in source order.
pub open spec fn encode(s: Seq<char>) -> Seq<EncodedToken> {
    encode_from(s, 0)
}

/// A run stays inside the text and holds one character throughout; the
/// character after it, if there is one, differs.
pub proof fn lemma_run_length(s: Seq<char>, start: int)
    requires
        0 <= start < s.len(),
    ensures
        1 <= run_length(s, start),
        start + run_length(s, start) <= s.len(),
        forall|j: int| start <= j < start + run_length(s, start) ==> s[j] == s[start],
        start + run_length(s, start) < s.len() ==> s[start + run_length(s, start)] != s[start],
    decreases s.len() - start,
{
    if start + 1 < s.len() && s[start + 1] == s[start] {
        lemma_run_length(s, start + 1);
    }
}

/// What the encoding of the text from `start` on holds at index `i`: a token
/// for a run of its command's character, of the length of that run, that
/// begins where the character before is another one, and that ends before the
/// next token begins.
pub proof fn lemma_encode_from(s: Seq<char>, start: int, i: int)
    requires
        0 <= start <= s.len() <= usize::MAX,
        0 <= i < encode_from(s, start).len(),
    ensures
        ({
            let tokens = encode_from(s, start);
            let t = tokens[i];
            &&& start <= t.position < s.len()
            &&& token_of(s[t.position as int]) == Some(t.token)
            &&& t.count == run_length(s, t.position as int)
            &&& t.position > start ==> s[t.position - 1] != s[t.position as int]
            &&& i + 1 < tokens.len() ==> t.position + t.count <= tokens[i + 1].position
        }),
    decreases s.len() - start,
{
    if start < s.len() {
        match token_of(s[start]) {
            None => {
                lemma_encode_from(s, start + 1, i);
            },
            Some(t) => {
                lemma_run_length(s, start);
                let next = start + run_length(s, start);
                let rest = encode_from(s, next);
                if i > 0 {
                    lemma_encode_from(s, next, i - 1);
                    assert(encode_from(s, start)[i] == rest[i - 1]);
                    if i + 1 < encode_from(s, start).len() {
                        assert(encode_from(s, start)[i + 1] == rest[i]);
                    }
                } else if rest.len() > 0 {
                    lemma_encode_from(s, next, 0);
                    assert(encode_from(s, start)[1] == rest[0]);
                }
            },
        }
    }
}

/// Every token of an encoded text stands for a maximal run of one command
/// character: `count` equal characters from `position` on, at least one, with
/// another character or an end of the text on either side. The tokens are in
/// source order and their runs do not overlap.
pub proof fn lemma_tokens_are_maximal_runs(s: Seq<char>, i: int)
    requires
        s.len() <= usize::MAX,
        0 <= i < encode(s).len(),
    ensures
        ({
            let t = encode(s)[i];
            &&& 1 <= t.count
            &&& t.position + t.count <= s.len()
            &&& forall|j: int|
                t.position <= j < t.position + t.count ==> token_of(#[trigger] s[j]) == Some(
                    t.token,
                )
            &&& t.position > 0 ==> s[t.position - 1] != s[t.position as int]
            &&& t.position + t.count < s.len() ==> s[t.position + t.count] != s[t.position as int]
            &&& i + 1 < encode(s).len() ==> t.position + t.count <= encode(s)[i + 1].position
        }),
{
    lemma_encode_from(s, 0, i);
    lemma_run_length(s, encode(s)[i].position as int);
}

/// No command character is lost: each lies in the run of some token.
pub proof fn lemma_every_command_is_encoded(s: Seq<char>, start: int, p: int) -> (i: int)
    requires
        0 <= start <= p < s.len() <= usize::MAX,
        token_of(s[p]) is Some,
    ensures
        0 <= i < encode_from(s, start).len(),
        encode_from(s, start)[i].position <= p < encode_from(s, start)[i].position
            + encode_from(s, start)[i].count,
    decreases s.len() - start,
{
    match token_of(s[start]) {
        None => lemma_every_command_is_encoded(s, start + 1, p),
        Some(t) => {
            lemma_run_length(s, start);
            let next = start + run_length(s, start);
            if p < next {
                0
            } else {
                let i = lemma_every_command_is_encoded(s, next, p);
                assert(encode_from(s, start)[i + 1] == encode_from(s, next)[i]);
                i + 1
            }
        },
    }
}

/// Collects the characters of a text.
pub fn source_chars(source: &str) -> (chars: Vec<char>)
    ensures
        chars@ == source@,
{
    let mut chars: Vec<char> = Vec::new();
    for c in it: source.chars()
        invariant
            it.seq() == source@,
            chars@ == it.seq().take(it.index()),
    {
        chars.push(c);
        assert(chars@ =~= it.seq().take(it.index() + 1));
    }
    assert(chars@ =~= source@);
    chars
}

/// Run-length encodes a sequence of characters.
pub fn encode_chars(chars: &Vec<char>) -> (tokens: Vec<EncodedToken>)
    ensures
        tokens@ == encode(chars@),
{
    let n: usize = chars.len();
    let mut tokens: Vec<EncodedToken> = Vec::new();
    let mut i: usize = 0;
    assert(tokens@ + encode_from(chars@, 0) =~= encode(chars@));
    while i < n
        invariant
            i <= n,
            n == chars.len(),
            tokens@ + encode_from(chars@, i as int) == encode(chars@),
        decreases n - i,
    {
        let c: char = chars[i];
        match Token::from_char(&c) {
            None => {
                i += 1;
            },
            Some(t) => {
                let start: usize = i;
                let mut count: usize = 1;
                while i + 1 < n && chars[i + 1] == c
                    invariant
                        start <= i < n,
                        n == chars.len(),
                        count == i - start + 1,
                        chars[i as int] == c,
                        run_length(chars@, start as int) == (i - start) + run_length(
                            chars@,
                            i as int,
                        ),
                    decreases n - i,
                {
                    i += 1;
                    count += 1;
                }
                assert(run_length(chars@, i as int) == 1);
                let ghost before = tokens@;
                let unit = EncodedToken { token: t, count, position: start };
                tokens.push(unit);
                i += 1;
                assert(tokens@ + encode_from(chars@, i as int) =~= before + (seq![unit]
                    + encode_from(chars@, i as int)));
            },
        }
    }
    assert(tokens@ + encode_from(chars@, n as int) =~= tokens@);
    tokens
}

/// Run-length encodes a source text: the characters that are commands, each
/// maximal run of one character as a single token, in source order.
pub fn tokenize(source: &str) -> (tokens: Vec<EncodedToken>)
    ensures
        tokens@ == encode(source@),
{
    let chars = source_chars(source);
    encode_chars(&chars)
}

} // verus!
