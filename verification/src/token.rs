//! The format-string tokenizer: brace syntax `{name}` over a byte buffer.

use vstd::prelude::*;
use vstd::string::StringSliceAdditionalSpecFns;

verus! {

pub const ASCII_OPEN_BRACE: u8 = 123;
pub const ASCII_CLOSED_BRACE: u8 = 125;

/// One piece of a format string.
#[derive(Clone, Copy, PartialEq, Eq, Debug)]
pub enum Token<'a> {
    /// Literal text content.
    Literal(&'a [u8]),
    /// An argument with the given name.
    Argument(&'a [u8]),
}

/// Mathematical model of a token.
pub enum TokenM {
    Literal(Seq<u8>),
    Argument(Seq<u8>),
}

impl<'a> View for Token<'a> {
    type V = TokenM;

    open spec fn view(&self) -> TokenM {
        match *self {
            Token::Literal(b) => TokenM::Literal(b@),
            Token::Argument(b) => TokenM::Argument(b@),
        }
    }
}

/// The bytes a token carries.
pub open spec fn token_bytes(t: TokenM) -> Seq<u8> {
    match t {
        TokenM::Literal(b) => b,
        TokenM::Argument(b) => b,
    }
}

/// Position of the first occurrence of byte `b` in `s` at or after `from`.
pub open spec fn find_byte(s: Seq<u8>, from: int, b: u8) -> Option<int>
    decreases s.len() - from,
{
    if from < 0 || from >= s.len() {
        None
    } else if s[from] == b {
        Some(from)
    } else {
        find_byte(s, from + 1, b)
    }
}

pub proof fn lemma_find_byte_facts(s: Seq<u8>, from: int, b: u8)
    ensures
        match find_byte(s, from, b) {
            Some(j) => from <= j < s.len() && s[j] == b,
            None => true,
        },
    decreases s.len() - from,
{
    if 0 <= from < s.len() && s[from] != b {
        lemma_find_byte_facts(s, from + 1, b);
    }
}

/// The token starting at byte `pos` of `s`, with the position of the byte
/// after it. An opening brace scans to the next closing brace and yields the
/// name between them as an argument; if the input ends first, the fragment
/// yields no token at all. Any other byte starts a literal run extending to
/// the next opening brace or the end of input.
pub open spec fn next_token(s: Seq<u8>, pos: int) -> Option<(TokenM, int)> {
    if pos < 0 || pos >= s.len() {
        None
    } else if s[pos] == ASCII_OPEN_BRACE {
        match find_byte(s, pos + 1, ASCII_CLOSED_BRACE) {
            Some(c) => Some((TokenM::Argument(s.subrange(pos + 1, c)), c + 1)),
            None => None,
        }
    } else {
        match find_byte(s, pos + 1, ASCII_OPEN_BRACE) {
            Some(o) => Some((TokenM::Literal(s.subrange(pos, o)), o)),
            None => Some((TokenM::Literal(s.subrange(pos, s.len() as int)), s.len() as int)),
        }
    }
}

pub proof fn lemma_next_token_facts(s: Seq<u8>, pos: int)
    requires
        0 <= pos,
    ensures
        match next_token(s, pos) {
            Some((t, p)) => pos < p <= s.len() && token_bytes(t).len() <= s.len(),
            None => true,
        },
{
    if pos < s.len() {
        if s[pos] == ASCII_OPEN_BRACE {
            lemma_find_byte_facts(s, pos + 1, ASCII_CLOSED_BRACE);
        } else {
            lemma_find_byte_facts(s, pos + 1, ASCII_OPEN_BRACE);
        }
    }
}

/// All tokens of `s` from byte `pos` on.
pub open spec fn tokens_from(s: Seq<u8>, pos: int) -> Seq<TokenM>
    decreases s.len() - pos,
{
    match next_token(s, pos) {
        None => Seq::empty(),
        Some((t, p)) => {
            let p2 = if pos < p <= s.len() {
                p
            } else {
                pos + 1
            };
            seq![t] + tokens_from(s, p2)
        },
    }
}

/// A format string of `n` bytes yields at most `n` tokens.
pub proof fn lemma_tokens_from_count(s: Seq<u8>, pos: int)
    requires
        0 <= pos,
    ensures
        tokens_from(s, pos).len() <= s.len() - pos || tokens_from(s, pos).len() == 0,
    decreases s.len() - pos,
{
    lemma_next_token_facts(s, pos);
    match next_token(s, pos) {
        None => {},
        Some((t, p)) => {
            lemma_tokens_from_count(s, p);
        },
    }
}

/// Every token's bytes are a part of the format string: no longer than it.
pub proof fn lemma_tokens_from_lens(s: Seq<u8>, pos: int)
    requires
        0 <= pos,
    ensures
        forall|k: int|
            0 <= k < tokens_from(s, pos).len()
                ==> token_bytes(#[trigger] tokens_from(s, pos)[k]).len() <= s.len(),
    decreases s.len() - pos,
{
    lemma_next_token_facts(s, pos);
    match next_token(s, pos) {
        None => {},
        Some((t, p)) => {
            lemma_tokens_from_lens(s, p);
            assert(forall|k: int|
                1 <= k < tokens_from(s, pos).len()
                    ==> tokens_from(s, pos)[k] == tokens_from(s, p)[k - 1]);
        },
    }
}

/// Splits a format string into a forward-only sequence of tokens, using the
/// brace syntax `{name}`.
pub struct Tokenizer<'a> {
    pub input: &'a [u8],
    pub pos: usize,
}

impl<'a> Tokenizer<'a> {
    pub open spec fn wf(&self) -> bool {
        self.pos <= self.input@.len()
    }

    /// Create a new tokenizer over `format`, positioned at its start.
    pub fn new(format: &'a str) -> (r: Tokenizer<'a>)
        ensures
            r.input@ == format.spec_bytes(),
            r.pos == 0,
            r.wf(),
    {
        let input = format.as_bytes();
        Tokenizer { input, pos: 0 }
    }

    /// The next token, advancing past it; `None` once the input is over or
    /// holds only an unterminated argument fragment, which yields no token.
    pub fn next(&mut self) -> (t: Option<Token<'a>>)
        requires
            old(self).wf(),
        ensures
            final(self).wf(),
            final(self).input == old(self).input,
            match next_token(old(self).input@, old(self).pos as int) {
                None => t is None && final(self).pos == old(self).input@.len(),
                Some((tm, p)) => {
                    &&& t is Some
                    &&& t->0@ == tm
                    &&& final(self).pos == p
                },
            },
    {
        let n = self.input.len();
        if self.pos >= n {
            return None;
        }
        let start = self.pos;
        let ch = self.input[start];
        if ch == ASCII_OPEN_BRACE {
            // An argument is starting: read until the closing brace, then
            // yield the bytes between the braces. If the input ends before
            // the closing brace, yield nothing.
            let mut j = start + 1;
            while j < n
                invariant
                    start + 1 <= j <= n,
                    self.input == old(self).input,
                    self.pos == old(self).pos,
                    start == old(self).pos,
                    n == self.input@.len(),
                    self.input@[start as int] == ASCII_OPEN_BRACE,
                    find_byte(self.input@, start + 1 as int, ASCII_CLOSED_BRACE)
                        == find_byte(self.input@, j as int, ASCII_CLOSED_BRACE),
                decreases n - j,
            {
                if self.input[j] == ASCII_CLOSED_BRACE {
                    self.pos = j + 1;
                    return Some(Token::Argument(&self.input[start + 1..j]));
                }
                j = j + 1;
            }
            self.pos = n;
            None
        } else {
            // A literal is starting: read until the next opening brace or
            // the end of input, leaving the brace for the next call.
            let mut j = start + 1;
            while j < n
                invariant
                    start + 1 <= j <= n,
                    self.input == old(self).input,
                    self.pos == old(self).pos,
                    start == old(self).pos,
                    n == self.input@.len(),
                    start < self.input@.len() && self.input@[start as int] != ASCII_OPEN_BRACE,
                    find_byte(self.input@, start + 1 as int, ASCII_OPEN_BRACE)
                        == find_byte(self.input@, j as int, ASCII_OPEN_BRACE),
                decreases n - j,
            {
                if self.input[j] == ASCII_OPEN_BRACE {
                    self.pos = j;
                    return Some(Token::Literal(&self.input[start..j]));
                }
                j = j + 1;
            }
            self.pos = n;
            Some(Token::Literal(&self.input[start..n]))
        }
    }
}

} // verus!
