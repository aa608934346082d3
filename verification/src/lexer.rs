//! The lexer: turns source text into a stream of tokens. The spec-level
//! model `lex_from` fixes, for every input, either the exact token sequence
//! or a lexing failure; `TokenStream::from_str` is proved to return exactly
//! that.

use vstd::prelude::*;
use vstd::string::*;
use crate::text::{is_ws_char, is_ident_char, ws_char, ident_char};

verus! {

/// A lexical token. Identifiers and numerals both arrive as `Ident`; the
/// parser decides which they are.
#[derive(Debug, PartialEq, Eq)]
pub enum Token {
    Ident(String),
    Eq,
    Not,
    NEq,
    EqEq,
    Or,
    And,
    Add,
    Sub,
    Mul,
    Div,
    Mod,
    OpenParen,
    CloseParen,
    Semi,
    EOF,
}

/// The mathematical value of a token: identifiers carry their character
/// sequence.
pub enum TokenV {
    Ident(Seq<char>),
    Eq,
    Not,
    NEq,
    EqEq,
    Or,
    And,
    Add,
    Sub,
    Mul,
    Div,
    Mod,
    OpenParen,
    CloseParen,
    Semi,
    EOF,
}

impl Clone for Token {
    fn clone(&self) -> (r: Self)
        ensures
            r == *self,
    {
        match self {
            Token::Ident(s) => Token::Ident(s.clone()),
            Token::Eq => Token::Eq,
            Token::Not => Token::Not,
            Token::NEq => Token::NEq,
            Token::EqEq => Token::EqEq,
            Token::Or => Token::Or,
            Token::And => Token::And,
            Token::Add => Token::Add,
            Token::Sub => Token::Sub,
            Token::Mul => Token::Mul,
            Token::Div => Token::Div,
            Token::Mod => Token::Mod,
            Token::OpenParen => Token::OpenParen,
            Token::CloseParen => Token::CloseParen,
            Token::Semi => Token::Semi,
            Token::EOF => Token::EOF,
        }
    }
}

impl View for Token {
    type V = TokenV;

    open spec fn view(&self) -> TokenV {
        match self {
            Token::Ident(s) => TokenV::Ident(s@),
            Token::Eq => TokenV::Eq,
            Token::Not => TokenV::Not,
            Token::NEq => TokenV::NEq,
            Token::EqEq => TokenV::EqEq,
            Token::Or => TokenV::Or,
            Token::And => TokenV::And,
            Token::Add => TokenV::Add,
            Token::Sub => TokenV::Sub,
            Token::Mul => TokenV::Mul,
            Token::Div => TokenV::Div,
            Token::Mod => TokenV::Mod,
            Token::OpenParen => TokenV::OpenParen,
            Token::CloseParen => TokenV::CloseParen,
            Token::Semi => TokenV::Semi,
            Token::EOF => TokenV::EOF,
        }
    }
}

/// The first position at or after `i` holding a non-whitespace character,
/// or the length of `s` if there is none.
pub open spec fn first_non_ws(s: Seq<char>, i: int) -> int
    decreases s.len() - i when 0 <= i <= s.len()
{
    if i >= s.len() || !is_ws_char(s[i]) {
        i
    } else {
        first_non_ws(s, i + 1)
    }
}

/// The end of the identifier that starts at `i`: the first position at or
/// after `i` whose character cannot stand in an identifier.
pub open spec fn ident_end(s: Seq<char>, i: int) -> int
    decreases s.len() - i when 0 <= i <= s.len()
{
    if i >= s.len() || !is_ident_char(s[i]) {
        i
    } else {
        ident_end(s, i + 1)
    }
}

pub proof fn lemma_first_non_ws_bounds(s: Seq<char>, i: int)
    requires
        0 <= i <= s.len(),
    ensures
        i <= first_non_ws(s, i) <= s.len(),
        first_non_ws(s, i) < s.len() ==> !is_ws_char(s[first_non_ws(s, i)]),
        forall|j: int| i <= j < first_non_ws(s, i) ==> is_ws_char(s[j]),
    decreases s.len() - i,
{
    if i < s.len() && is_ws_char(s[i]) {
        lemma_first_non_ws_bounds(s, i + 1);
    }
}

pub proof fn lemma_ident_end_bounds(s: Seq<char>, i: int)
    requires
        0 <= i <= s.len(),
    ensures
        i <= ident_end(s, i) <= s.len(),
        ident_end(s, i) < s.len() ==> !is_ident_char(s[ident_end(s, i)]),
        forall|j: int| i <= j < ident_end(s, i) ==> is_ident_char(s[j]),
    decreases s.len() - i,
{
    if i < s.len() && is_ident_char(s[i]) {
        lemma_ident_end_bounds(s, i + 1);
    }
}

/// The token that starts at or after position `i`, with the position just
/// past it: `None` on a character no token may hold. Whitespace before the
/// token is skipped; at the end of input the token is `EOF`.
pub open spec fn token_at(s: Seq<char>, i: int) -> Option<(TokenV, int)> {
    let j = first_non_ws(s, i);
    if j >= s.len() {
        Some((TokenV::EOF, j))
    } else {
        let c = s[j];
        if c == '+' {
            Some((TokenV::Add, j + 1))
        } else if c == '-' {
            Some((TokenV::Sub, j + 1))
        } else if c == '*' {
            Some((TokenV::Mul, j + 1))
        } else if c == '/' {
            Some((TokenV::Div, j + 1))
        } else if c == '%' {
            Some((TokenV::Mod, j + 1))
        } else if c == '(' {
            Some((TokenV::OpenParen, j + 1))
        } else if c == ')' {
            Some((TokenV::CloseParen, j + 1))
        } else if c == ';' {
            Some((TokenV::Semi, j + 1))
        } else if c == '|' {
            Some((TokenV::Or, j + 1))
        } else if c == '&' {
            Some((TokenV::And, j + 1))
        } else if c == '=' {
            if j + 1 < s.len() && s[j + 1] == '=' {
                Some((TokenV::EqEq, j + 2))
            } else {
                Some((TokenV::Eq, j + 1))
            }
        } else if c == '!' {
            if j + 1 < s.len() && s[j + 1] == '=' {
                Some((TokenV::NEq, j + 2))
            } else {
                Some((TokenV::Not, j + 1))
            }
        } else if is_ident_char(c) {
            let k = ident_end(s, j);
            Some((TokenV::Ident(s.subrange(j, k)), k))
        } else {
            None
        }
    }
}

/// The token sequence of `s` from position `i` on, ending with a single
/// `EOF` token; `None` when some character fits no token.
pub open spec fn lex_from(s: Seq<char>, i: int) -> Option<Seq<TokenV>>
    decreases s.len() - i when 0 <= i <= s.len()
    via lex_from_decreases
{
    match token_at(s, i) {
        Option::None => Option::None,
        Option::Some((t, j)) => {
            if t is EOF {
                Option::Some(seq![TokenV::EOF])
            } else {
                match lex_from(s, j) {
                    Option::None => Option::None,
                    Option::Some(rest) => Option::Some(seq![t] + rest),
                }
            }
        },
    }
}

#[via_fn]
proof fn lex_from_decreases(s: Seq<char>, i: int) {
    lemma_first_non_ws_bounds(s, i);
    let j = first_non_ws(s, i);
    if j < s.len() && is_ident_char(s[j]) {
        lemma_ident_end_bounds(s, j);
        assert(ident_end(s, j) == ident_end(s, j + 1));
        lemma_ident_end_bounds(s, j + 1);
    }
}

/// Every token but `EOF` stands strictly after its start.
pub proof fn lemma_token_at_progress(s: Seq<char>, i: int)
    requires
        0 <= i <= s.len(),
        token_at(s, i) is Some,
    ensures
        i <= token_at(s, i)->Some_0.1 <= s.len(),
        !(token_at(s, i)->Some_0.0 is EOF) ==> i < token_at(s, i)->Some_0.1,
{
    lemma_first_non_ws_bounds(s, i);
    let j = first_non_ws(s, i);
    if j < s.len() && is_ident_char(s[j]) {
        lemma_ident_end_bounds(s, j);
        assert(ident_end(s, j) == ident_end(s, j + 1));
        lemma_ident_end_bounds(s, j + 1);
    }
}

/// A lexing failure.
#[derive(Debug, PartialEq, Eq, Clone, Structural)]
pub enum LexErr {
    General,
}

impl Token {
    /// Reads the token that starts at or after character position `pos` of
    /// `s` and returns it with the position just past it.
    pub fn parse(s: &str, pos: usize) -> (r: Result<(Token, usize), LexErr>)
        requires
            pos <= s@.len(),
        ensures
            match r {
                Ok((t, j)) => token_at(s@, pos as int) == Some((t@, j as int)) && j <= s@.len(),
                Err(_) => token_at(s@, pos as int) is None,
            },
    {
        let n = s.unicode_len();
        let mut i: usize = pos;
        loop
            invariant
                pos <= i <= n,
                n == s@.len(),
                forall|j: int| pos <= j < i ==> is_ws_char(s@[j]),
            ensures
                pos <= i <= n,
                forall|j: int| pos <= j < i ==> is_ws_char(s@[j]),
                i == n || !is_ws_char(s@[i as int]),
            decreases n - i,
        {
            if i >= n {
                break;
            }
            if !ws_char(s.get_char(i)) {
                break;
            }
            i += 1;
        }
        proof {
            lemma_first_non_ws_bounds(s@, pos as int);
            assert(first_non_ws(s@, pos as int) == i) by {
                let f = first_non_ws(s@, pos as int);
                if f < i {
                    assert(is_ws_char(s@[f]));
                } else if f > i {
                    assert(is_ws_char(s@[i as int]));
                }
            }
        }
        if i >= n {
            return Ok((Token::EOF, i));
        }
        let c = s.get_char(i);
        match c {
            '+' => Ok((Token::Add, i + 1)),
            '-' => Ok((Token::Sub, i + 1)),
            '*' => Ok((Token::Mul, i + 1)),
            '/' => Ok((Token::Div, i + 1)),
            '%' => Ok((Token::Mod, i + 1)),
            '(' => Ok((Token::OpenParen, i + 1)),
            ')' => Ok((Token::CloseParen, i + 1)),
            ';' => Ok((Token::Semi, i + 1)),
            '|' => Ok((Token::Or, i + 1)),
            '&' => Ok((Token::And, i + 1)),
            '=' => {
                if i + 1 < n && s.get_char(i + 1) == '=' {
                    Ok((Token::EqEq, i + 2))
                } else {
                    Ok((Token::Eq, i + 1))
                }
            },
            '!' => {
                if i + 1 < n && s.get_char(i + 1) == '=' {
                    Ok((Token::NEq, i + 2))
                } else {
                    Ok((Token::Not, i + 1))
                }
            },
            _ => {
                if ident_char(c) {
                    Ok(Self::parse_single(s, i))
                } else {
                    Err(LexErr::General)
                }
            },
        }
    }

    /// Reads the identifier that starts at `pos`.
    fn parse_single(s: &str, pos: usize) -> (r: (Token, usize))
        requires
            pos < s@.len(),
            is_ident_char(s@[pos as int]),
        ensures
            r.0@ == TokenV::Ident(s@.subrange(pos as int, ident_end(s@, pos as int))),
            r.1 == ident_end(s@, pos as int),
            pos < r.1 <= s@.len(),
    {
        let n = s.unicode_len();
        let mut k: usize = pos;
        loop
            invariant
                pos <= k <= n,
                n == s@.len(),
                forall|j: int| pos <= j < k ==> is_ident_char(s@[j]),
            ensures
                pos <= k <= n,
                forall|j: int| pos <= j < k ==> is_ident_char(s@[j]),
                k == n || !is_ident_char(s@[k as int]),
            decreases n - k,
        {
            if k >= n {
                break;
            }
            if !ident_char(s.get_char(k)) {
                break;
            }
            k += 1;
        }
        proof {
            lemma_ident_end_bounds(s@, pos as int);
            assert(ident_end(s@, pos as int) == k) by {
                let f = ident_end(s@, pos as int);
                if f < k {
                    assert(is_ident_char(s@[f]));
                } else if f > k {
                    assert(is_ident_char(s@[k as int]));
                }
            }
        }
        let name = s.substring_char(pos, k).to_owned();
        (Token::Ident(name), k)
    }
}

/// A token sequence with a cursor. `next` and `advance` move the cursor;
/// reading past the end yields `EOF`.
#[derive(Debug, PartialEq, Eq)]
pub struct TokenStream {
    pub inner: Vec<Token>,
    pub cursor: usize,
}

impl TokenStream {
    /// The token values held by the stream.
    pub open spec fn toks(&self) -> Seq<TokenV> {
        self.inner@.map(|i: int, t: Token| t@)
    }

    /// The cursor position.
    pub open spec fn cur(&self) -> int {
        self.cursor as int
    }

    /// The token value at position `i`, with `EOF` past the end.
    pub open spec fn tok_at(&self, i: int) -> TokenV {
        if 0 <= i < self.toks().len() {
            self.toks()[i]
        } else {
            TokenV::EOF
        }
    }

    fn new() -> (r: Self)
        ensures
            r.toks() =~= Seq::<TokenV>::empty(),
            r.cur() == 0,
    {
        TokenStream { inner: Vec::new(), cursor: 0 }
    }

    fn push(&mut self, token: Token)
        ensures
            final(self).toks() =~= old(self).toks().push(token@),
            final(self).cur() == old(self).cur(),
    {
        self.inner.push(token);
    }

    /// The tokens as a vector, for callers outside the library.
    pub fn tokens(&self) -> (r: &Vec<Token>)
        ensures
            r@.map(|i: int, t: Token| t@) == self.toks(),
    {
        &self.inner
    }

    /// Returns the token under the cursor and moves the cursor one on,
    /// saturating at the end of the stream.
    pub fn next(&mut self) -> (r: Token)
        ensures
            r@ == old(self).tok_at(old(self).cur()),
            final(self).toks() == old(self).toks(),
            final(self).cur() == if old(self).cur() + 1 <= old(self).toks().len() {
                old(self).cur() + 1
            } else {
                old(self).toks().len() as int
            },
    {
        let r = self.peek();
        self.advance();
        r
    }

    /// Moves the cursor one on, saturating at the end of the stream.
    pub fn advance(&mut self)
        ensures
            final(self).toks() == old(self).toks(),
            final(self).cur() == if old(self).cur() + 1 <= old(self).toks().len() {
                old(self).cur() + 1
            } else {
                old(self).toks().len() as int
            },
    {
        if self.cursor < self.inner.len() {
            self.cursor = self.cursor + 1;
        } else {
            self.cursor = self.inner.len();
        }
    }

    /// The token under the cursor, without moving it.
    pub fn peek(&self) -> (r: Token)
        ensures
            r@ == self.tok_at(self.cur()),
    {
        if self.cursor < self.inner.len() {
            self.inner[self.cursor].clone()
        } else {
            Token::EOF
        }
    }

    /// The token `n` places past the cursor, without moving it.
    pub fn peekn(&self, n: usize) -> (r: Token)
        ensures
            r@ == self.tok_at(self.cur() + n),
    {
        if self.cursor >= self.inner.len() {
            return Token::EOF;
        }
        let rem = self.inner.len() - self.cursor;
        if n >= rem {
            Token::EOF
        } else {
            self.inner[self.cursor + n].clone()
        }
    }

    /// Lexes a whole source text. On success the stream holds exactly the
    /// token sequence of the model `lex_from`, cursor at the start.
    pub fn from_str(s: &str) -> (r: Result<TokenStream, LexErr>)
        ensures
            match r {
                Ok(ts) => lex_from(s@, 0) == Some(ts.toks()) && ts.cur() == 0,
                Err(_) => lex_from(s@, 0) is None,
            },
    {
        let mut stream = TokenStream::new();
        let n = s.unicode_len();
        let mut pos: usize = 0;
        loop
            invariant
                pos <= n,
                n == s@.len(),
                stream.cur() == 0,
                lex_from(s@, 0) is Some <==> lex_from(s@, pos as int) is Some,
                lex_from(s@, 0) is Some ==> lex_from(s@, 0)->Some_0 =~= stream.toks()
                    + lex_from(s@, pos as int)->Some_0,
            decreases n - pos,
        {
            match Token::parse(s, pos) {
                Err(e) => {
                    return Err(e);
                },
                Ok((t, j)) => {
                    proof {
                        lemma_token_at_progress(s@, pos as int);
                    }
                    let is_eof = match &t {
                        Token::EOF => true,
                        _ => false,
                    };
                    if is_eof {
                        stream.push(t);
                        proof {
                            assert(lex_from(s@, pos as int) == Some(seq![TokenV::EOF]));
                            assert(lex_from(s@, 0)->Some_0 =~= stream.toks());
                        }
                        return Ok(stream);
                    }
                    stream.push(t);
                    pos = j;
                },
            }
        }
    }
}

} // verus!
