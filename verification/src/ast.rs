//! The syntax tree and its parser: semicolon-terminated statements over
//! arithmetic expressions with standard precedence, parsed by precedence
//! climbing from the token stream. The spec-level model (`sp_expr_at`,
//! `sp_line_at`, `sp_program_at`) fixes the exact tree, or the exact
//! failure, for every token sequence.

use vstd::prelude::*;
use vstd::string::*;
use crate::lexer::{Token, TokenV, TokenStream, LexErr, lex_from};
use crate::text::{is_digit_char, int_digits, str_eq, digit_char, i64_to_string};

verus! {

/// A binary arithmetic operator.
#[derive(Debug, Clone, Copy, PartialEq, Eq, Structural)]
pub enum Operation {
    Mul,
    Sub,
    Add,
    Div,
    Mod,
}

/// A leaf of an expression: a variable reference or an integer immediate.
#[derive(Debug, PartialEq, Eq)]
pub enum Val {
    Var(String),
    V(i64),
}

/// An expression: a leaf, or an operator applied to two subexpressions.
#[derive(Debug, PartialEq, Eq)]
pub enum Expr {
    Val(Val),
    Op(Box<Expr>, Operation, Box<Expr>),
}

/// A statement: a bare expression, a declaration binding a variable, or a
/// call of a named routine with one argument.
#[derive(Debug, PartialEq, Eq)]
pub enum Line {
    Expr(Expr),
    Decl(String, Expr),
    Call(String, Expr),
}

/// A whole program: its statements in source order.
#[derive(Debug, PartialEq, Eq)]
pub struct Ast {
    pub inner: Vec<Line>,
}

/// A parse failure.
#[derive(Debug, Clone, PartialEq, Eq, Structural)]
pub enum AstErr {
    BadToken,
    Eof,
}

/// The mathematical value of a `Val`.
pub enum ValV {
    Var(Seq<char>),
    V(int),
}

/// The mathematical value of an `Expr`.
pub enum ExprV {
    Val(ValV),
    Op(Box<ExprV>, Operation, Box<ExprV>),
}

/// The mathematical value of a `Line`.
pub enum LineV {
    Expr(ExprV),
    Decl(Seq<char>, ExprV),
    Call(Seq<char>, ExprV),
}

impl View for Val {
    type V = ValV;

    open spec fn view(&self) -> ValV {
        match self {
            Val::Var(s) => ValV::Var(s@),
            Val::V(v) => ValV::V(*v as int),
        }
    }
}

/// The mathematical value of an expression tree.
pub open spec fn expr_view(e: &Expr) -> ExprV
    decreases e,
{
    match e {
        Expr::Val(v) => ExprV::Val(v@),
        Expr::Op(l, op, r) => ExprV::Op(
            Box::new(expr_view(l)),
            *op,
            Box::new(expr_view(r)),
        ),
    }
}

impl View for Expr {
    type V = ExprV;

    open spec fn view(&self) -> ExprV {
        expr_view(self)
    }
}

impl View for Line {
    type V = LineV;

    open spec fn view(&self) -> LineV {
        match self {
            Line::Expr(e) => LineV::Expr(e@),
            Line::Decl(n, e) => LineV::Decl(n@, e@),
            Line::Call(n, e) => LineV::Call(n@, e@),
        }
    }
}

impl View for Ast {
    type V = Seq<LineV>;

    open spec fn view(&self) -> Seq<LineV> {
        self.inner@.map(|i: int, l: Line| l@)
    }
}

impl Ast {
    /// The statements of the program, in source order.
    pub fn lines(&self) -> (r: &Vec<Line>)
        ensures
            r@.map(|i: int, l: Line| l@) == self@,
    {
        &self.inner
    }
}

/// The numeric value of a digit character.
pub open spec fn digit_val(c: char) -> int {
    c as u32 - '0' as u32
}

/// Whether `s` is a numeral: nonempty and all digits.
pub open spec fn is_numeral(s: Seq<char>) -> bool {
    s.len() > 0 && forall|j: int| 0 <= j < s.len() ==> is_digit_char(s[j])
}

/// The value of a digit string, most significant digit first.
pub open spec fn digits_val(s: Seq<char>) -> int
    decreases s.len(),
{
    if s.len() == 0 {
        0
    } else {
        digits_val(s.drop_last()) * 10 + digit_val(s.last())
    }
}

pub proof fn lemma_digits_val_nonneg(s: Seq<char>)
    requires
        forall|j: int| 0 <= j < s.len() ==> is_digit_char(s[j]),
    ensures
        digits_val(s) >= 0,
    decreases s.len(),
{
    if s.len() > 0 {
        lemma_digits_val_nonneg(s.drop_last());
    }
}

/// A digit string is worth at least any of its prefixes.
pub proof fn lemma_digits_val_prefix(s: Seq<char>, k: int)
    requires
        forall|j: int| 0 <= j < s.len() ==> is_digit_char(s[j]),
        0 <= k <= s.len(),
    ensures
        digits_val(s.take(k)) <= digits_val(s),
    decreases s.len() - k,
{
    if k < s.len() {
        lemma_digits_val_prefix(s, k + 1);
        assert(s.take(k + 1).drop_last() =~= s.take(k));
        assert(s.take(k + 1).last() == s[k]);
        lemma_digits_val_nonneg(s.take(k));
        assert(digits_val(s.take(k)) * 10 >= digits_val(s.take(k)));
    } else {
        assert(s.take(k) =~= s);
    }
}

/// The `Val` an identifier token denotes: an in-range numeral is an integer
/// immediate, any other identifier a variable reference; a numeral too large
/// for an immediate is refused.
pub open spec fn sp_val_of(s: Seq<char>) -> Option<ValV> {
    if is_numeral(s) {
        if digits_val(s) <= i64::MAX {
            Some(ValV::V(digits_val(s)))
        } else {
            None
        }
    } else {
        Some(ValV::Var(s))
    }
}

/// The operator a token denotes, if any.
pub open spec fn sp_op_of(t: TokenV) -> Option<Operation> {
    match t {
        TokenV::Mul => Some(Operation::Mul),
        TokenV::Add => Some(Operation::Add),
        TokenV::Sub => Some(Operation::Sub),
        TokenV::Div => Some(Operation::Div),
        TokenV::Mod => Some(Operation::Mod),
        _ => None,
    }
}

/// Left binding power: multiplicative operators bind tighter.
pub open spec fn sp_lbp(op: Operation) -> int {
    match op {
        Operation::Mul | Operation::Div | Operation::Mod => 20,
        Operation::Sub | Operation::Add => 10,
    }
}

/// Right binding power: one above the left power, so both operator levels
/// associate to the left.
pub open spec fn sp_rbp(op: Operation) -> int {
    match op {
        Operation::Mul | Operation::Div | Operation::Mod => 21,
        Operation::Sub | Operation::Add => 11,
    }
}

/// Whether an identifier names a routine recognised in call position.
pub open spec fn is_func_spec(s: Seq<char>) -> bool {
    s == "print"@
}

/// Whether an identifier names a routine recognised in call position.
pub fn is_func(ident: &str) -> (r: bool)
    ensures
        r == is_func_spec(ident@),
{
    str_eq(ident, "print")
}

impl Operation {
    /// The binding powers of the operator, right before left.
    pub fn infix_power(&self) -> (r: (u32, u32))
        ensures
            r.0 == sp_rbp(*self),
            r.1 == sp_lbp(*self),
    {
        match self {
            Operation::Mul | Operation::Div | Operation::Mod => (21, 20),
            Operation::Sub | Operation::Add => (11, 10),
        }
    }

    /// The operator a token denotes; any other token is refused.
    pub fn from_token(token: &Token) -> (r: Result<Operation, AstErr>)
        ensures
            match r {
                Ok(op) => sp_op_of(token@) == Some(op),
                Err(e) => sp_op_of(token@) is None && e == AstErr::BadToken,
            },
    {
        match token {
            Token::Mul => Ok(Operation::Mul),
            Token::Add => Ok(Operation::Add),
            Token::Sub => Ok(Operation::Sub),
            Token::Div => Ok(Operation::Div),
            Token::Mod => Ok(Operation::Mod),
            _ => Err(AstErr::BadToken),
        }
    }
}

/// The token at position `i` of a sequence, `EOF` past the end.
pub open spec fn tok_seq(toks: Seq<TokenV>, i: int) -> TokenV {
    if 0 <= i < toks.len() {
        toks[i]
    } else {
        TokenV::EOF
    }
}

impl Val {
    /// Consumes one token and reads it as a value: a numeral that fits an
    /// immediate, or a variable name. A numeral too large is refused.
    #[verifier::loop_isolation(false)]
    pub fn parse(stream: &mut TokenStream) -> (r: Result<Val, AstErr>)
        ensures
            final(stream).toks() == old(stream).toks(),
            final(stream).cur() == if old(stream).cur() + 1 <= old(stream).toks().len() {
                old(stream).cur() + 1
            } else {
                old(stream).toks().len() as int
            },
            match r {
                Ok(v) => {
                    &&& old(stream).tok_at(old(stream).cur()) matches TokenV::Ident(s)
                    &&& sp_val_of(old(stream).tok_at(old(stream).cur())->Ident_0) == Some(v@)
                },
                Err(e) => e == AstErr::BadToken && match old(stream).tok_at(old(stream).cur()) {
                    TokenV::Ident(s) => sp_val_of(s) is None,
                    _ => true,
                },
            },
    {
        let t = stream.next();
        let name = match t {
            Token::Ident(name) => name,
            _ => {
                return Err(AstErr::BadToken);
            },
        };
        let s = name.as_str();
        let n = s.unicode_len();
        let mut all_digits = n > 0;
        let mut i: usize = 0;
        while i < n
            invariant
                n == s@.len(),
                i <= n,
                all_digits == (n > 0 && forall|j: int| 0 <= j < i ==> is_digit_char(s@[j])),
                stream.toks() == old(stream).toks(),
                stream.cur() == if old(stream).cur() + 1 <= old(stream).toks().len() {
                    old(stream).cur() + 1
                } else {
                    old(stream).toks().len() as int
                },
            decreases n - i,
        {
            if !digit_char(s.get_char(i)) {
                all_digits = false;
            }
            i += 1;
        }
        if !all_digits {
            proof {
                assert(!is_numeral(s@));
            }
            return Ok(Val::Var(name));
        }
        proof {
            assert(is_numeral(s@));
        }
        let mut acc: i64 = 0;
        let mut k: usize = 0;
        while k < n
            invariant
                n == s@.len(),
                k <= n,
                is_numeral(s@),
                acc == digits_val(s@.take(k as int)),
                acc >= 0,
                stream.toks() == old(stream).toks(),
                stream.cur() == if old(stream).cur() + 1 <= old(stream).toks().len() {
                    old(stream).cur() + 1
                } else {
                    old(stream).toks().len() as int
                },
            decreases n - k,
        {
            let c = s.get_char(k);
            let d: i64 = ((c as u32) - 48) as i64;
            proof {
                assert(is_digit_char(s@[k as int]));
                assert(d == digit_val(s@[k as int]));
            }
            let m = match acc.checked_mul(10) {
                Some(m) => m,
                None => {
                    proof {
                        overflow_means_too_big(s@, k as int, acc as int, 10 * acc as int + d as int);
                    }
                    return Err(AstErr::BadToken);
                },
            };
            let a = match m.checked_add(d) {
                Some(a) => a,
                None => {
                    proof {
                        overflow_means_too_big(s@, k as int, acc as int, 10 * acc as int + d as int);
                    }
                    return Err(AstErr::BadToken);
                },
            };
            proof {
                assert(s@.take(k + 1).drop_last() =~= s@.take(k as int));
                assert(s@.take(k + 1).last() == s@[k as int]);
                lemma_digits_val_nonneg(s@.take(k + 1));
            }
            acc = a;
            k += 1;
        }
        proof {
            assert(s@.take(n as int) =~= s@);
        }
        Ok(Val::V(acc))
    }
}

/// When one more digit no longer fits an `i64`, the whole numeral does not
/// fit either.
proof fn overflow_means_too_big(s: Seq<char>, k: int, acc: int, next: int)
    requires
        is_numeral(s),
        0 <= k < s.len(),
        acc == digits_val(s.take(k)),
        next == 10 * acc + digit_val(s[k]),
        next > i64::MAX,
    ensures
        sp_val_of(s) is None,
{
    assert(s.take(k + 1).drop_last() =~= s.take(k));
    assert(s.take(k + 1).last() == s[k]);
    assert(digits_val(s.take(k + 1)) == next);
    lemma_digits_val_prefix(s, k + 1);
}


/// The result of precedence-climbing from position `i` with minimum binding
/// power `min_bp`: the parsed expression and the position just past it, or
/// `None` on a malformed expression. `fuel` only bounds the recursion; any
/// fuel above the number of remaining tokens gives the same answer.
pub open spec fn sp_parse_expr(toks: Seq<TokenV>, i: int, min_bp: int, fuel: nat) -> Option<
    (ExprV, int),
>
    decreases fuel, 1int,
{
    if fuel == 0 {
        None
    } else {
        match tok_seq(toks, i) {
            TokenV::Ident(s) => match sp_val_of(s) {
                None => None,
                Some(v) => sp_parse_loop(toks, ExprV::Val(v), i + 1, min_bp, (fuel - 1) as nat),
            },
            TokenV::OpenParen => match sp_parse_expr(toks, i + 1, 0, (fuel - 1) as nat) {
                None => None,
                Some(inner) => if tok_seq(toks, inner.1) is CloseParen {
                    sp_parse_loop(toks, inner.0, inner.1 + 1, min_bp, (fuel - 1) as nat)
                } else {
                    None
                },
            },
            _ => None,
        }
    }
}

/// The operator loop of precedence climbing: extends `lhs` with operators of
/// binding power at least `min_bp`.
pub open spec fn sp_parse_loop(
    toks: Seq<TokenV>,
    lhs: ExprV,
    i: int,
    min_bp: int,
    fuel: nat,
) -> Option<(ExprV, int)>
    decreases fuel, 0int,
{
    if fuel == 0 {
        None
    } else {
        match tok_seq(toks, i) {
            TokenV::EOF | TokenV::CloseParen | TokenV::Semi => Some((lhs, i)),
            TokenV::Ident(_) => None,
            t => match sp_op_of(t) {
                None => None,
                Some(op) => if sp_lbp(op) < min_bp {
                    Some((lhs, i))
                } else {
                    match sp_parse_expr(toks, i + 1, sp_rbp(op), (fuel - 1) as nat) {
                        None => None,
                        Some(rhs) => sp_parse_loop(
                            toks,
                            ExprV::Op(Box::new(lhs), op, Box::new(rhs.0)),
                            rhs.1,
                            min_bp,
                            (fuel - 1) as nat,
                        ),
                    }
                },
            },
        }
    }
}

/// The expression parse at position `i`, with ample fuel.
pub open spec fn sp_expr_at(toks: Seq<TokenV>, i: int, min_bp: int) -> Option<(ExprV, int)> {
    sp_parse_expr(toks, i, min_bp, (toks.len() + 1) as nat)
}

/// Any two sufficient fuels give `sp_parse_expr` the same answer, and a
/// successful parse ends strictly after its start and within the tokens.
pub proof fn lemma_expr_props(toks: Seq<TokenV>, i: int, min_bp: int, f1: nat, f2: nat)
    requires
        0 <= i <= toks.len(),
        f1 > toks.len() - i,
        f2 > toks.len() - i,
    ensures
        sp_parse_expr(toks, i, min_bp, f1) == sp_parse_expr(toks, i, min_bp, f2),
        match sp_parse_expr(toks, i, min_bp, f1) {
            Some(r) => i < r.1 <= toks.len(),
            None => true,
        },
    decreases toks.len() - i, 1int,
{
    match tok_seq(toks, i) {
        TokenV::Ident(s) => {
            if sp_val_of(s) is Some {
                let v = sp_val_of(s)->0;
                lemma_loop_props(
                    toks,
                    ExprV::Val(v),
                    i + 1,
                    min_bp,
                    (f1 - 1) as nat,
                    (f2 - 1) as nat,
                );
            }
        },
        TokenV::OpenParen => {
            lemma_expr_props(toks, i + 1, 0, (f1 - 1) as nat, (f2 - 1) as nat);
            match sp_parse_expr(toks, i + 1, 0, (f1 - 1) as nat) {
                Some(inner) => {
                    if tok_seq(toks, inner.1) is CloseParen {
                        lemma_loop_props(
                            toks,
                            inner.0,
                            inner.1 + 1,
                            min_bp,
                            (f1 - 1) as nat,
                            (f2 - 1) as nat,
                        );
                    }
                },
                None => {},
            }
        },
        _ => {},
    }
}

/// The loop analogue of `lemma_expr_props`; a loop may also stand still.
pub proof fn lemma_loop_props(toks: Seq<TokenV>, lhs: ExprV, i: int, min_bp: int, f1: nat, f2: nat)
    requires
        0 <= i <= toks.len(),
        f1 > toks.len() - i,
        f2 > toks.len() - i,
    ensures
        sp_parse_loop(toks, lhs, i, min_bp, f1) == sp_parse_loop(toks, lhs, i, min_bp, f2),
        match sp_parse_loop(toks, lhs, i, min_bp, f1) {
            Some(r) => i <= r.1 <= toks.len(),
            None => true,
        },
    decreases toks.len() - i, 0int,
{
    match tok_seq(toks, i) {
        TokenV::EOF | TokenV::CloseParen | TokenV::Semi => {},
        TokenV::Ident(_) => {},
        t => {
            match sp_op_of(t) {
                None => {},
                Some(op) => {
                    if sp_lbp(op) >= min_bp {
                        lemma_expr_props(toks, i + 1, sp_rbp(op), (f1 - 1) as nat, (f2 - 1) as nat);
                        match sp_parse_expr(toks, i + 1, sp_rbp(op), (f1 - 1) as nat) {
                            Some(rhs) => {
                                lemma_loop_props(
                                    toks,
                                    ExprV::Op(Box::new(lhs), op, Box::new(rhs.0)),
                                    rhs.1,
                                    min_bp,
                                    (f1 - 1) as nat,
                                    (f2 - 1) as nat,
                                );
                            },
                            None => {},
                        }
                    }
                },
            }
        },
    }
}

/// Parses one expression by precedence climbing, consuming its tokens. The
/// result is exactly what the model `sp_expr_at` gives at the cursor.
#[verifier::loop_isolation(false)]
pub fn parse_expr(stream: &mut TokenStream, min_bp: u32) -> (r: Result<Expr, AstErr>)
    requires
        old(stream).cur() <= old(stream).toks().len(),
    ensures
        final(stream).toks() == old(stream).toks(),
        final(stream).cur() <= final(stream).toks().len(),
        match r {
            Ok(e) => sp_expr_at(old(stream).toks(), old(stream).cur(), min_bp as int) == Some(
                (e@, final(stream).cur()),
            ) && old(stream).cur() < final(stream).cur(),
            Err(err) => sp_expr_at(old(stream).toks(), old(stream).cur(), min_bp as int) is None
                && err == AstErr::BadToken,
        },
    decreases old(stream).toks().len() - old(stream).cur(),
{
    let ghost toks0 = old(stream).toks();
    let ghost i0 = old(stream).cur();
    let ghost fuelstd = (toks0.len() + 1) as nat;
    let t = stream.peek();
    let mut lhs: Expr;
    match t {
        Token::Ident(_) => {
            let v = match Val::parse(stream) {
                Ok(v) => v,
                Err(e) => {
                    return Err(e);
                },
            };
            lhs = Expr::Val(v);
            proof {
                lemma_loop_props(toks0, lhs@, i0 + 1, min_bp as int, (fuelstd - 1) as nat, fuelstd);
            }
        },
        Token::OpenParen => {
            stream.advance();
            let inner = match parse_expr(stream, 0) {
                Ok(e) => e,
                Err(e) => {
                    proof {
                        lemma_expr_props(toks0, i0 + 1, 0, (fuelstd - 1) as nat, fuelstd);
                    }
                    return Err(e);
                },
            };
            proof {
                lemma_expr_props(toks0, i0 + 1, 0, (fuelstd - 1) as nat, fuelstd);
            }
            let ghost jclose = stream.cur();
            let t2 = stream.next();
            match t2 {
                Token::CloseParen => {},
                _ => {
                    return Err(AstErr::BadToken);
                },
            }
            lhs = inner;
            proof {
                lemma_loop_props(
                    toks0,
                    lhs@,
                    jclose + 1,
                    min_bp as int,
                    (fuelstd - 1) as nat,
                    fuelstd,
                );
            }
        },
        _ => {
            return Err(AstErr::BadToken);
        },
    }
    loop
        invariant
            stream.toks() == toks0,
            i0 < stream.cur() <= toks0.len(),
            sp_expr_at(toks0, i0, min_bp as int) == sp_parse_loop(
                toks0,
                lhs@,
                stream.cur(),
                min_bp as int,
                fuelstd,
            ),
        decreases toks0.len() - stream.cur(),
    {
        let t = stream.peek();
        match t {
            Token::EOF | Token::CloseParen | Token::Semi => {
                return Ok(lhs);
            },
            Token::Ident(_) => {
                return Err(AstErr::BadToken);
            },
            _ => {},
        }
        let op = match Operation::from_token(&t) {
            Ok(op) => op,
            Err(e) => {
                return Err(e);
            },
        };
        let power = op.infix_power();
        if power.1 < min_bp {
            return Ok(lhs);
        }
        let ghost iop = stream.cur();
        stream.advance();
        let rhs = match parse_expr(stream, power.0) {
            Ok(e) => e,
            Err(e) => {
                proof {
                    lemma_expr_props(
                        toks0,
                        iop + 1,
                        sp_rbp(op),
                        (fuelstd - 1) as nat,
                        fuelstd,
                    );
                }
                return Err(e);
            },
        };
        proof {
            lemma_expr_props(toks0, iop + 1, sp_rbp(op), (fuelstd - 1) as nat, fuelstd);
        }
        lhs = Expr::Op(Box::new(lhs), op, Box::new(rhs));
        proof {
            lemma_loop_props(
                toks0,
                lhs@,
                stream.cur(),
                min_bp as int,
                (fuelstd - 1) as nat,
                fuelstd,
            );
        }
    }
}


/// The outcome of parsing one statement: a statement with the position just
/// past its semicolon, a parse failure, or the end of the program.
pub enum LineOut {
    Parsed(LineV, int),
    Reject,
    AtEnd,
}

/// Demands the semicolon that ends a statement.
pub open spec fn sp_semi(toks: Seq<TokenV>, j: int, l: LineV) -> LineOut {
    if tok_seq(toks, j) is Semi {
        LineOut::Parsed(l, j + 1)
    } else {
        LineOut::Reject
    }
}

/// A declaration tail: the bound expression, then the semicolon.
pub open spec fn sp_decl_tail(toks: Seq<TokenV>, i: int, name: Seq<char>) -> LineOut {
    match sp_expr_at(toks, i, 0) {
        None => LineOut::Reject,
        Some(r) => sp_semi(toks, r.1, LineV::Decl(name, r.0)),
    }
}

/// A bare expression statement.
pub open spec fn sp_expr_stmt(toks: Seq<TokenV>, i: int) -> LineOut {
    match sp_expr_at(toks, i, 0) {
        None => LineOut::Reject,
        Some(r) => sp_semi(toks, r.1, LineV::Expr(r.0)),
    }
}

/// The statement that starts at position `i`: a declaration introduced by
/// `let` or written `name = expr`, a call of a recognised routine, or a bare
/// expression; each ends with a semicolon.
pub open spec fn sp_line_at(toks: Seq<TokenV>, i: int) -> LineOut {
    match tok_seq(toks, i) {
        TokenV::EOF => LineOut::AtEnd,
        TokenV::Ident(s) => if s == "let"@ {
            match tok_seq(toks, i + 1) {
                TokenV::Ident(name) => if tok_seq(toks, i + 2) is Eq {
                    sp_decl_tail(toks, i + 3, name)
                } else {
                    LineOut::Reject
                },
                _ => LineOut::Reject,
            }
        } else if is_func_spec(s) {
            match sp_expr_at(toks, i + 1, 0) {
                None => LineOut::Reject,
                Some(r) => sp_semi(toks, r.1, LineV::Call(s, r.0)),
            }
        } else if tok_seq(toks, i + 1) is Eq {
            sp_decl_tail(toks, i + 2, s)
        } else {
            sp_expr_stmt(toks, i)
        },
        _ => sp_expr_stmt(toks, i),
    }
}

/// A parsed statement ends strictly after its start and within the tokens.
pub proof fn lemma_line_progress(toks: Seq<TokenV>, i: int)
    requires
        0 <= i <= toks.len(),
    ensures
        match sp_line_at(toks, i) {
            LineOut::Parsed(l, j) => i < j <= toks.len(),
            _ => true,
        },
{
    let f = (toks.len() + 1) as nat;
    if i <= toks.len() {
        lemma_expr_props(toks, i, 0, f, f);
    }
    if i + 1 <= toks.len() {
        lemma_expr_props(toks, i + 1, 0, f, f);
    }
    if i + 2 <= toks.len() {
        lemma_expr_props(toks, i + 2, 0, f, f);
    }
    if i + 3 <= toks.len() {
        lemma_expr_props(toks, i + 3, 0, f, f);
    }
}

/// The program that starts at position `i`: statements up to the end of the
/// tokens, or `None` when one is malformed.
pub open spec fn sp_program_at(toks: Seq<TokenV>, i: int) -> Option<Seq<LineV>>
    decreases toks.len() - i when 0 <= i <= toks.len()
    via sp_program_decreases
{
    match sp_line_at(toks, i) {
        LineOut::AtEnd => Some(Seq::<LineV>::empty()),
        LineOut::Reject => None,
        LineOut::Parsed(l, j) => match sp_program_at(toks, j) {
            None => None,
            Some(rest) => Some(seq![l] + rest),
        },
    }
}

#[via_fn]
proof fn sp_program_decreases(toks: Seq<TokenV>, i: int) {
    lemma_line_progress(toks, i);
}

impl Line {
    /// Parses one statement, consuming its tokens and the closing
    /// semicolon. The result is exactly what the model `sp_line_at` gives at
    /// the cursor; at the end of the program the error is `Eof`.
    pub fn parse(stream: &mut TokenStream) -> (r: Result<Line, AstErr>)
        requires
            old(stream).cur() <= old(stream).toks().len(),
        ensures
            final(stream).toks() == old(stream).toks(),
            final(stream).cur() <= final(stream).toks().len(),
            match r {
                Ok(l) => sp_line_at(old(stream).toks(), old(stream).cur()) == LineOut::Parsed(
                    l@,
                    final(stream).cur(),
                ) && old(stream).cur() < final(stream).cur(),
                Err(e) => if e == AstErr::Eof {
                    sp_line_at(old(stream).toks(), old(stream).cur()) is AtEnd
                } else {
                    e == AstErr::BadToken && sp_line_at(old(stream).toks(), old(stream).cur())
                        is Reject
                },
            },
    {
        let t0 = stream.peek();
        let line: Line;
        match t0 {
            Token::EOF => {
                return Err(AstErr::Eof);
            },
            Token::Ident(name) => {
                if str_eq(name.as_str(), "let") {
                    stream.advance();
                    let t1 = stream.next();
                    let id = match t1 {
                        Token::Ident(id) => id,
                        _ => {
                            return Err(AstErr::BadToken);
                        },
                    };
                    let t2 = stream.next();
                    match t2 {
                        Token::Eq => {},
                        _ => {
                            return Err(AstErr::BadToken);
                        },
                    }
                    let e = match parse_expr(stream, 0) {
                        Ok(e) => e,
                        Err(err) => {
                            return Err(err);
                        },
                    };
                    line = Line::Decl(id, e);
                } else if is_func(name.as_str()) {
                    stream.advance();
                    let e = match parse_expr(stream, 0) {
                        Ok(e) => e,
                        Err(err) => {
                            return Err(err);
                        },
                    };
                    line = Line::Call(name, e);
                } else {
                    let t1 = stream.peekn(1);
                    let is_eq = match &t1 {
                        Token::Eq => true,
                        _ => false,
                    };
                    if is_eq {
                        stream.advance();
                        stream.advance();
                        let e = match parse_expr(stream, 0) {
                            Ok(e) => e,
                            Err(err) => {
                                return Err(err);
                            },
                        };
                        line = Line::Decl(name, e);
                    } else {
                        let e = match parse_expr(stream, 0) {
                            Ok(e) => e,
                            Err(err) => {
                                return Err(err);
                            },
                        };
                        line = Line::Expr(e);
                    }
                }
            },
            _ => {
                let e = match parse_expr(stream, 0) {
                    Ok(e) => e,
                    Err(err) => {
                        return Err(err);
                    },
                };
                line = Line::Expr(e);
            },
        }
        let ts = stream.next();
        match ts {
            Token::Semi => Ok(line),
            _ => Err(AstErr::BadToken),
        }
    }
}

impl Ast {
    /// Parses a whole program from the stream: statements until the end of
    /// the tokens. The result is exactly what the model `sp_program_at`
    /// gives at the cursor.
    #[verifier::loop_isolation(false)]
    pub fn from_stream(s: &mut TokenStream) -> (r: Result<Ast, AstErr>)
        requires
            old(s).cur() <= old(s).toks().len(),
        ensures
            final(s).toks() == old(s).toks(),
            match r {
                Ok(ast) => sp_program_at(old(s).toks(), old(s).cur()) == Some(ast@),
                Err(e) => sp_program_at(old(s).toks(), old(s).cur()) is None && e
                    == AstErr::BadToken,
            },
    {
        let ghost toks0 = old(s).toks();
        let ghost i0 = old(s).cur();
        let mut inner: Vec<Line> = Vec::new();
        loop
            invariant
                s.toks() == toks0,
                s.cur() <= toks0.len(),
                sp_program_at(toks0, i0) is Some <==> sp_program_at(toks0, s.cur()) is Some,
                sp_program_at(toks0, i0) is Some ==> sp_program_at(toks0, i0)->Some_0 =~= inner@.map(
                    |k: int, l: Line| l@,
                ) + sp_program_at(toks0, s.cur())->Some_0,
            decreases toks0.len() - s.cur(),
        {
            let ghost cur0 = s.cur();
            match Line::parse(s) {
                Ok(l) => {
                    proof {
                        assert(inner@.push(l).map(|k: int, l: Line| l@) =~= inner@.map(
                            |k: int, l: Line| l@,
                        ).push(l@));
                    }
                    inner.push(l);
                },
                Err(e) => {
                    let is_eof = match &e {
                        AstErr::Eof => true,
                        _ => false,
                    };
                    if is_eof {
                        let ast = Ast { inner };
                        proof {
                            assert(sp_program_at(toks0, cur0) == Some(Seq::<LineV>::empty()));
                            if sp_program_at(toks0, i0) is Some {
                                assert(sp_program_at(toks0, i0)->Some_0 =~= ast@);
                            }
                        }
                        return Ok(ast);
                    }
                    return Err(AstErr::BadToken);
                },
            }
        }
    }
}


/// The textual form of an operator.
pub open spec fn sp_op_text(op: Operation) -> Seq<char> {
    match op {
        Operation::Mul => "*"@,
        Operation::Sub => "-"@,
        Operation::Add => "+"@,
        Operation::Div => "/"@,
        Operation::Mod => "%"@,
    }
}

/// The textual form of a value: the variable's name, or the immediate in
/// decimal.
pub open spec fn sp_render_val(v: ValV) -> Seq<char> {
    match v {
        ValV::Var(s) => s,
        ValV::V(n) => int_digits(n),
    }
}

/// The textual form of an expression, fully parenthesized.
pub open spec fn sp_render_expr(e: ExprV) -> Seq<char>
    decreases e,
{
    match e {
        ExprV::Val(v) => sp_render_val(v),
        ExprV::Op(l, op, r) => "("@ + sp_render_expr(*l) + " "@ + sp_op_text(op) + " "@
            + sp_render_expr(*r) + ")"@,
    }
}

/// The textual form of a statement.
pub open spec fn sp_render_line(l: LineV) -> Seq<char> {
    match l {
        LineV::Expr(e) => sp_render_expr(e),
        LineV::Decl(n, e) => "declare "@ + n + " = "@ + sp_render_expr(e),
        LineV::Call(n, e) => "call "@ + n + " "@ + sp_render_expr(e),
    }
}

/// The textual form of a program: one statement per line, each ended by a
/// semicolon.
pub open spec fn sp_render_ast(ls: Seq<LineV>) -> Seq<char>
    decreases ls.len(),
{
    if ls.len() == 0 {
        Seq::empty()
    } else {
        sp_render_ast(ls.drop_last()) + sp_render_line(ls.last()) + ";\n"@
    }
}

impl Operation {
    /// The operator as text.
    pub fn render(&self) -> (r: &'static str)
        ensures
            r@ == sp_op_text(*self),
    {
        match self {
            Operation::Mul => "*",
            Operation::Sub => "-",
            Operation::Add => "+",
            Operation::Div => "/",
            Operation::Mod => "%",
        }
    }
}

impl Val {
    /// The value as text.
    pub fn render(&self) -> (r: String)
        ensures
            r@ == sp_render_val(self@),
    {
        match self {
            Val::Var(s) => s.clone(),
            Val::V(n) => i64_to_string(*n),
        }
    }
}

impl Expr {
    /// The expression as text, fully parenthesized.
    pub fn render(&self) -> (r: String)
        ensures
            r@ == sp_render_expr(self@),
        decreases self,
    {
        match self {
            Expr::Val(v) => v.render(),
            Expr::Op(l, op, rr) => {
                let mut s = String::from_str("(");
                s.append(l.render().as_str());
                s.append(" ");
                s.append(op.render());
                s.append(" ");
                s.append(rr.render().as_str());
                s.append(")");
                proof {
                    assert(s@ =~= sp_render_expr(self@));
                }
                s
            },
        }
    }
}

impl Line {
    /// The statement as text.
    pub fn render(&self) -> (r: String)
        ensures
            r@ == sp_render_line(self@),
    {
        match self {
            Line::Expr(e) => e.render(),
            Line::Decl(n, e) => {
                let mut s = String::from_str("declare ");
                s.append(n.as_str());
                s.append(" = ");
                s.append(e.render().as_str());
                proof {
                    assert(s@ =~= sp_render_line(self@));
                }
                s
            },
            Line::Call(n, e) => {
                let mut s = String::from_str("call ");
                s.append(n.as_str());
                s.append(" ");
                s.append(e.render().as_str());
                proof {
                    assert(s@ =~= sp_render_line(self@));
                }
                s
            },
        }
    }
}

impl Ast {
    /// The program as text: one statement per line.
    #[verifier::loop_isolation(false)]
    pub fn render(&self) -> (r: String)
        ensures
            r@ == sp_render_ast(self@),
    {
        let mut out = String::new();
        let n = self.inner.len();
        let mut i: usize = 0;
        while i < n
            invariant
                n == self.inner@.len(),
                i <= n,
                out@ == sp_render_ast(self@.take(i as int)),
            decreases n - i,
        {
            out.append(self.inner[i].render().as_str());
            out.append(";\n");
            proof {
                assert(self@.take(i + 1).drop_last() =~= self@.take(i as int));
                assert(self@.take(i + 1).last() == self@[i as int]);
                assert(out@ =~= sp_render_ast(self@.take(i + 1)));
            }
            i += 1;
        }
        proof {
            assert(self@.take(n as int) =~= self@);
        }
        out
    }
}

} // verus!
