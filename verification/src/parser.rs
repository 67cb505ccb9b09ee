//! The parser: consumes a lexer's token stream and produces a `Program`
//! plus a list of human-readable syntax errors. It never panics on
//! malformed input: unexpected tokens are recorded as errors and parsing
//! continues on a best-effort basis, skipping to the next statement
//! boundary.
//!
//! The mathematical model is the family of `spec_parse_*` functions, a
//! precedence-climbing parser over the token stream; each executable
//! parsing function is proved to return exactly what its model returns, to
//! leave the scan position exactly where the model says, and to append
//! exactly the modelled error messages.

use crate::ast::{stmts_model, ExprModel, Expression, Program, Statement, StmtModel};
use crate::lexer::{eof_token, is_digit_char, lemma_token_stream_shape, Lexer};
use crate::token::{Token, TokenModel, TokenType};
use vstd::prelude::*;
use vstd::string::StringExecFns;

verus! {

/// Binding strengths, lowest to highest. Any token that is not a
/// recognized infix operator binds at `LOWEST`, which stops the
/// precedence climb at statement terminators and unrecognized tokens.
pub const LOWEST: u8 = 0;

pub const EQUALS: u8 = 1;

pub const LESS_GREATER: u8 = 2;

pub const SUM: u8 = 3;

pub const PRODUCT: u8 = 4;

pub const PREFIX: u8 = 5;

pub const CALL: u8 = 6;

/// The binding strength of a token when it appears as an infix operator.
pub open spec fn spec_precedence_of(t: TokenType) -> u8 {
    match t {
        TokenType::Eq => EQUALS,
        TokenType::NotEq => EQUALS,
        TokenType::LT => LESS_GREATER,
        TokenType::GT => LESS_GREATER,
        TokenType::Plus => SUM,
        TokenType::Minus => SUM,
        TokenType::Slash => PRODUCT,
        TokenType::Asterisk => PRODUCT,
        _ => LOWEST,
    }
}

/// The binding strength of a token when it appears as an infix operator.
pub fn precedence_of_infix_operator(t: TokenType) -> (p: u8)
    ensures
        p == spec_precedence_of(t),
{
    match t {
        TokenType::Eq => EQUALS,
        TokenType::NotEq => EQUALS,
        TokenType::LT => LESS_GREATER,
        TokenType::GT => LESS_GREATER,
        TokenType::Plus => SUM,
        TokenType::Minus => SUM,
        TokenType::Slash => PRODUCT,
        TokenType::Asterisk => PRODUCT,
        _ => LOWEST,
    }
}

/// A token that can start an expression.
pub open spec fn is_nud_kind(t: TokenType) -> bool {
    t == TokenType::Bang || t == TokenType::Minus || t == TokenType::Ident || t == TokenType::Int
}

/// A token that can continue an expression as an infix operator.
pub open spec fn is_led_kind(t: TokenType) -> bool {
    t == TokenType::Plus || t == TokenType::Minus || t == TokenType::Slash || t
        == TokenType::Asterisk || t == TokenType::Eq || t == TokenType::NotEq || t == TokenType::LT
        || t == TokenType::GT
}

/// The display name of a token category, as it appears in error messages.
pub open spec fn token_type_name(t: TokenType) -> Seq<char> {
    match t {
        TokenType::Illegal => "Illegal"@,
        TokenType::EOF => "EOF"@,
        TokenType::Ident => "Ident"@,
        TokenType::Int => "Int"@,
        TokenType::Assign => "Assign"@,
        TokenType::Plus => "Plus"@,
        TokenType::Minus => "Minus"@,
        TokenType::Bang => "Bang"@,
        TokenType::Asterisk => "Asterisk"@,
        TokenType::Slash => "Slash"@,
        TokenType::LT => "LT"@,
        TokenType::GT => "GT"@,
        TokenType::Eq => "Eq"@,
        TokenType::NotEq => "NotEq"@,
        TokenType::Comma => "Comma"@,
        TokenType::Semicolon => "Semicolon"@,
        TokenType::LeftParen => "LeftParen"@,
        TokenType::RightParen => "RightParen"@,
        TokenType::LeftBrace => "LeftBrace"@,
        TokenType::RightBrace => "RightBrace"@,
        TokenType::Function => "Function"@,
        TokenType::Let => "Let"@,
        TokenType::True => "True"@,
        TokenType::False => "False"@,
        TokenType::If => "If"@,
        TokenType::Else => "Else"@,
        TokenType::Return => "Return"@,
    }
}

/// The message recorded when a grammar rule required one token category
/// and saw another.
pub open spec fn peek_error_message(expected: TokenType, got: TokenType) -> Seq<char> {
    "expected next Token to be "@ + token_type_name(expected) + ", got "@ + token_type_name(got)
        + " instead"@
}

/// The message recorded when an integer literal's text does not fit a
/// 32-bit signed integer.
pub open spec fn int_error_message(lit: Seq<char>) -> Seq<char> {
    "could not parse "@ + lit + " as integer"@
}

/// The message recorded when a token with no prefix rule appears where an
/// expression must start.
pub open spec fn no_prefix_error_message(t: TokenType) -> Seq<char> {
    "no prefix parse function for "@ + token_type_name(t) + " found"@
}

/// The numeric value of a run of decimal digits, most significant first.
pub open spec fn digits_value(lit: Seq<char>) -> int
    decreases lit.len(),
{
    if lit.len() == 0 {
        0
    } else {
        digits_value(lit.drop_last()) * 10 + (lit.last() as int - '0' as int)
    }
}

/// A non-empty run of decimal digits.
pub open spec fn is_digit_seq(lit: Seq<char>) -> bool {
    lit.len() > 0 && forall|k: int| 0 <= k < lit.len() ==> is_digit_char(#[trigger] lit[k])
}

/// The token at a position of the stream; past the end it is the
/// end-of-input token, which the lexer repeats forever.
pub open spec fn at(toks: Seq<TokenModel>, pos: int) -> TokenModel {
    if 0 <= pos < toks.len() {
        toks[pos]
    } else {
        eof_token()
    }
}

/// How many tokens remain at and after a position; the termination measure
/// of parsing.
pub open spec fn rem(toks: Seq<TokenModel>, pos: int) -> nat {
    if pos <= toks.len() {
        if 0 <= pos {
            (toks.len() - pos) as nat
        } else {
            toks.len() as nat
        }
    } else {
        0
    }
}

/// A well-formed token stream, as the lexer produces it: non-empty, ended
/// by the end-of-input token, with no other end-of-input token.
pub open spec fn wf_stream(toks: Seq<TokenModel>) -> bool {
    &&& toks.len() >= 1
    &&& toks.last() == eof_token()
    &&& forall|k: int| 0 <= k < toks.len() - 1 ==> #[trigger] toks[k].t != TokenType::EOF
}

/// The model of parsing one prefix ("nud") expression at `pos`: the node
/// produced (or nothing), the number of advance steps taken, and the error
/// messages recorded. Meaningful when `at(toks, pos)` can start an
/// expression.
pub open spec fn spec_parse_nud(toks: Seq<TokenModel>, pos: int) -> (Option<ExprModel>, nat, Seq<
    Seq<char>,
>)
    decreases rem(toks, pos), 0int,
{
    let tok = at(toks, pos);
    if tok.t == TokenType::Ident {
        (Some(ExprModel::Identifier { token: tok, value: tok.lit }), 0 as nat, Seq::empty())
    } else if tok.t == TokenType::Int {
        if is_digit_seq(tok.lit) && digits_value(tok.lit) <= i32::MAX {
            (
                Some(ExprModel::IntegerLiteral { token: tok, value: digits_value(tok.lit) as i32 }),
                0 as nat,
                Seq::empty(),
            )
        } else {
            (None, 0 as nat, seq![int_error_message(tok.lit)])
        }
    } else if tok.t == TokenType::Bang || tok.t == TokenType::Minus {
        let (right, c, errs) = spec_parse_expression(toks, pos + 1, PREFIX);
        match right {
            Some(r) => (
                Some(ExprModel::Prefix { token: tok, operator: tok.lit, right: Box::new(r) }),
                (1 + c) as nat,
                errs,
            ),
            None => (None, (1 + c) as nat, errs),
        }
    } else {
        (None, 0 as nat, Seq::empty())
    }
}

/// The model of the precedence climb: given the expression parsed so far
/// (`left`, whose last token stands at `pos`), repeatedly consume infix
/// operators whose binding strength exceeds `prec` and fold them into the
/// left operand.
pub open spec fn spec_parse_infix(
    toks: Seq<TokenModel>,
    pos: int,
    left: ExprModel,
    prec: u8,
) -> (Option<ExprModel>, nat, Seq<Seq<char>>)
    decreases rem(toks, pos), 1int,
{
    let peek = at(toks, pos + 1);
    if peek.t == TokenType::Semicolon || !(prec < spec_precedence_of(peek.t)) {
        (Some(left), 0 as nat, Seq::empty())
    } else if !is_led_kind(peek.t) {
        (Some(left), 0 as nat, Seq::empty())
    } else {
        let (right, cr, er) = spec_parse_expression(toks, pos + 2, spec_precedence_of(peek.t));
        match right {
            None => (None, (2 + cr) as nat, er),
            Some(r) => {
                let folded = ExprModel::Infix {
                    token: peek,
                    operator: peek.lit,
                    left: Box::new(left),
                    right: Box::new(r),
                };
                let (res, c3, e3) = spec_parse_infix(toks, pos + 2 + cr, folded, prec);
                (res, (2 + cr + c3) as nat, er + e3)
            },
        }
    }
}

/// The model of `parse_expression`: a prefix expression followed by the
/// precedence climb at `prec`.
pub open spec fn spec_parse_expression(toks: Seq<TokenModel>, pos: int, prec: u8) -> (
    Option<ExprModel>,
    nat,
    Seq<Seq<char>>,
)
    decreases rem(toks, pos), 2int,
{
    let tok = at(toks, pos);
    if !is_nud_kind(tok.t) {
        (None, 0 as nat, seq![no_prefix_error_message(tok.t)])
    } else {
        let (left, c1, e1) = spec_parse_nud(toks, pos);
        match left {
            None => (None, c1, e1),
            Some(l) => {
                let (res, c2, e2) = spec_parse_infix(toks, pos + c1, l, prec);
                (res, (c1 + c2) as nat, e1 + e2)
            },
        }
    }
}

/// The number of advance steps from `pos` to the next semicolon or to the
/// end of input, whichever comes first.
pub open spec fn skip_to_semicolon(toks: Seq<TokenModel>, pos: int) -> nat
    decreases rem(toks, pos),
{
    let tok = at(toks, pos);
    if tok.t == TokenType::Semicolon || tok.t == TokenType::EOF {
        0 as nat
    } else {
        (1 + skip_to_semicolon(toks, pos + 1)) as nat
    }
}

/// The model of a let statement: `let` IDENT `=` EXPR `;`. On a missing
/// identifier or `=` the statement is abandoned where it stands; after the
/// `=` is confirmed, tokens are consumed through the terminating `;`
/// whether or not the interior expression parsed, to keep the stream
/// synchronized for the next statement.
pub open spec fn spec_parse_let(toks: Seq<TokenModel>, pos: int) -> (Option<StmtModel>, nat, Seq<
    Seq<char>,
>) {
    let let_tok = at(toks, pos);
    let name = at(toks, pos + 1);
    if name.t != TokenType::Ident {
        (None, 0 as nat, seq![peek_error_message(TokenType::Ident, name.t)])
    } else {
        let assign = at(toks, pos + 2);
        if assign.t != TokenType::Assign {
            (None, 1 as nat, seq![peek_error_message(TokenType::Assign, assign.t)])
        } else {
            let (value, c, errs) = spec_parse_expression(toks, pos + 3, LOWEST);
            let skip = skip_to_semicolon(toks, pos + 3 + c);
            match value {
                Some(v) => (
                    Some(StmtModel::Let { token: let_tok, name, value: v }),
                    (3 + c + skip) as nat,
                    errs,
                ),
                None => (None, (3 + c + skip) as nat, errs),
            }
        }
    }
}

/// The model of a return statement: `return` EXPR `;`, with the same
/// terminator-skipping discipline as a let statement.
pub open spec fn spec_parse_return(toks: Seq<TokenModel>, pos: int) -> (Option<StmtModel>, nat, Seq<
    Seq<char>,
>) {
    let ret_tok = at(toks, pos);
    let (value, c, errs) = spec_parse_expression(toks, pos + 1, LOWEST);
    let skip = skip_to_semicolon(toks, pos + 1 + c);
    match value {
        Some(v) => (
            Some(StmtModel::Return { token: ret_tok, value: v }),
            (1 + c + skip) as nat,
            errs,
        ),
        None => (None, (1 + c + skip) as nat, errs),
    }
}

/// The model of an expression statement: a single expression followed by
/// an optional `;`.
pub open spec fn spec_parse_expression_statement(toks: Seq<TokenModel>, pos: int) -> (
    Option<StmtModel>,
    nat,
    Seq<Seq<char>>,
) {
    let tok = at(toks, pos);
    let (e, c, errs) = spec_parse_expression(toks, pos, LOWEST);
    match e {
        None => (None, c, errs),
        Some(expr) => {
            if at(toks, pos + c + 1).t == TokenType::Semicolon {
                (
                    Some(StmtModel::Expression { token: tok, expression: expr }),
                    (c + 1) as nat,
                    errs,
                )
            } else {
                (Some(StmtModel::Expression { token: tok, expression: expr }), c, errs)
            }
        },
    }
}

/// The model of the statement dispatch on the current token's category.
pub open spec fn spec_parse_statement(toks: Seq<TokenModel>, pos: int) -> (
    Option<StmtModel>,
    nat,
    Seq<Seq<char>>,
) {
    let tok = at(toks, pos);
    if tok.t == TokenType::Let {
        spec_parse_let(toks, pos)
    } else if tok.t == TokenType::Return {
        spec_parse_return(toks, pos)
    } else {
        spec_parse_expression_statement(toks, pos)
    }
}

/// The model of `parse_program` from a position: one statement at a time
/// until the current token is the end of input, advancing once after each
/// statement; a statement that fails to parse is omitted from the program.
pub open spec fn spec_parse_program(toks: Seq<TokenModel>, pos: int) -> (Seq<StmtModel>, Seq<
    Seq<char>,
>)
    decreases rem(toks, pos),
{
    if at(toks, pos).t == TokenType::EOF {
        (Seq::empty(), Seq::empty())
    } else {
        let (stmt, c, errs) = spec_parse_statement(toks, pos);
        let (rest_stmts, rest_errs) = spec_parse_program(toks, pos + c + 1);
        match stmt {
            Some(s) => (seq![s] + rest_stmts, errs + rest_errs),
            None => (rest_stmts, errs + rest_errs),
        }
    }
}

proof fn lemma_digits_value_nonneg(lit: Seq<char>)
    requires
        forall|k: int| 0 <= k < lit.len() ==> is_digit_char(#[trigger] lit[k]),
    ensures
        digits_value(lit) >= 0,
    decreases lit.len(),
{
    if lit.len() > 0 {
        lemma_digits_value_nonneg(lit.drop_last());
    }
}

/// The value of a digit run is at least the value of any of its prefixes.
proof fn lemma_digits_value_prefix_le(lit: Seq<char>, k: int)
    requires
        0 <= k <= lit.len(),
        forall|j: int| 0 <= j < lit.len() ==> is_digit_char(#[trigger] lit[j]),
    ensures
        digits_value(lit.take(k)) <= digits_value(lit),
    decreases lit.len() - k,
{
    if k < lit.len() {
        assert(lit.take(k + 1).drop_last() =~= lit.take(k));
        assert(lit.take(k + 1).last() == lit[k]);
        lemma_digits_value_nonneg(lit.take(k));
        lemma_digits_value_prefix_le(lit, k + 1);
    } else {
        assert(lit.take(k) =~= lit);
    }
}

/// Parses a run of decimal digits as a 32-bit signed integer; nothing on
/// any text that is not a digit run whose value fits.
fn parse_i32_digits(literal: &String) -> (r: Option<i32>)
    ensures
        match r {
            Some(v) => is_digit_seq(literal@) && digits_value(literal@) <= i32::MAX && v as int
                == digits_value(literal@),
            None => !(is_digit_seq(literal@) && digits_value(literal@) <= i32::MAX),
        },
{
    let s = literal.as_str();
    let n = s.unicode_len();
    if n == 0 {
        return None;
    }
    let mut acc: i32 = 0;
    let mut idx: usize = 0;
    while idx < n
        invariant
            0 <= idx <= n,
            n == literal@.len(),
            s@ == literal@,
            forall|k: int| 0 <= k < idx ==> is_digit_char(#[trigger] literal@[k]),
            acc >= 0,
            acc as int == digits_value(literal@.take(idx as int)),
        decreases n - idx,
    {
        let c = s.get_char(idx);
        if !('0' <= c && c <= '9') {
            return None;
        }
        let d: i32 = (c as u32 - '0' as u32) as i32;
        if acc > (i32::MAX - d) / 10 {
            proof {
                assert(literal@.take(idx as int + 1).drop_last() =~= literal@.take(idx as int));
                assert(literal@.take(idx as int + 1).last() == literal@[idx as int]);
                if is_digit_seq(literal@) {
                    lemma_digits_value_prefix_le(literal@, idx as int + 1);
                }
            }
            return None;
        }
        proof {
            assert(literal@.take(idx as int + 1).drop_last() =~= literal@.take(idx as int));
            assert(literal@.take(idx as int + 1).last() == literal@[idx as int]);
        }
        acc = acc * 10 + d;
        idx = idx + 1;
    }
    proof {
        assert(literal@.take(n as int) =~= literal@);
    }
    Some(acc)
}

/// A copy of a token, value for value.
fn clone_token(tok: &Token) -> (r: Token)
    ensures
        r@ == tok@,
{
    Token { t: tok.t, literal: tok.literal.clone() }
}

/// The display name of a token category.
fn token_type_name_string(t: TokenType) -> (r: String)
    ensures
        r@ == token_type_name(t),
{
    let s: &str = match t {
        TokenType::Illegal => "Illegal",
        TokenType::EOF => "EOF",
        TokenType::Ident => "Ident",
        TokenType::Int => "Int",
        TokenType::Assign => "Assign",
        TokenType::Plus => "Plus",
        TokenType::Minus => "Minus",
        TokenType::Bang => "Bang",
        TokenType::Asterisk => "Asterisk",
        TokenType::Slash => "Slash",
        TokenType::LT => "LT",
        TokenType::GT => "GT",
        TokenType::Eq => "Eq",
        TokenType::NotEq => "NotEq",
        TokenType::Comma => "Comma",
        TokenType::Semicolon => "Semicolon",
        TokenType::LeftParen => "LeftParen",
        TokenType::RightParen => "RightParen",
        TokenType::LeftBrace => "LeftBrace",
        TokenType::RightBrace => "RightBrace",
        TokenType::Function => "Function",
        TokenType::Let => "Let",
        TokenType::True => "True",
        TokenType::False => "False",
        TokenType::If => "If",
        TokenType::Else => "Else",
        TokenType::Return => "Return",
    };
    s.to_owned()
}

/// Builds the expected-token error message.
fn peek_error_string(expected: TokenType, got: TokenType) -> (r: String)
    ensures
        r@ == peek_error_message(expected, got),
{
    let mut out = String::from_str("expected next Token to be ");
    let e = token_type_name_string(expected);
    out.append(e.as_str());
    out.append(", got ");
    let g = token_type_name_string(got);
    out.append(g.as_str());
    out.append(" instead");
    proof {
        assert(out@ =~= peek_error_message(expected, got));
    }
    out
}

/// Builds the unparseable-integer error message.
fn int_error_string(literal: &String) -> (r: String)
    ensures
        r@ == int_error_message(literal@),
{
    let mut out = String::from_str("could not parse ");
    out.append(literal.as_str());
    out.append(" as integer");
    proof {
        assert(out@ =~= int_error_message(literal@));
    }
    out
}

/// Builds the no-prefix-rule error message.
fn no_prefix_error_string(t: TokenType) -> (r: String)
    ensures
        r@ == no_prefix_error_message(t),
{
    let mut out = String::from_str("no prefix parse function for ");
    let n = token_type_name_string(t);
    out.append(n.as_str());
    out.append(" found");
    proof {
        assert(out@ =~= no_prefix_error_message(t));
    }
    out
}

/// The parser: the token stream drawn from the lexer, the index of the
/// current token (the next one, the lookahead, stands right after it), and
/// the accumulated error messages.
pub struct Parser {
    tokens: Vec<Token>,
    position: usize,
    pub errors: Vec<String>,
}

impl Parser {
    /// The token stream being parsed.
    pub closed spec fn toks(&self) -> Seq<TokenModel> {
        self.tokens.deep_view()
    }

    /// The index of the current token.
    pub closed spec fn pos(&self) -> int {
        self.position as int
    }

    /// The error messages recorded so far.
    pub closed spec fn errs(&self) -> Seq<Seq<char>> {
        self.errors.deep_view()
    }

    /// The stream is well formed and the current index is inside it.
    pub open spec fn wf(&self) -> bool {
        wf_stream(self.toks()) && 0 <= self.pos() < self.toks().len()
    }

    /// The current token.
    pub open spec fn current(&self) -> TokenModel {
        at(self.toks(), self.pos())
    }

    /// The lookahead token.
    pub open spec fn peek(&self) -> TokenModel {
        at(self.toks(), self.pos() + 1)
    }

    /// A parser over the given lexer's tokens. Construction drains the
    /// lexer: tokens are drawn one at a time through its end-of-input
    /// token, which ends the stream.
    pub fn new(lexer: &mut Lexer) -> (p: Parser)
        requires
            old(lexer).wf(),
        ensures
            p.wf(),
            p.toks() == old(lexer)@,
            p.pos() == 0,
            p.errs() == Seq::<Seq<char>>::empty(),
            final(lexer).wf(),
    {
        let mut tokens: Vec<Token> = Vec::new();
        let mut done = false;
        while !done
            invariant
                lexer.wf(),
                !done ==> tokens.deep_view() + lexer@ == old(lexer)@,
                !done ==> forall|k: int|
                    0 <= k < tokens.deep_view().len() ==> #[trigger] tokens.deep_view()[k].t
                        != TokenType::EOF,
                done ==> tokens.deep_view() == old(lexer)@,
            decreases lexer@.len() + (if done {
                0int
            } else {
                1int
            }),
        {
            let ghost pre = tokens.deep_view();
            let ghost lexer_pre = lexer@;
            let tok = lexer.next_token();
            let is_eof = tok.t == TokenType::EOF;
            tokens.push(tok);
            done = is_eof;
            proof {
                assert(tokens.deep_view() =~= pre + seq![tok@]);
                if !is_eof {
                    assert(pre + seq![tok@] + lexer_pre.drop_first() =~= pre + lexer_pre);
                } else {
                    assert(pre + seq![tok@] =~= pre + lexer_pre);
                }
            }
        }
        proof {
            lemma_token_stream_shape(old(lexer).src(), old(lexer).pos());
            assert(tokens.deep_view().len() >= 1);
        }
        let p = Parser { tokens, position: 0, errors: Vec::new() };
        proof {
            assert(p.errs() =~= Seq::<Seq<char>>::empty());
        }
        p
    }

    /// Shifts to the next token; at the end of the stream the current
    /// token stays the end-of-input token.
    fn next_token(&mut self)
        requires
            old(self).wf(),
        ensures
            final(self).wf(),
            final(self).toks() == old(self).toks(),
            final(self).errs() == old(self).errs(),
            final(self).pos() == if old(self).pos() + 1 < old(self).toks().len() {
                old(self).pos() + 1
            } else {
                old(self).pos()
            },
            old(self).current().t != TokenType::EOF ==> final(self).pos() == old(self).pos() + 1,
    {
        let n = self.tokens.len();
        if self.position < n - 1 {
            self.position = self.position + 1;
        }
    }

    /// Whether the current token has the given category.
    fn current_token_is(&self, t: TokenType) -> (r: bool)
        requires
            self.wf(),
        ensures
            r == (self.current().t == t),
    {
        self.tokens[self.position].t == t
    }

    /// Whether the lookahead token has the given category.
    fn peek_token_is(&self, t: TokenType) -> (r: bool)
        requires
            self.wf(),
        ensures
            r == (self.peek().t == t),
    {
        let n = self.tokens.len();
        if self.position < n - 1 {
            self.tokens[self.position + 1].t == t
        } else {
            t == TokenType::EOF
        }
    }

    /// The category of the lookahead token.
    fn peek_kind(&self) -> (t: TokenType)
        requires
            self.wf(),
        ensures
            t == self.peek().t,
    {
        let n = self.tokens.len();
        if self.position < n - 1 {
            self.tokens[self.position + 1].t
        } else {
            TokenType::EOF
        }
    }

    /// Records an expected-token error against the lookahead token.
    fn peek_error(&mut self, t: TokenType)
        requires
            old(self).wf(),
        ensures
            final(self).wf(),
            final(self).toks() == old(self).toks(),
            final(self).pos() == old(self).pos(),
            final(self).errs() == old(self).errs() + seq![
                peek_error_message(t, old(self).peek().t),
            ],
    {
        let ghost pre = self.errors.deep_view();
        let got = self.peek_kind();
        let msg = peek_error_string(t, got);
        self.errors.push(msg);
        proof {
            assert(self.errors.deep_view() =~= pre + seq![
                peek_error_message(t, old(self).peek().t),
            ]);
        }
    }

    /// If the lookahead token has the given category, steps onto it and
    /// reports success; otherwise records an expected-token error and does
    /// not move.
    fn expect_peek(&mut self, t: TokenType) -> (r: bool)
        requires
            old(self).wf(),
            t != TokenType::EOF,
        ensures
            final(self).wf(),
            final(self).toks() == old(self).toks(),
            r == (old(self).peek().t == t),
            r ==> final(self).pos() == old(self).pos() + 1 && final(self).errs() == old(
                self,
            ).errs(),
            !r ==> final(self).pos() == old(self).pos() && final(self).errs() == old(self).errs()
                + seq![peek_error_message(t, old(self).peek().t)],
    {
        if self.peek_token_is(t) {
            proof {
                assert(at(self.toks(), self.pos() + 1).t == t);
                assert(self.pos() + 1 < self.toks().len());
            }
            self.next_token();
            true
        } else {
            self.peek_error(t);
            false
        }
    }

    /// The binding strength of the lookahead token.
    fn peek_precedence(&self) -> (p: u8)
        requires
            self.wf(),
        ensures
            p == spec_precedence_of(self.peek().t),
    {
        precedence_of_infix_operator(self.peek_kind())
    }

    /// The binding strength of the current token.
    fn current_precedence(&self) -> (p: u8)
        requires
            self.wf(),
        ensures
            p == spec_precedence_of(self.current().t),
    {
        precedence_of_infix_operator(self.tokens[self.position].t)
    }

    /// Whether a token category can start an expression.
    fn is_nud(t: TokenType) -> (r: bool)
        ensures
            r == is_nud_kind(t),
    {
        match t {
            TokenType::Bang | TokenType::Minus | TokenType::Ident | TokenType::Int => true,
            _ => false,
        }
    }

    /// Whether a token category can continue an expression as an infix
    /// operator.
    fn is_led(t: TokenType) -> (r: bool)
        ensures
            r == is_led_kind(t),
    {
        match t {
            TokenType::Plus
            | TokenType::Minus
            | TokenType::Slash
            | TokenType::Asterisk
            | TokenType::Eq
            | TokenType::NotEq
            | TokenType::LT
            | TokenType::GT => true,
            _ => false,
        }
    }

    /// The current identifier token as an `Identifier` node.
    fn parse_identifier(&mut self) -> (r: Option<Expression>)
        requires
            old(self).wf(),
            old(self).current().t == TokenType::Ident,
        ensures
            *final(self) == *old(self),
            opt_expr_model(r) == spec_parse_nud(old(self).toks(), old(self).pos()).0,
    {
        let token = clone_token(&self.tokens[self.position]);
        let value = token.literal.clone();
        Some(Expression::Identifier { token, value })
    }

    /// The current integer token as an `IntegerLiteral` node; if its text
    /// does not fit a 32-bit signed integer, records an error and yields
    /// nothing.
    fn parse_integer_literal(&mut self) -> (r: Option<Expression>)
        requires
            old(self).wf(),
            old(self).current().t == TokenType::Int,
        ensures
            final(self).wf(),
            final(self).toks() == old(self).toks(),
            final(self).pos() == old(self).pos(),
            opt_expr_model(r) == spec_parse_nud(old(self).toks(), old(self).pos()).0,
            final(self).errs() == old(self).errs() + spec_parse_nud(
                old(self).toks(),
                old(self).pos(),
            ).2,
    {
        let ghost pre = self.errors.deep_view();
        let parsed = parse_i32_digits(&self.tokens[self.position].literal);
        match parsed {
            Some(value) => {
                let token = clone_token(&self.tokens[self.position]);
                proof {
                    assert(self.errs() =~= old(self).errs() + Seq::<Seq<char>>::empty());
                }
                Some(Expression::IntegerLiteral { token, value })
            },
            None => {
                let msg = int_error_string(&self.tokens[self.position].literal);
                self.errors.push(msg);
                proof {
                    assert(self.errs() =~= pre + seq![
                        int_error_message(old(self).current().lit),
                    ]);
                }
                None
            },
        }
    }

    /// Parses one prefix ("nud") expression starting at the current
    /// token: an identifier, an integer literal, or `!`/`-` applied to an
    /// operand parsed at `PREFIX` strength.
    fn parse_nud(&mut self) -> (r: Option<Expression>)
        requires
            old(self).wf(),
            is_nud_kind(old(self).current().t),
        ensures
            final(self).wf(),
            final(self).toks() == old(self).toks(),
            ({
                let (res, c, errs) = spec_parse_nud(old(self).toks(), old(self).pos());
                &&& opt_expr_model(r) == res
                &&& final(self).pos() == old(self).pos() + c
                &&& final(self).errs() == old(self).errs() + errs
            }),
        decreases rem(self.toks(), self.pos()), 0int,
    {
        let current_token = clone_token(&self.tokens[self.position]);
        match current_token.t {
            TokenType::Ident => {
                let r = self.parse_identifier();
                proof {
                    assert(self.errs() =~= old(self).errs() + Seq::<Seq<char>>::empty());
                }
                r
            },
            TokenType::Int => self.parse_integer_literal(),
            TokenType::Bang | TokenType::Minus => {
                let operator = current_token.literal.clone();
                self.next_token();
                let right = self.parse_expression(PREFIX);
                match right {
                    Some(right_expr) => Some(
                        Expression::Prefix {
                            token: current_token,
                            operator,
                            right: Box::new(right_expr),
                        },
                    ),
                    None => None,
                }
            },
            _ => {
                proof {
                    assert(false);
                }
                None
            },
        }
    }

    /// Parses the right operand of the infix operator standing at the
    /// current token, at that operator's strength, and folds it with the
    /// given left operand into an `Infix` node.
    fn parse_led(&mut self, left: Expression) -> (r: Option<Expression>)
        requires
            old(self).wf(),
            is_led_kind(old(self).current().t),
        ensures
            final(self).wf(),
            final(self).toks() == old(self).toks(),
            ({
                let op = old(self).current();
                let (right, cr, er) = spec_parse_expression(
                    old(self).toks(),
                    old(self).pos() + 1,
                    spec_precedence_of(op.t),
                );
                &&& final(self).pos() == old(self).pos() + 1 + cr
                &&& final(self).errs() == old(self).errs() + er
                &&& opt_expr_model(r) == (match right {
                    Some(rr) => Some(
                        ExprModel::Infix {
                            token: op,
                            operator: op.lit,
                            left: Box::new(left.model()),
                            right: Box::new(rr),
                        },
                    ),
                    None => None,
                })
            }),
        decreases rem(self.toks(), self.pos()), 0int,
    {
        let token = clone_token(&self.tokens[self.position]);
        let operator = token.literal.clone();
        let precedence = self.current_precedence();
        self.next_token();
        let right = self.parse_expression(precedence);
        match right {
            Some(right_expr) => Some(
                Expression::Infix {
                    token,
                    operator,
                    left: Box::new(left),
                    right: Box::new(right_expr),
                },
            ),
            None => None,
        }
    }

    /// The precedence climb: while the lookahead token is a recognized
    /// infix operator that binds more tightly than `precedence` and is not
    /// a semicolon, folds it and its right operand into the left operand.
    fn parse_infix(&mut self, left: Expression, precedence: u8) -> (r: Option<Expression>)
        requires
            old(self).wf(),
        ensures
            final(self).wf(),
            final(self).toks() == old(self).toks(),
            ({
                let (res, c, errs) = spec_parse_infix(
                    old(self).toks(),
                    old(self).pos(),
                    left.model(),
                    precedence,
                );
                &&& opt_expr_model(r) == res
                &&& final(self).pos() == old(self).pos() + c
                &&& final(self).errs() == old(self).errs() + errs
            }),
        decreases rem(self.toks(), self.pos()), 1int,
    {
        if self.peek_token_is(TokenType::Semicolon) {
            proof {
                assert(self.errs() =~= old(self).errs() + Seq::<Seq<char>>::empty());
            }
            return Some(left);
        }
        let peek_prec = self.peek_precedence();
        if !(precedence < peek_prec) {
            proof {
                assert(self.errs() =~= old(self).errs() + Seq::<Seq<char>>::empty());
            }
            return Some(left);
        }
        if !Self::is_led(self.peek_kind()) {
            proof {
                assert(self.errs() =~= old(self).errs() + Seq::<Seq<char>>::empty());
            }
            return Some(left);
        }
        let ghost left_model = left.model();
        self.next_token();
        let folded = self.parse_led(left);
        match folded {
            None => {
                proof {
                    let (res, c, errs) = spec_parse_infix(
                        old(self).toks(),
                        old(self).pos(),
                        left_model,
                        precedence,
                    );
                    assert(self.errs() =~= old(self).errs() + errs);
                }
                None
            },
            Some(folded_expr) => {
                let r = self.parse_infix(folded_expr, precedence);
                proof {
                    let (res, c, errs) = spec_parse_infix(
                        old(self).toks(),
                        old(self).pos(),
                        left_model,
                        precedence,
                    );
                    assert(self.errs() =~= old(self).errs() + errs);
                }
                r
            },
        }
    }

    /// Parses one expression starting at the current token, at the given
    /// binding strength: a prefix expression, then the precedence climb.
    /// A token with no prefix rule yields nothing and records an error
    /// naming it.
    fn parse_expression(&mut self, precedence: u8) -> (r: Option<Expression>)
        requires
            old(self).wf(),
        ensures
            final(self).wf(),
            final(self).toks() == old(self).toks(),
            ({
                let (res, c, errs) = spec_parse_expression(
                    old(self).toks(),
                    old(self).pos(),
                    precedence,
                );
                &&& opt_expr_model(r) == res
                &&& final(self).pos() == old(self).pos() + c
                &&& final(self).errs() == old(self).errs() + errs
            }),
        decreases rem(self.toks(), self.pos()), 2int,
    {
        let ghost pre = self.errors.deep_view();
        if !Self::is_nud(self.tokens[self.position].t) {
            let msg = no_prefix_error_string(self.tokens[self.position].t);
            self.errors.push(msg);
            proof {
                assert(self.errs() =~= pre + seq![
                    no_prefix_error_message(old(self).current().t),
                ]);
            }
            return None;
        }
        let left = self.parse_nud();
        match left {
            None => None,
            Some(left_expr) => {
                let r = self.parse_infix(left_expr, precedence);
                proof {
                    let (res, c, errs) = spec_parse_expression(
                        old(self).toks(),
                        old(self).pos(),
                        precedence,
                    );
                    assert(self.errs() =~= old(self).errs() + errs);
                }
                r
            },
        }
    }
}

impl Parser {
    /// Advances until the current token is a semicolon, or the end of
    /// input if no semicolon follows; this keeps the token stream
    /// synchronized at a statement boundary.
    fn skip_to_terminator(&mut self)
        requires
            old(self).wf(),
        ensures
            final(self).wf(),
            final(self).toks() == old(self).toks(),
            final(self).errs() == old(self).errs(),
            final(self).pos() == old(self).pos() + skip_to_semicolon(
                old(self).toks(),
                old(self).pos(),
            ),
    {
        while !(self.current_token_is(TokenType::Semicolon) || self.current_token_is(
            TokenType::EOF,
        ))
            invariant
                self.wf(),
                self.toks() == old(self).toks(),
                self.errs() == old(self).errs(),
                old(self).pos() + skip_to_semicolon(old(self).toks(), old(self).pos())
                    == self.pos() + skip_to_semicolon(self.toks(), self.pos()),
            decreases rem(self.toks(), self.pos()),
        {
            self.next_token();
        }
    }

    /// A let statement: `let` IDENT `=` EXPR `;`. The bound value is
    /// parsed and attached to the node; tokens are consumed through the
    /// terminating `;` whether or not the value parsed, and on a missing
    /// identifier or `=` the statement is abandoned where it stands.
    fn parse_let_statement(&mut self) -> (r: Option<Statement>)
        requires
            old(self).wf(),
            old(self).current().t == TokenType::Let,
        ensures
            final(self).wf(),
            final(self).toks() == old(self).toks(),
            ({
                let (res, c, errs) = spec_parse_let(old(self).toks(), old(self).pos());
                &&& opt_stmt_model(r) == res
                &&& final(self).pos() == old(self).pos() + c
                &&& final(self).errs() == old(self).errs() + errs
            }),
    {
        let let_token = clone_token(&self.tokens[self.position]);
        if !self.expect_peek(TokenType::Ident) {
            return None;
        }
        let name_token = clone_token(&self.tokens[self.position]);
        if !self.expect_peek(TokenType::Assign) {
            return None;
        }
        self.next_token();
        let value = self.parse_expression(LOWEST);
        self.skip_to_terminator();
        proof {
            let (res, c, errs) = spec_parse_let(old(self).toks(), old(self).pos());
            assert(self.errs() =~= old(self).errs() + errs);
        }
        match value {
            Some(v) => Some(Statement::Let { token: let_token, name: name_token, value: v }),
            None => None,
        }
    }

    /// A return statement: `return` EXPR `;`, with the same
    /// terminator-skipping discipline as a let statement.
    fn parse_return_statement(&mut self) -> (r: Option<Statement>)
        requires
            old(self).wf(),
            old(self).current().t == TokenType::Return,
        ensures
            final(self).wf(),
            final(self).toks() == old(self).toks(),
            ({
                let (res, c, errs) = spec_parse_return(old(self).toks(), old(self).pos());
                &&& opt_stmt_model(r) == res
                &&& final(self).pos() == old(self).pos() + c
                &&& final(self).errs() == old(self).errs() + errs
            }),
    {
        let return_token = clone_token(&self.tokens[self.position]);
        self.next_token();
        let value = self.parse_expression(LOWEST);
        self.skip_to_terminator();
        match value {
            Some(v) => Some(Statement::Return { token: return_token, value: v }),
            None => None,
        }
    }

    /// An expression statement: a single expression followed by an
    /// optional `;`, so expressions at top level need no termination.
    fn parse_expression_statement(&mut self) -> (r: Option<Statement>)
        requires
            old(self).wf(),
        ensures
            final(self).wf(),
            final(self).toks() == old(self).toks(),
            ({
                let (res, c, errs) = spec_parse_expression_statement(
                    old(self).toks(),
                    old(self).pos(),
                );
                &&& opt_stmt_model(r) == res
                &&& final(self).pos() == old(self).pos() + c
                &&& final(self).errs() == old(self).errs() + errs
            }),
    {
        let token = clone_token(&self.tokens[self.position]);
        let expression = self.parse_expression(LOWEST);
        match expression {
            None => None,
            Some(e) => {
                if self.peek_token_is(TokenType::Semicolon) {
                    self.next_token();
                }
                Some(Statement::Expression { token, expression: e })
            },
        }
    }

    /// Dispatches on the current token's category: `let`, `return`, or an
    /// expression statement.
    fn parse_statement(&mut self) -> (r: Option<Statement>)
        requires
            old(self).wf(),
        ensures
            final(self).wf(),
            final(self).toks() == old(self).toks(),
            ({
                let (res, c, errs) = spec_parse_statement(old(self).toks(), old(self).pos());
                &&& opt_stmt_model(r) == res
                &&& final(self).pos() == old(self).pos() + c
                &&& final(self).errs() == old(self).errs() + errs
            }),
    {
        if self.current_token_is(TokenType::Let) {
            self.parse_let_statement()
        } else if self.current_token_is(TokenType::Return) {
            self.parse_return_statement()
        } else {
            self.parse_expression_statement()
        }
    }

    /// Parses one top-level statement at a time, advancing after each,
    /// until the current token is the end of input. A statement that
    /// fails to parse is omitted; its errors stay in the error list, and
    /// parsing continues with the next statement.
    pub fn parse_program(&mut self) -> (r: Option<Program>)
        requires
            old(self).wf(),
        ensures
            final(self).wf(),
            final(self).toks() == old(self).toks(),
            final(self).current().t == TokenType::EOF,
            r matches Some(prog) && stmts_model(prog.statements@) == spec_parse_program(
                old(self).toks(),
                old(self).pos(),
            ).0,
            final(self).errs() == old(self).errs() + spec_parse_program(
                old(self).toks(),
                old(self).pos(),
            ).1,
    {
        let mut program = Program { statements: Vec::new() };
        proof {
            assert(stmts_model(program.statements@) =~= Seq::<StmtModel>::empty());
            assert(stmts_model(program.statements@) + spec_parse_program(
                self.toks(),
                self.pos(),
            ).0 =~= spec_parse_program(old(self).toks(), old(self).pos()).0);
            assert(self.errs() + spec_parse_program(self.toks(), self.pos()).1 =~= old(
                self,
            ).errs() + spec_parse_program(old(self).toks(), old(self).pos()).1);
        }
        while !self.current_token_is(TokenType::EOF)
            invariant
                self.wf(),
                self.toks() == old(self).toks(),
                stmts_model(program.statements@) + spec_parse_program(self.toks(), self.pos()).0
                    == spec_parse_program(old(self).toks(), old(self).pos()).0,
                self.errs() + spec_parse_program(self.toks(), self.pos()).1 == old(self).errs()
                    + spec_parse_program(old(self).toks(), old(self).pos()).1,
            decreases rem(self.toks(), self.pos()),
        {
            let ghost pos_before = self.pos();
            let ghost stmts_before = program.statements@;
            let statement = self.parse_statement();
            let ghost c = spec_parse_statement(self.toks(), pos_before).1;
            if let Some(statement) = statement {
                program.statements.push(statement);
            }
            self.next_token();
            proof {
                let toks = self.toks();
                let (stmt, c2, errs) = spec_parse_statement(toks, pos_before);
                assert(c2 == c);
                if at(toks, pos_before + c).t == TokenType::EOF {
                    assert(spec_parse_program(toks, pos_before + c).0 =~= spec_parse_program(
                        toks,
                        pos_before + c + 1,
                    ).0);
                    assert(spec_parse_program(toks, pos_before + c).1 =~= spec_parse_program(
                        toks,
                        pos_before + c + 1,
                    ).1);
                }
                match stmt {
                    Some(s) => {
                        assert(stmts_model(program.statements@) =~= stmts_model(stmts_before)
                            + seq![s]);
                        assert(stmts_model(stmts_before) + (seq![s] + spec_parse_program(
                            toks,
                            pos_before + c + 1,
                        ).0) =~= (stmts_model(stmts_before) + seq![s]) + spec_parse_program(
                            toks,
                            pos_before + c + 1,
                        ).0);
                    },
                    None => {},
                }
                assert(self.errs() + spec_parse_program(toks, self.pos()).1 =~= old(self).errs()
                    + spec_parse_program(old(self).toks(), old(self).pos()).1);
            }
        }
        proof {
            assert(spec_parse_program(self.toks(), self.pos()).0 =~= Seq::<StmtModel>::empty());
            assert(stmts_model(program.statements@) + Seq::<StmtModel>::empty() =~= stmts_model(
                program.statements@,
            ));
            assert(self.errs() + Seq::<Seq<char>>::empty() =~= self.errs());
        }
        Some(program)
    }
}

/// The mathematical value of an optional expression node.
pub open spec fn opt_expr_model(r: Option<Expression>) -> Option<ExprModel> {
    match r {
        Some(e) => Some(e.model()),
        None => None,
    }
}

/// The mathematical value of an optional statement node.
pub open spec fn opt_stmt_model(r: Option<Statement>) -> Option<StmtModel> {
    match r {
        Some(s) => Some(s.model()),
        None => None,
    }
}

} // verus!
