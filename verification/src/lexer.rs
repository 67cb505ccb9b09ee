//! The lexer: deterministic, single-pass tokenization of a complete input
//! string, with no backtracking beyond a single character of lookahead.
//!
//! The mathematical model is `spec_tokens_from`, which maps the input text
//! and a scan position to the sequence of tokens that repeated calls of
//! `next_token` will produce, ending in a single end-of-input token. The
//! lexer's view is exactly that sequence.

use crate::token::{keyword_kind, lookup_ident, Token, TokenModel, TokenType};
use vstd::prelude::*;
use vstd::string::StrSliceExecFns;
use vstd::string::StringExecFns;

verus! {

/// The whitespace characters that separate tokens and carry no token.
pub open spec fn is_whitespace_char(c: char) -> bool {
    c == ' ' || c == '\t' || c == '\n' || c == '\r'
}

/// A decimal digit.
pub open spec fn is_digit_char(c: char) -> bool {
    '0' <= c && c <= '9'
}

/// Whether a character has the Unicode `Alphabetic` property. The property
/// is decided by `char::is_alphabetic`; to this library it is an opaque
/// predicate on the character alone.
pub uninterp spec fn alphabetic(c: char) -> bool;

/// Relies on `char::is_alphabetic`: whether the character has the Unicode
/// `Alphabetic` property, a function of the character alone.
#[verifier::external_body]
fn char_is_alphabetic(c: char) -> (r: bool)
    ensures
        r == alphabetic(c),
{
    c.is_alphabetic()
}

/// A character that may stand in an identifier: a letter or an underscore.
/// `alphabetic` is opaque, so its disjointness from the whitespace set is
/// made explicit here; the partition law below depends on it, and no
/// character is both alphabetic and whitespace.
pub open spec fn is_letter_char(c: char) -> bool {
    (alphabetic(c) && !is_whitespace_char(c)) || c == '_'
}

/// An identifier character, decided executably.
fn is_identifier(c: char) -> (r: bool)
    ensures
        r == is_letter_char(c),
{
    (char_is_alphabetic(c) && !(c == ' ' || c == '\t' || c == '\n' || c == '\r')) || c == '_'
}

/// A decimal digit, decided executably.
fn is_digit(c: char) -> (r: bool)
    ensures
        r == is_digit_char(c),
{
    '0' <= c && c <= '9'
}

/// A whitespace character, decided executably.
fn is_whitespace(c: char) -> (r: bool)
    ensures
        r == is_whitespace_char(c),
{
    c == ' ' || c == '\t' || c == '\n' || c == '\r'
}

/// The first position at or after `i` that does not hold whitespace, or the
/// end of the input.
pub open spec fn skip_ws_end(s: Seq<char>, i: int) -> int
    decreases s.len() - i,
    when 0 <= i <= s.len()
{
    if i < s.len() && is_whitespace_char(s[i]) {
        skip_ws_end(s, i + 1)
    } else {
        i
    }
}

/// The end of the maximal run of identifier characters starting at `i`.
pub open spec fn letter_run_end(s: Seq<char>, i: int) -> int
    decreases s.len() - i,
    when 0 <= i <= s.len()
{
    if i < s.len() && is_letter_char(s[i]) {
        letter_run_end(s, i + 1)
    } else {
        i
    }
}

/// The end of the maximal run of decimal digits starting at `i`.
pub open spec fn digit_run_end(s: Seq<char>, i: int) -> int
    decreases s.len() - i,
    when 0 <= i <= s.len()
{
    if i < s.len() && is_digit_char(s[i]) {
        digit_run_end(s, i + 1)
    } else {
        i
    }
}

pub proof fn lemma_skip_ws_end(s: Seq<char>, i: int)
    requires
        0 <= i <= s.len(),
    ensures
        i <= skip_ws_end(s, i) <= s.len(),
        forall|k: int| i <= k < skip_ws_end(s, i) ==> is_whitespace_char(s[k]),
        skip_ws_end(s, i) < s.len() ==> !is_whitespace_char(s[skip_ws_end(s, i)]),
    decreases s.len() - i,
{
    if i < s.len() && is_whitespace_char(s[i]) {
        lemma_skip_ws_end(s, i + 1);
    }
}

pub proof fn lemma_letter_run_end(s: Seq<char>, i: int)
    requires
        0 <= i <= s.len(),
    ensures
        i <= letter_run_end(s, i) <= s.len(),
        forall|k: int| i <= k < letter_run_end(s, i) ==> is_letter_char(s[k]),
        letter_run_end(s, i) < s.len() ==> !is_letter_char(s[letter_run_end(s, i)]),
        i < s.len() && is_letter_char(s[i]) ==> letter_run_end(s, i) > i,
    decreases s.len() - i,
{
    if i < s.len() && is_letter_char(s[i]) {
        lemma_letter_run_end(s, i + 1);
    }
}

pub proof fn lemma_digit_run_end(s: Seq<char>, i: int)
    requires
        0 <= i <= s.len(),
    ensures
        i <= digit_run_end(s, i) <= s.len(),
        forall|k: int| i <= k < digit_run_end(s, i) ==> is_digit_char(s[k]),
        digit_run_end(s, i) < s.len() ==> !is_digit_char(s[digit_run_end(s, i)]),
        i < s.len() && is_digit_char(s[i]) ==> digit_run_end(s, i) > i,
    decreases s.len() - i,
{
    if i < s.len() && is_digit_char(s[i]) {
        lemma_digit_run_end(s, i + 1);
    }
}

/// A single-character operator or punctuation character.
pub open spec fn is_single_op_char(c: char) -> bool {
    c == '+' || c == '-' || c == '/' || c == '*' || c == '<' || c == '>' || c == ';' || c == '('
        || c == ')' || c == ',' || c == '{' || c == '}'
}

/// The position one past the token that starts at `i`. Meaningful when `i`
/// is in range and does not hold whitespace; the character classes are
/// tried in the same order as in `next_token`.
pub open spec fn token_end(s: Seq<char>, i: int) -> int {
    let c = s[i];
    if c == '=' || c == '!' {
        if i + 1 < s.len() && s[i + 1] == '=' {
            i + 2
        } else {
            i + 1
        }
    } else if is_single_op_char(c) {
        i + 1
    } else if is_letter_char(c) {
        letter_run_end(s, i)
    } else if is_digit_char(c) {
        digit_run_end(s, i)
    } else {
        i + 1
    }
}

/// The category of the token that starts at `i`.
pub open spec fn token_kind(s: Seq<char>, i: int) -> TokenType {
    let c = s[i];
    if c == '=' {
        if i + 1 < s.len() && s[i + 1] == '=' {
            TokenType::Eq
        } else {
            TokenType::Assign
        }
    } else if c == '!' {
        if i + 1 < s.len() && s[i + 1] == '=' {
            TokenType::NotEq
        } else {
            TokenType::Bang
        }
    } else if c == '+' {
        TokenType::Plus
    } else if c == '-' {
        TokenType::Minus
    } else if c == '/' {
        TokenType::Slash
    } else if c == '*' {
        TokenType::Asterisk
    } else if c == '<' {
        TokenType::LT
    } else if c == '>' {
        TokenType::GT
    } else if c == ';' {
        TokenType::Semicolon
    } else if c == '(' {
        TokenType::LeftParen
    } else if c == ')' {
        TokenType::RightParen
    } else if c == ',' {
        TokenType::Comma
    } else if c == '{' {
        TokenType::LeftBrace
    } else if c == '}' {
        TokenType::RightBrace
    } else if is_letter_char(c) {
        keyword_kind(s.subrange(i, letter_run_end(s, i)))
    } else if is_digit_char(c) {
        TokenType::Int
    } else {
        TokenType::Illegal
    }
}

/// The literal text of the token that starts at `i`.
pub open spec fn token_literal(s: Seq<char>, i: int) -> Seq<char> {
    s.subrange(i, token_end(s, i))
}

/// The end-of-input token: empty literal.
pub open spec fn eof_token() -> TokenModel {
    TokenModel { t: TokenType::EOF, lit: Seq::empty() }
}

pub proof fn lemma_token_end_bounds(s: Seq<char>, i: int)
    requires
        0 <= i < s.len(),
    ensures
        i < token_end(s, i) <= s.len(),
{
    lemma_letter_run_end(s, i);
    lemma_digit_run_end(s, i);
}

/// The sequence of tokens that scanning from position `i` produces: the
/// tokens in source order, ended by a single end-of-input token.
pub open spec fn spec_tokens_from(s: Seq<char>, i: int) -> Seq<TokenModel>
    decreases s.len() - i,
    when 0 <= i <= s.len()
    via spec_tokens_from_decreases
{
    let j = skip_ws_end(s, i);
    if j >= s.len() {
        seq![eof_token()]
    } else {
        seq![TokenModel { t: token_kind(s, j), lit: token_literal(s, j) }] + spec_tokens_from(
            s,
            token_end(s, j),
        )
    }
}

#[via_fn]
proof fn spec_tokens_from_decreases(s: Seq<char>, i: int) {
    lemma_skip_ws_end(s, i);
    let j = skip_ws_end(s, i);
    if j < s.len() {
        lemma_token_end_bounds(s, j);
    }
}

/// The token stream of any input is non-empty, ends in the end-of-input
/// token, and holds no other end-of-input token.
pub proof fn lemma_token_stream_shape(s: Seq<char>, i: int)
    requires
        0 <= i <= s.len(),
    ensures
        spec_tokens_from(s, i).len() >= 1,
        spec_tokens_from(s, i).last() == eof_token(),
        forall|k: int|
            0 <= k < spec_tokens_from(s, i).len() - 1 ==> #[trigger] spec_tokens_from(s, i)[k].t
                != TokenType::EOF,
    decreases s.len() - i,
{
    lemma_skip_ws_end(s, i);
    let j = skip_ws_end(s, i);
    if j < s.len() {
        lemma_token_end_bounds(s, j);
        lemma_token_stream_shape(s, token_end(s, j));
        assert(token_kind(s, j) != TokenType::EOF);
    }
}

/// `=` and `!` are extended to `==` and `!=` exactly when the very next
/// character is `=`; followed by anything else (or by nothing), each
/// stands alone as the single-character operator.
pub proof fn lemma_two_char_operator(s: Seq<char>, i: int)
    requires
        0 <= i < s.len(),
        s[i] == '=' || s[i] == '!',
    ensures
        (i + 1 < s.len() && s[i + 1] == '=') ==> token_kind(s, i) == (if s[i] == '=' {
            TokenType::Eq
        } else {
            TokenType::NotEq
        }) && token_literal(s, i) == s.subrange(i, i + 2),
        !(i + 1 < s.len() && s[i + 1] == '=') ==> token_kind(s, i) == (if s[i] == '=' {
            TokenType::Assign
        } else {
            TokenType::Bang
        }) && token_literal(s, i) == s.subrange(i, i + 1),
{
}

/// The literal texts of a token sequence, concatenated in order.
pub open spec fn concat_literals(toks: Seq<TokenModel>) -> Seq<char>
    decreases toks.len(),
{
    if toks.len() == 0 {
        Seq::empty()
    } else {
        toks.first().lit + concat_literals(toks.drop_first())
    }
}

/// The input text with its whitespace characters removed.
pub open spec fn remove_whitespace(s: Seq<char>) -> Seq<char>
    decreases s.len(),
{
    if s.len() == 0 {
        Seq::empty()
    } else if is_whitespace_char(s.first()) {
        remove_whitespace(s.drop_first())
    } else {
        seq![s.first()] + remove_whitespace(s.drop_first())
    }
}

proof fn lemma_remove_whitespace_all_ws(s: Seq<char>)
    requires
        forall|k: int| 0 <= k < s.len() ==> is_whitespace_char(#[trigger] s[k]),
    ensures
        remove_whitespace(s) == Seq::<char>::empty(),
    decreases s.len(),
{
    if s.len() > 0 {
        lemma_remove_whitespace_all_ws(s.drop_first());
    }
}

proof fn lemma_remove_whitespace_none_ws(s: Seq<char>)
    requires
        forall|k: int| 0 <= k < s.len() ==> !is_whitespace_char(#[trigger] s[k]),
    ensures
        remove_whitespace(s) == s,
    decreases s.len(),
{
    if s.len() > 0 {
        lemma_remove_whitespace_none_ws(s.drop_first());
        assert(seq![s.first()] + s.drop_first() =~= s);
    }
}

proof fn lemma_remove_whitespace_concat(a: Seq<char>, b: Seq<char>)
    ensures
        remove_whitespace(a + b) == remove_whitespace(a) + remove_whitespace(b),
    decreases a.len(),
{
    if a.len() == 0 {
        assert(a + b =~= b);
        assert(remove_whitespace(a) + remove_whitespace(b) =~= remove_whitespace(b));
    } else {
        assert((a + b).first() == a.first());
        assert((a + b).drop_first() =~= a.drop_first() + b);
        lemma_remove_whitespace_concat(a.drop_first(), b);
        if !is_whitespace_char(a.first()) {
            assert(seq![a.first()] + (remove_whitespace(a.drop_first()) + remove_whitespace(b))
                =~= (seq![a.first()] + remove_whitespace(a.drop_first())) + remove_whitespace(b));
        }
    }
}

/// No character inside a token's span is whitespace.
proof fn lemma_token_chars_not_ws(s: Seq<char>, j: int)
    requires
        0 <= j < s.len(),
        !is_whitespace_char(s[j]),
    ensures
        forall|k: int| j <= k < token_end(s, j) ==> !is_whitespace_char(#[trigger] s[k]),
{
    lemma_letter_run_end(s, j);
    lemma_digit_run_end(s, j);
    lemma_token_end_bounds(s, j);
}

/// Tokens partition the input modulo whitespace: the literals of the
/// tokens scanned from any position, concatenated in order, are exactly
/// the rest of the input with its whitespace removed. In particular every
/// character of non-whitespace input is accounted for by exactly one
/// token's literal.
pub proof fn lemma_tokens_partition(s: Seq<char>, i: int)
    requires
        0 <= i <= s.len(),
    ensures
        concat_literals(spec_tokens_from(s, i)) == remove_whitespace(
            s.subrange(i, s.len() as int),
        ),
    decreases s.len() - i,
{
    lemma_skip_ws_end(s, i);
    let j = skip_ws_end(s, i);
    let tail = s.subrange(i, s.len() as int);
    if j >= s.len() {
        assert(forall|k: int| 0 <= k < tail.len() ==> is_whitespace_char(#[trigger] tail[k])) by {
            assert(forall|k: int| 0 <= k < tail.len() ==> tail[k] == s[i + k]);
        }
        lemma_remove_whitespace_all_ws(tail);
        assert(spec_tokens_from(s, i) == seq![eof_token()]);
        assert(concat_literals(seq![eof_token()]) =~= Seq::<char>::empty()) by {
            reveal_with_fuel(concat_literals, 2);
            assert(seq![eof_token()].first() == eof_token());
            assert(seq![eof_token()].drop_first() =~= Seq::<TokenModel>::empty());
        }
    } else {
        let e = token_end(s, j);
        lemma_token_end_bounds(s, j);
        lemma_token_chars_not_ws(s, j);
        lemma_tokens_partition(s, e);
        let ws_part = s.subrange(i, j);
        let tok_part = s.subrange(j, e);
        let rest = s.subrange(e, s.len() as int);
        assert(tail =~= ws_part + (tok_part + rest));
        lemma_remove_whitespace_concat(ws_part, tok_part + rest);
        lemma_remove_whitespace_concat(tok_part, rest);
        assert(forall|k: int|
            0 <= k < ws_part.len() ==> is_whitespace_char(#[trigger] ws_part[k])) by {
            assert(forall|k: int| 0 <= k < ws_part.len() ==> ws_part[k] == s[i + k]);
        }
        lemma_remove_whitespace_all_ws(ws_part);
        assert(forall|k: int|
            0 <= k < tok_part.len() ==> !is_whitespace_char(#[trigger] tok_part[k])) by {
            assert(forall|k: int| 0 <= k < tok_part.len() ==> tok_part[k] == s[j + k]);
        }
        lemma_remove_whitespace_none_ws(tok_part);
        let tok = TokenModel { t: token_kind(s, j), lit: token_literal(s, j) };
        let rest_tokens = spec_tokens_from(s, e);
        assert(spec_tokens_from(s, i) == seq![tok] + rest_tokens);
        assert((seq![tok] + rest_tokens).first() == tok);
        assert((seq![tok] + rest_tokens).drop_first() =~= rest_tokens);
        assert(remove_whitespace(tail) =~= tok_part + remove_whitespace(rest));
        assert(concat_literals(spec_tokens_from(s, i)) =~= tok_part + remove_whitespace(rest));
    }
}

/// The lexer: the full input and the current scan position.
pub struct Lexer {
    input: String,
    position: usize,
}

impl View for Lexer {
    type V = Seq<TokenModel>;

    /// The tokens still to come from this lexer.
    open spec fn view(&self) -> Seq<TokenModel> {
        spec_tokens_from(self.src(), self.pos())
    }
}

impl Lexer {
    /// The full input text.
    pub closed spec fn src(&self) -> Seq<char> {
        self.input@
    }

    /// The current scan position, as an index into `src()`.
    pub closed spec fn pos(&self) -> int {
        self.position as int
    }

    /// The scan position never leaves the input.
    pub open spec fn wf(&self) -> bool {
        0 <= self.pos() <= self.src().len()
    }

    /// A lexer over the given source text, positioned at its start.
    pub fn new(input: String) -> (l: Lexer)
        ensures
            l.wf(),
            l.src() == input@,
            l@ == spec_tokens_from(input@, 0),
    {
        Lexer { input, position: 0 }
    }

    /// The number of characters of the input, as characters, not bytes.
    fn char_len(&self) -> (n: usize)
        ensures
            n == self.src().len(),
    {
        self.input.as_str().unicode_len()
    }

    /// The character at position `i`.
    fn char_at(&self, i: usize) -> (c: char)
        requires
            i < self.src().len(),
        ensures
            c == self.src()[i as int],
    {
        self.input.as_str().get_char(i)
    }

    /// The text between two positions, as an owned string.
    fn text_between(&self, from: usize, to: usize) -> (t: String)
        requires
            from <= to <= self.src().len(),
        ensures
            t@ == self.src().subrange(from as int, to as int),
    {
        self.input.as_str().substring_char(from, to).to_owned()
    }

    /// Advances the scan position past any whitespace.
    fn skip_whitespace(&mut self)
        requires
            old(self).wf(),
        ensures
            final(self).wf(),
            final(self).src() == old(self).src(),
            final(self).pos() == skip_ws_end(old(self).src(), old(self).pos()),
    {
        let len = self.char_len();
        proof {
            lemma_skip_ws_end(self.src(), self.pos());
        }
        while self.position < len && is_whitespace(self.char_at(self.position))
            invariant
                self.wf(),
                len == self.src().len(),
                self.src() == old(self).src(),
                skip_ws_end(self.src(), self.pos()) == skip_ws_end(
                    old(self).src(),
                    old(self).pos(),
                ),
            decreases len - self.position,
        {
            self.position = self.position + 1;
        }
    }

    /// Consumes the maximal run of identifier characters and returns its
    /// text.
    fn read_identifier(&mut self) -> (literal: String)
        requires
            old(self).wf(),
            old(self).pos() < old(self).src().len(),
            is_letter_char(old(self).src()[old(self).pos()]),
        ensures
            final(self).wf(),
            final(self).src() == old(self).src(),
            final(self).pos() == letter_run_end(old(self).src(), old(self).pos()),
            literal@ == old(self).src().subrange(old(self).pos(), final(self).pos()),
    {
        let start = self.position;
        let len = self.char_len();
        proof {
            lemma_letter_run_end(self.src(), self.pos());
        }
        while self.position < len && is_identifier(self.char_at(self.position))
            invariant
                self.wf(),
                len == self.src().len(),
                self.src() == old(self).src(),
                start <= self.position,
                letter_run_end(self.src(), self.pos()) == letter_run_end(
                    old(self).src(),
                    old(self).pos(),
                ),
            decreases len - self.position,
        {
            self.position = self.position + 1;
        }
        self.text_between(start, self.position)
    }

    /// Consumes the maximal run of decimal digits and returns its text.
    fn read_number(&mut self) -> (literal: String)
        requires
            old(self).wf(),
            old(self).pos() < old(self).src().len(),
            is_digit_char(old(self).src()[old(self).pos()]),
        ensures
            final(self).wf(),
            final(self).src() == old(self).src(),
            final(self).pos() == digit_run_end(old(self).src(), old(self).pos()),
            literal@ == old(self).src().subrange(old(self).pos(), final(self).pos()),
    {
        let start = self.position;
        let len = self.char_len();
        proof {
            lemma_digit_run_end(self.src(), self.pos());
        }
        while self.position < len && is_digit(self.char_at(self.position))
            invariant
                self.wf(),
                len == self.src().len(),
                self.src() == old(self).src(),
                start <= self.position,
                digit_run_end(self.src(), self.pos()) == digit_run_end(
                    old(self).src(),
                    old(self).pos(),
                ),
            decreases len - self.position,
        {
            self.position = self.position + 1;
        }
        self.text_between(start, self.position)
    }

    /// Skips whitespace, classifies the token that starts at the current
    /// position, consumes it, and returns it. At end of input the
    /// end-of-input token is returned on every call.
    pub fn next_token(&mut self) -> (tok: Token)
        requires
            old(self).wf(),
        ensures
            final(self).wf(),
            final(self).src() == old(self).src(),
            tok@ == old(self)@[0],
            final(self)@ == if old(self)@.len() == 1 {
                old(self)@
            } else {
                old(self)@.drop_first()
            },
            (tok.t == TokenType::EOF) == (old(self)@.len() == 1),
    {
        let ghost s = self.src();
        let ghost i0 = self.pos();
        proof {
            lemma_skip_ws_end(s, i0);
        }
        self.skip_whitespace();
        let len = self.char_len();
        let ghost j = self.pos();
        if self.position >= len {
            assert(old(self)@ =~= seq![eof_token()]);
            return Token { t: TokenType::EOF, literal: String::new() };
        }
        proof {
            lemma_token_end_bounds(s, j);
            lemma_token_stream_shape(s, token_end(s, j));
            assert(old(self)@ == seq![
                TokenModel { t: token_kind(s, j), lit: token_literal(s, j) },
            ] + spec_tokens_from(s, token_end(s, j)));
        }
        let start = self.position;
        let c = self.char_at(self.position);
        let tok: Token = if c == '=' {
            if self.position + 1 < len && self.char_at(self.position + 1) == '=' {
                self.position = self.position + 2;
                Token { t: TokenType::Eq, literal: self.text_between(start, start + 2) }
            } else {
                self.position = self.position + 1;
                Token { t: TokenType::Assign, literal: self.text_between(start, start + 1) }
            }
        } else if c == '!' {
            if self.position + 1 < len && self.char_at(self.position + 1) == '=' {
                self.position = self.position + 2;
                Token { t: TokenType::NotEq, literal: self.text_between(start, start + 2) }
            } else {
                self.position = self.position + 1;
                Token { t: TokenType::Bang, literal: self.text_between(start, start + 1) }
            }
        } else if c == '+' || c == '-' || c == '/' || c == '*' || c == '<' || c == '>' || c == ';'
            || c == '(' || c == ')' || c == ',' || c == '{' || c == '}' {
            let t = if c == '+' {
                TokenType::Plus
            } else if c == '-' {
                TokenType::Minus
            } else if c == '/' {
                TokenType::Slash
            } else if c == '*' {
                TokenType::Asterisk
            } else if c == '<' {
                TokenType::LT
            } else if c == '>' {
                TokenType::GT
            } else if c == ';' {
                TokenType::Semicolon
            } else if c == '(' {
                TokenType::LeftParen
            } else if c == ')' {
                TokenType::RightParen
            } else if c == ',' {
                TokenType::Comma
            } else if c == '{' {
                TokenType::LeftBrace
            } else {
                TokenType::RightBrace
            };
            self.position = self.position + 1;
            Token { t, literal: self.text_between(start, start + 1) }
        } else if is_identifier(c) {
            let literal = self.read_identifier();
            let t = lookup_ident(&literal);
            Token { t, literal }
        } else if is_digit(c) {
            let literal = self.read_number();
            Token { t: TokenType::Int, literal }
        } else {
            self.position = self.position + 1;
            Token { t: TokenType::Illegal, literal: self.text_between(start, start + 1) }
        };
        proof {
            assert(tok@ == old(self)@[0]);
            assert(self@ =~= old(self)@.drop_first());
        }
        tok
    }
}

} // verus!
