use vstd::prelude::*;

use crate::floats::f64_bits_of_decimal;

verus! {

/// A token of the language. Floating-point literals carry the bit pattern
/// of the IEEE 754 double their numeral denotes.
#[derive(Debug, PartialEq)]
pub enum Token {
    Int(i64),
    Float(u64),
    Str(String),
    Identifier(String),
    Let,
    Fn,
    If,
    Else,
    True,
    False,
    While,
    Plus,
    Minus,
    Star,
    Slash,
    Eq,
    EqEq,
    Lt,
    Gt,
    Bang,
    PlusEq,
    MinusEq,
    StarEq,
    SlashEq,
    And,
    Or,
    LParen,
    RParen,
    LBrace,
    RBrace,
    SemiColon,
    Comma,
    Comment,
    Eof,
}

/// Mathematical model of a token: strings become character sequences.
pub enum SpecToken {
    Int(i64),
    Float(u64),
    Str(Seq<char>),
    Identifier(Seq<char>),
    Let,
    Fn,
    If,
    Else,
    True,
    False,
    While,
    Plus,
    Minus,
    Star,
    Slash,
    Eq,
    EqEq,
    Lt,
    Gt,
    Bang,
    PlusEq,
    MinusEq,
    StarEq,
    SlashEq,
    And,
    Or,
    LParen,
    RParen,
    LBrace,
    RBrace,
    SemiColon,
    Comma,
    Comment,
    Eof,
}

pub open spec fn token_view(t: Token) -> SpecToken {
    match t {
        Token::Int(i) => SpecToken::Int(i),
        Token::Float(b) => SpecToken::Float(b),
        Token::Str(s) => SpecToken::Str(s@),
        Token::Identifier(s) => SpecToken::Identifier(s@),
        Token::Let => SpecToken::Let,
        Token::Fn => SpecToken::Fn,
        Token::If => SpecToken::If,
        Token::Else => SpecToken::Else,
        Token::True => SpecToken::True,
        Token::False => SpecToken::False,
        Token::While => SpecToken::While,
        Token::Plus => SpecToken::Plus,
        Token::Minus => SpecToken::Minus,
        Token::Star => SpecToken::Star,
        Token::Slash => SpecToken::Slash,
        Token::Eq => SpecToken::Eq,
        Token::EqEq => SpecToken::EqEq,
        Token::Lt => SpecToken::Lt,
        Token::Gt => SpecToken::Gt,
        Token::Bang => SpecToken::Bang,
        Token::PlusEq => SpecToken::PlusEq,
        Token::MinusEq => SpecToken::MinusEq,
        Token::StarEq => SpecToken::StarEq,
        Token::SlashEq => SpecToken::SlashEq,
        Token::And => SpecToken::And,
        Token::Or => SpecToken::Or,
        Token::LParen => SpecToken::LParen,
        Token::RParen => SpecToken::RParen,
        Token::LBrace => SpecToken::LBrace,
        Token::RBrace => SpecToken::RBrace,
        Token::SemiColon => SpecToken::SemiColon,
        Token::Comma => SpecToken::Comma,
        Token::Comment => SpecToken::Comment,
        Token::Eof => SpecToken::Eof,
    }
}

impl View for Token {
    type V = SpecToken;

    open spec fn view(&self) -> SpecToken {
        token_view(*self)
    }
}

impl Clone for Token {
    fn clone(&self) -> (r: Self)
        ensures
            r@ == self@,
    {
        match self {
            Token::Int(i) => Token::Int(*i),
            Token::Float(b) => Token::Float(*b),
            Token::Str(s) => Token::Str(s.clone()),
            Token::Identifier(s) => Token::Identifier(s.clone()),
            Token::Let => Token::Let,
            Token::Fn => Token::Fn,
            Token::If => Token::If,
            Token::Else => Token::Else,
            Token::True => Token::True,
            Token::False => Token::False,
            Token::While => Token::While,
            Token::Plus => Token::Plus,
            Token::Minus => Token::Minus,
            Token::Star => Token::Star,
            Token::Slash => Token::Slash,
            Token::Eq => Token::Eq,
            Token::EqEq => Token::EqEq,
            Token::Lt => Token::Lt,
            Token::Gt => Token::Gt,
            Token::Bang => Token::Bang,
            Token::PlusEq => Token::PlusEq,
            Token::MinusEq => Token::MinusEq,
            Token::StarEq => Token::StarEq,
            Token::SlashEq => Token::SlashEq,
            Token::And => Token::And,
            Token::Or => Token::Or,
            Token::LParen => Token::LParen,
            Token::RParen => Token::RParen,
            Token::LBrace => Token::LBrace,
            Token::RBrace => Token::RBrace,
            Token::SemiColon => Token::SemiColon,
            Token::Comma => Token::Comma,
            Token::Comment => Token::Comment,
            Token::Eof => Token::Eof,
        }
    }
}

/// A fatal lexical error.
#[derive(Debug, Clone, Copy, PartialEq, Eq, Structural)]
pub enum LexError {
    /// The scanner met a character that starts no token.
    UnexpectedChar(char),
    /// A string literal's closing quote is missing.
    UnterminatedString,
    /// An integer numeral denotes a value above `i64::MAX`.
    IntOutOfRange,
}

/// Whitespace that separates tokens: space, tab, newline, carriage return.
pub open spec fn is_ws(c: char) -> bool {
    c == ' ' || c == '\t' || c == '\n' || c == '\r'
}

/// A decimal digit.
pub open spec fn is_digit(c: char) -> bool {
    '0' <= c && c <= '9'
}

/// What `char::is_alphabetic` returns: a function of the character alone.
pub uninterp spec fn spec_alphabetic(c: char) -> bool;

/// What `char::is_alphanumeric` returns: a function of the character alone.
pub uninterp spec fn spec_alphanumeric(c: char) -> bool;

/// Relies on `char::is_alphabetic` of std, the Unicode `Alphabetic` property.
#[verifier::external_body]
pub fn char_is_alphabetic(c: char) -> (r: bool)
    ensures
        r == spec_alphabetic(c),
{
    c.is_alphabetic()
}

/// Relies on `char::is_alphanumeric` of std, the Unicode alphanumeric classes.
#[verifier::external_body]
pub fn char_is_alphanumeric(c: char) -> (r: bool)
    ensures
        r == spec_alphanumeric(c),
{
    c.is_alphanumeric()
}

/// A character that may start an identifier.
pub open spec fn is_ident_start(c: char) -> bool {
    spec_alphabetic(c) || c == '_'
}

/// A character that may continue an identifier.
pub open spec fn is_ident_continue(c: char) -> bool {
    spec_alphanumeric(c) || c == '_'
}

/// Length of the run of whitespace at the front of `s`.
pub open spec fn ws_count(s: Seq<char>) -> nat
    decreases s.len(),
{
    if s.len() > 0 && is_ws(s[0]) {
        (1 + ws_count(s.skip(1))) as nat
    } else {
        0
    }
}

/// `s` with its leading whitespace removed.
pub open spec fn skip_ws(s: Seq<char>) -> Seq<char> {
    s.skip(ws_count(s) as int)
}

/// Length of the run of decimal digits at the front of `s`.
pub open spec fn digit_count(s: Seq<char>) -> nat
    decreases s.len(),
{
    if s.len() > 0 && is_digit(s[0]) {
        (1 + digit_count(s.skip(1))) as nat
    } else {
        0
    }
}

/// Length of the run of identifier characters at the front of `s`.
pub open spec fn ident_count(s: Seq<char>) -> nat
    decreases s.len(),
{
    if s.len() > 0 && is_ident_continue(s[0]) {
        (1 + ident_count(s.skip(1))) as nat
    } else {
        0
    }
}

/// Length of the run of characters at the front of `s` that differ from `stop`.
pub open spec fn run_until(s: Seq<char>, stop: char) -> nat
    decreases s.len(),
{
    if s.len() > 0 && s[0] != stop {
        (1 + run_until(s.skip(1), stop)) as nat
    } else {
        0
    }
}

/// The value of a sequence of decimal digits.
pub open spec fn digits_val(ds: Seq<char>) -> nat
    decreases ds.len(),
{
    if ds.len() == 0 {
        0
    } else {
        (digits_val(ds.drop_last()) * 10 + (ds.last() as int - '0' as int)) as nat
    }
}

/// The keyword a word lexes to, if any.
pub open spec fn spec_keyword(w: Seq<char>) -> Option<SpecToken> {
    if w == seq!['l', 'e', 't'] {
        Some(SpecToken::Let)
    } else if w == seq!['f', 'n'] {
        Some(SpecToken::Fn)
    } else if w == seq!['i', 'f'] {
        Some(SpecToken::If)
    } else if w == seq!['e', 'l', 's', 'e'] {
        Some(SpecToken::Else)
    } else if w == seq!['t', 'r', 'u', 'e'] {
        Some(SpecToken::True)
    } else if w == seq!['f', 'a', 'l', 's', 'e'] {
        Some(SpecToken::False)
    } else if w == seq!['w', 'h', 'i', 'l', 'e'] {
        Some(SpecToken::While)
    } else {
        None
    }
}

/// One step of the lexer: a token and the rest of the input, or an error.
pub enum SpecLexStep {
    Tok(SpecToken, Seq<char>),
    Fail(LexError),
}

/// A single-character token, or its `=`-compound on a trailing `=`.
pub open spec fn lex_op_eq(t: Seq<char>, plain: SpecToken, compound: SpecToken) -> SpecLexStep {
    if t.len() >= 2 && t[1] == '=' {
        SpecLexStep::Tok(compound, t.skip(2))
    } else {
        SpecLexStep::Tok(plain, t.skip(1))
    }
}

/// A `//` comment: everything through the end of the line is one token.
pub open spec fn lex_comment(t: Seq<char>) -> SpecLexStep {
    let k = run_until(t, '\n') as int;
    if k < t.len() {
        SpecLexStep::Tok(SpecToken::Comment, t.skip(k + 1))
    } else {
        SpecLexStep::Tok(SpecToken::Comment, t.skip(k))
    }
}

/// A string literal: the characters up to the closing quote, unprocessed.
pub open spec fn lex_string(t: Seq<char>) -> SpecLexStep {
    let body = t.skip(1);
    let k = run_until(body, '"') as int;
    if k == body.len() {
        SpecLexStep::Fail(LexError::UnterminatedString)
    } else {
        SpecLexStep::Tok(SpecToken::Str(body.take(k)), body.skip(k + 1))
    }
}

/// A numeral: digits, then optionally one dot and further digits. With a
/// dot it denotes the nearest double; without, a decimal integer, which
/// must fit in an `i64`.
pub open spec fn lex_number(t: Seq<char>) -> SpecLexStep {
    let d1 = digit_count(t) as int;
    if d1 < t.len() && t[d1] == '.' {
        let d2 = digit_count(t.skip(d1 + 1)) as int;
        let end = d1 + 1 + d2;
        SpecLexStep::Tok(SpecToken::Float(f64_bits_of_decimal(t.take(end))), t.skip(end))
    } else {
        let v = digits_val(t.take(d1));
        if v > i64::MAX {
            SpecLexStep::Fail(LexError::IntOutOfRange)
        } else {
            SpecLexStep::Tok(SpecToken::Int(v as i64), t.skip(d1))
        }
    }
}

/// A keyword or an identifier.
pub open spec fn lex_word(t: Seq<char>) -> SpecLexStep {
    let k = 1 + ident_count(t.skip(1)) as int;
    let w = t.take(k);
    match spec_keyword(w) {
        Some(kw) => SpecLexStep::Tok(kw, t.skip(k)),
        None => SpecLexStep::Tok(SpecToken::Identifier(w), t.skip(k)),
    }
}

/// What one call of the lexer does on the remaining input `s`: skip
/// whitespace, then scan one token.
pub open spec fn lex_step(s: Seq<char>) -> SpecLexStep {
    let t = skip_ws(s);
    if t.len() == 0 {
        SpecLexStep::Tok(SpecToken::Eof, t)
    } else {
        let c = t[0];
        if c == '+' {
            lex_op_eq(t, SpecToken::Plus, SpecToken::PlusEq)
        } else if c == '-' {
            lex_op_eq(t, SpecToken::Minus, SpecToken::MinusEq)
        } else if c == '*' {
            lex_op_eq(t, SpecToken::Star, SpecToken::StarEq)
        } else if c == '/' {
            if t.len() >= 2 && t[1] == '/' {
                lex_comment(t)
            } else {
                lex_op_eq(t, SpecToken::Slash, SpecToken::SlashEq)
            }
        } else if c == '=' {
            lex_op_eq(t, SpecToken::Eq, SpecToken::EqEq)
        } else if c == '&' {
            if t.len() >= 2 && t[1] == '&' {
                SpecLexStep::Tok(SpecToken::And, t.skip(2))
            } else {
                SpecLexStep::Fail(LexError::UnexpectedChar('&'))
            }
        } else if c == '|' {
            if t.len() >= 2 && t[1] == '|' {
                SpecLexStep::Tok(SpecToken::Or, t.skip(2))
            } else {
                SpecLexStep::Fail(LexError::UnexpectedChar('|'))
            }
        } else if c == '(' {
            SpecLexStep::Tok(SpecToken::LParen, t.skip(1))
        } else if c == ')' {
            SpecLexStep::Tok(SpecToken::RParen, t.skip(1))
        } else if c == '{' {
            SpecLexStep::Tok(SpecToken::LBrace, t.skip(1))
        } else if c == '}' {
            SpecLexStep::Tok(SpecToken::RBrace, t.skip(1))
        } else if c == ';' {
            SpecLexStep::Tok(SpecToken::SemiColon, t.skip(1))
        } else if c == ',' {
            SpecLexStep::Tok(SpecToken::Comma, t.skip(1))
        } else if c == '<' {
            SpecLexStep::Tok(SpecToken::Lt, t.skip(1))
        } else if c == '>' {
            SpecLexStep::Tok(SpecToken::Gt, t.skip(1))
        } else if c == '!' {
            SpecLexStep::Tok(SpecToken::Bang, t.skip(1))
        } else if c == '"' {
            lex_string(t)
        } else if is_digit(c) {
            lex_number(t)
        } else if is_ident_start(c) {
            lex_word(t)
        } else {
            SpecLexStep::Fail(LexError::UnexpectedChar(c))
        }
    }
}

pub proof fn lemma_skip_add(s: Seq<char>, a: int, b: int)
    requires
        0 <= a,
        0 <= b,
        a + b <= s.len(),
    ensures
        s.skip(a).skip(b) == s.skip(a + b),
{
    assert(s.skip(a).skip(b) =~= s.skip(a + b));
}

pub proof fn lemma_ws_count_le(s: Seq<char>)
    ensures
        ws_count(s) <= s.len(),
    decreases s.len(),
{
    if s.len() > 0 && is_ws(s[0]) {
        lemma_ws_count_le(s.skip(1));
    }
}

pub proof fn lemma_digit_count_le(s: Seq<char>)
    ensures
        digit_count(s) <= s.len(),
    decreases s.len(),
{
    if s.len() > 0 && is_digit(s[0]) {
        lemma_digit_count_le(s.skip(1));
    }
}

pub proof fn lemma_ident_count_le(s: Seq<char>)
    ensures
        ident_count(s) <= s.len(),
    decreases s.len(),
{
    if s.len() > 0 && is_ident_continue(s[0]) {
        lemma_ident_count_le(s.skip(1));
    }
}

pub proof fn lemma_run_until_le(s: Seq<char>, stop: char)
    ensures
        run_until(s, stop) <= s.len(),
    decreases s.len(),
{
    if s.len() > 0 && s[0] != stop {
        lemma_run_until_le(s.skip(1), stop);
    }
}

/// Exhausting the digits of a numeral never shrinks its value: the value
/// of a digit-sequence prefix bounds the value of the whole from below.
pub proof fn lemma_digits_val_prefix(ds: Seq<char>, j: int)
    requires
        0 <= j <= ds.len(),
        forall|i: int| 0 <= i < ds.len() ==> is_digit(#[trigger] ds[i]),
    ensures
        digits_val(ds) >= digits_val(ds.take(j)),
    decreases ds.len() - j,
{
    if j < ds.len() {
        assert(is_digit(ds[j]));
        assert(ds[j] as int >= '0' as int);
        assert(ds.take(j + 1).drop_last() =~= ds.take(j));
        assert(ds.take(j + 1).last() == ds[j]);
        assert(digits_val(ds.take(j + 1)) == digits_val(ds.take(j)) * 10 + (ds[j] as int
            - '0' as int));
        lemma_digits_val_prefix(ds, j + 1);
        assert(ds.take(ds.len() as int) =~= ds);
    } else {
        assert(ds.take(ds.len() as int) =~= ds);
    }
}

/// Every token but `Eof` consumes at least one character, and `Eof` comes
/// exactly when the rest of the input is empty.
pub proof fn lemma_lex_progress(s: Seq<char>)
    ensures
        match lex_step(s) {
            SpecLexStep::Tok(t, rest) => (t == SpecToken::Eof ==> rest.len() == 0) && (t
                != SpecToken::Eof ==> rest.len() < s.len()),
            SpecLexStep::Fail(_) => true,
        },
{
    lemma_ws_count_le(s);
    let t = skip_ws(s);
    if t.len() > 0 {
        let c = t[0];
        if c == '"' {
            lemma_run_until_le(t.skip(1), '"');
        } else if c == '/' && t.len() >= 2 && t[1] == '/' {
            lemma_run_until_le(t, '\n');
            assert(run_until(t, '\n') >= 1);
        } else if is_digit(c) {
            lemma_digit_count_le(t);
            assert(digit_count(t) >= 1);
            let d1 = digit_count(t) as int;
            if d1 < t.len() && t[d1] == '.' {
                lemma_digit_count_le(t.skip(d1 + 1));
            }
        } else if !(c == '+' || c == '-' || c == '*' || c == '/' || c == '=' || c == '&' || c
            == '|' || c == '(' || c == ')' || c == '{' || c == '}' || c == ';' || c == ',' || c
            == '<' || c == '>' || c == '!') && is_ident_start(c) {
            lemma_ident_count_le(t.skip(1));
        }
    }
}

/// Once the input is exhausted, the lexer answers `Eof` forever after.
pub proof fn lemma_lex_eof_forever(s: Seq<char>)
    requires
        lex_step(s) matches SpecLexStep::Tok(SpecToken::Eof, _),
    ensures
        lex_step(s) matches SpecLexStep::Tok(SpecToken::Eof, rest) && rest.len() == 0 && lex_step(
            rest,
        ) == SpecLexStep::Tok(SpecToken::Eof, rest),
{
    lemma_lex_progress(s);
    let rest = lex_step(s)->Tok_1;
    assert(rest.len() == 0);
    assert(skip_ws(rest) =~= rest);
}

/// Whether repeatedly taking tokens from `s` ends, in `Eof` or in an
/// error. The bound on the remaining input makes the recursion visibly
/// finite; [`lemma_lexer_ends`] shows the bound always holds.
pub open spec fn lex_run_ends(s: Seq<char>) -> bool
    decreases s.len(),
{
    match lex_step(s) {
        SpecLexStep::Fail(_) => true,
        SpecLexStep::Tok(t, rest) => t == SpecToken::Eof || (rest.len() < s.len()
            && lex_run_ends(rest)),
    }
}

/// From every input, the lexer reaches `Eof` or an error after finitely
/// many tokens: each non-`Eof` token consumes input, so at most `s.len()`
/// tokens precede the `Eof`.
pub proof fn lemma_lexer_ends(s: Seq<char>)
    ensures
        lex_run_ends(s),
    decreases s.len(),
{
    lemma_lex_progress(s);
    match lex_step(s) {
        SpecLexStep::Fail(_) => {},
        SpecLexStep::Tok(t, rest) => {
            if t != SpecToken::Eof {
                lemma_lexer_ends(rest);
            }
        },
    }
}

fn is_ws_char(c: char) -> (r: bool)
    ensures
        r == is_ws(c),
{
    c == ' ' || c == '\t' || c == '\n' || c == '\r'
}

fn is_digit_char(c: char) -> (r: bool)
    ensures
        r == is_digit(c),
{
    '0' <= c && c <= '9'
}

fn is_ident_start_char(c: char) -> (r: bool)
    ensures
        r == is_ident_start(c),
{
    char_is_alphabetic(c) || c == '_'
}

fn is_ident_continue_char(c: char) -> (r: bool)
    ensures
        r == is_ident_continue(c),
{
    char_is_alphanumeric(c) || c == '_'
}

/// The lexer: a cursor over the characters of the source text. One call of
/// [`Lexer::next_token`] scans one token; after the input is exhausted it
/// answers `Eof` forever.
pub struct Lexer {
    chars: Vec<char>,
    pos: usize,
}

impl Lexer {
    /// The cursor never passes the end of the text.
    pub closed spec fn wf(&self) -> bool {
        self.pos <= self.chars@.len()
    }

    /// The characters not yet consumed.
    pub closed spec fn remaining(&self) -> Seq<char> {
        self.chars@.skip(self.pos as int)
    }

    pub fn new(input: &str) -> (s: Self)
        ensures
            s.wf(),
            s.remaining() == input@,
    {
        let chars = crate::text::str_to_chars(input);
        let s = Lexer { chars, pos: 0 };
        proof {
            assert(s.remaining() =~= input@);
        }
        s
    }

    /// Advances the cursor by `n` characters.
    fn bump(&mut self, n: usize)
        requires
            old(self).wf(),
            old(self).pos + n <= old(self).chars@.len(),
        ensures
            final(self).wf(),
            final(self).chars@ == old(self).chars@,
            final(self).pos == old(self).pos + n,
            final(self).remaining() == old(self).remaining().skip(n as int),
    {
        let total = self.chars.len();
        proof {
            lemma_skip_add(self.chars@, self.pos as int, n as int);
        }
        self.pos = self.pos + n;
    }

    /// Whether the character `k` places ahead exists and equals `c`.
    fn peek_eq(&self, k: usize, c: char) -> (r: bool)
        requires
            self.wf(),
        ensures
            r == (self.remaining().len() > k && self.remaining()[k as int] == c),
    {
        k < self.chars.len() - self.pos && self.chars[self.pos + k] == c
    }

    /// Consumes the run of whitespace in front of the cursor.
    #[verifier::loop_isolation(false)]
    pub fn skip_whitespace(&mut self)
        requires
            old(self).wf(),
        ensures
            final(self).wf(),
            final(self).remaining() == skip_ws(old(self).remaining()),
    {
        while self.pos < self.chars.len() && is_ws_char(self.chars[self.pos])
            invariant
                self.wf(),
                self.chars@ == old(self).chars@,
                old(self).pos <= self.pos,
                skip_ws(old(self).remaining()) == skip_ws(self.remaining()),
            decreases self.chars@.len() - self.pos,
        {
            proof {
                let rem = self.remaining();
                lemma_ws_count_le(rem.skip(1));
                lemma_skip_add(rem, 1, ws_count(rem.skip(1)) as int);
                lemma_skip_add(self.chars@, self.pos as int, 1);
            }
            self.pos = self.pos + 1;
        }
        proof {
            let rem = self.remaining();
            assert(ws_count(rem) == 0);
            assert(skip_ws(rem) =~= rem);
        }
    }

    /// Scans one token and hands it out, or reports the first lexical
    /// error. The relation between the input consumed and the token is
    /// exactly [`lex_step`] of the remaining text.
    pub fn next_token(&mut self) -> (r: Result<Token, LexError>)
        requires
            old(self).wf(),
        ensures
            final(self).wf(),
            match lex_step(old(self).remaining()) {
                SpecLexStep::Tok(t, rest) => r matches Ok(tok) && tok@ == t && final(self).remaining() == rest,
                SpecLexStep::Fail(e) => r matches Err(err) && err == e,
            },
    {
        self.skip_whitespace();
        let ghost t = self.remaining();
        if self.pos == self.chars.len() {
            proof {
                assert(t.len() == 0);
            }
            return Ok(Token::Eof);
        }
        let c = self.chars[self.pos];
        proof {
            assert(t[0] == c);
        }
        if c == '+' {
            if self.peek_eq(1, '=') {
                self.bump(2);
                Ok(Token::PlusEq)
            } else {
                self.bump(1);
                Ok(Token::Plus)
            }
        } else if c == '-' {
            if self.peek_eq(1, '=') {
                self.bump(2);
                Ok(Token::MinusEq)
            } else {
                self.bump(1);
                Ok(Token::Minus)
            }
        } else if c == '*' {
            if self.peek_eq(1, '=') {
                self.bump(2);
                Ok(Token::StarEq)
            } else {
                self.bump(1);
                Ok(Token::Star)
            }
        } else if c == '/' {
            if self.peek_eq(1, '/') {
                self.read_comment();
                Ok(Token::Comment)
            } else if self.peek_eq(1, '=') {
                self.bump(2);
                Ok(Token::SlashEq)
            } else {
                self.bump(1);
                Ok(Token::Slash)
            }
        } else if c == '=' {
            if self.peek_eq(1, '=') {
                self.bump(2);
                Ok(Token::EqEq)
            } else {
                self.bump(1);
                Ok(Token::Eq)
            }
        } else if c == '&' {
            if self.peek_eq(1, '&') {
                self.bump(2);
                Ok(Token::And)
            } else {
                Err(LexError::UnexpectedChar('&'))
            }
        } else if c == '|' {
            if self.peek_eq(1, '|') {
                self.bump(2);
                Ok(Token::Or)
            } else {
                Err(LexError::UnexpectedChar('|'))
            }
        } else if c == '(' {
            self.bump(1);
            Ok(Token::LParen)
        } else if c == ')' {
            self.bump(1);
            Ok(Token::RParen)
        } else if c == '{' {
            self.bump(1);
            Ok(Token::LBrace)
        } else if c == '}' {
            self.bump(1);
            Ok(Token::RBrace)
        } else if c == ';' {
            self.bump(1);
            Ok(Token::SemiColon)
        } else if c == ',' {
            self.bump(1);
            Ok(Token::Comma)
        } else if c == '<' {
            self.bump(1);
            Ok(Token::Lt)
        } else if c == '>' {
            self.bump(1);
            Ok(Token::Gt)
        } else if c == '!' {
            self.bump(1);
            Ok(Token::Bang)
        } else if c == '"' {
            self.read_string()
        } else if is_digit_char(c) {
            self.read_number()
        } else if is_ident_start_char(c) {
            Ok(self.read_identifier())
        } else {
            Err(LexError::UnexpectedChar(c))
        }
    }

    /// Consumes a `//` comment through the end of the line.
    #[verifier::loop_isolation(false)]
    fn read_comment(&mut self)
        requires
            old(self).wf(),
            old(self).remaining().len() >= 2,
            old(self).remaining()[0] == '/',
            old(self).remaining()[1] == '/',
        ensures
            final(self).wf(),
            lex_comment(old(self).remaining()) == SpecLexStep::Tok(
                SpecToken::Comment,
                final(self).remaining(),
            ),
    {
        let ghost t = self.remaining();
        let ghost start = self.pos as int;
        while self.pos < self.chars.len() && !(self.chars[self.pos] == '\n')
            invariant
                self.wf(),
                self.chars@ == old(self).chars@,
                start <= self.pos,
                t == self.chars@.skip(start),
                run_until(t, '\n') == (self.pos - start) + run_until(self.remaining(), '\n'),
            decreases self.chars@.len() - self.pos,
        {
            proof {
                let rem = self.remaining();
                lemma_run_until_le(rem.skip(1), '\n');
                lemma_skip_add(self.chars@, self.pos as int, 1);
            }
            self.pos = self.pos + 1;
        }
        proof {
            assert(run_until(self.remaining(), '\n') == 0);
            assert(run_until(t, '\n') == self.pos - start);
            lemma_run_until_le(t, '\n');
        }
        if self.pos < self.chars.len() {
            proof {
                lemma_skip_add(self.chars@, start, self.pos - start + 1);
            }
            self.pos = self.pos + 1;
        } else {
            proof {
                assert(self.remaining() =~= t.skip(run_until(t, '\n') as int));
            }
        }
    }

    /// Scans a string literal after its opening quote.
    #[verifier::loop_isolation(false)]
    fn read_string(&mut self) -> (r: Result<Token, LexError>)
        requires
            old(self).wf(),
            old(self).remaining().len() >= 1,
            old(self).remaining()[0] == '"',
        ensures
            final(self).wf(),
            match lex_string(old(self).remaining()) {
                SpecLexStep::Tok(t, rest) => r matches Ok(tok) && tok@ == t && final(self).remaining() == rest,
                SpecLexStep::Fail(e) => r matches Err(err) && err == e,
            },
    {
        let ghost t = self.remaining();
        let total = self.chars.len();
        proof {
            lemma_skip_add(self.chars@, self.pos as int, 1);
        }
        self.pos = self.pos + 1;
        let ghost body = t.skip(1);
        let ghost bstart = self.pos as int;
        let mut buf: Vec<char> = Vec::new();
        while self.pos < self.chars.len() && !(self.chars[self.pos] == '"')
            invariant
                self.wf(),
                self.chars@ == old(self).chars@,
                bstart <= self.pos,
                body == self.chars@.skip(bstart),
                buf@ =~= body.take(self.pos - bstart),
                run_until(body, '"') == (self.pos - bstart) + run_until(self.remaining(), '"'),
            decreases self.chars@.len() - self.pos,
        {
            proof {
                let rem = self.remaining();
                lemma_run_until_le(rem.skip(1), '"');
                lemma_skip_add(self.chars@, self.pos as int, 1);
                assert(body[self.pos - bstart] == self.chars@[self.pos as int]);
                assert(body.take(self.pos - bstart + 1) =~= body.take(self.pos - bstart).push(
                    body[self.pos - bstart],
                ));
            }
            buf.push(self.chars[self.pos]);
            self.pos = self.pos + 1;
        }
        proof {
            assert(run_until(self.remaining(), '"') == 0);
            assert(run_until(body, '"') == self.pos - bstart);
            lemma_run_until_le(body, '"');
        }
        let ghost k = self.pos - bstart;
        if self.pos == self.chars.len() {
            proof {
                assert(k == body.len());
            }
            Err(LexError::UnterminatedString)
        } else {
            let content = crate::text::chars_to_string(&buf);
            proof {
                lemma_skip_add(self.chars@, bstart, k + 1);
            }
            self.pos = self.pos + 1;
            Ok(Token::Str(content))
        }
    }

    /// Scans a numeral: digits, then optionally one dot and more digits.
    #[verifier::loop_isolation(false)]
    fn read_number(&mut self) -> (r: Result<Token, LexError>)
        requires
            old(self).wf(),
            old(self).remaining().len() >= 1,
            is_digit(old(self).remaining()[0]),
        ensures
            final(self).wf(),
            match lex_number(old(self).remaining()) {
                SpecLexStep::Tok(t, rest) => r matches Ok(tok) && tok@ == t && final(self).remaining() == rest,
                SpecLexStep::Fail(e) => r matches Err(err) && err == e,
            },
    {
        let ghost t = self.remaining();
        let nstart = self.pos;
        let ghost start = self.pos as int;
        while self.pos < self.chars.len() && is_digit_char(self.chars[self.pos])
            invariant
                self.wf(),
                self.chars@ == old(self).chars@,
                start <= self.pos,
                t == self.chars@.skip(start),
                digit_count(t) == (self.pos - start) + digit_count(self.remaining()),
                forall|i: int| start <= i < self.pos ==> is_digit(#[trigger] self.chars@[i]),
            decreases self.chars@.len() - self.pos,
        {
            proof {
                let rem = self.remaining();
                lemma_digit_count_le(rem.skip(1));
                lemma_skip_add(self.chars@, self.pos as int, 1);
            }
            self.pos = self.pos + 1;
        }
        proof {
            assert(digit_count(self.remaining()) == 0);
            assert(digit_count(t) == self.pos - start);
            lemma_digit_count_le(t);
        }
        let d1_end = self.pos;
        let ghost d1 = d1_end - start;
        if self.pos < self.chars.len() && self.chars[self.pos] == '.' {
            // a float numeral: include the dot and the digits after it
            proof {
                lemma_skip_add(self.chars@, start, d1 + 1);
            }
            self.pos = self.pos + 1;
            let ghost frac = t.skip(d1 + 1);
            let ghost fstart = self.pos as int;
            while self.pos < self.chars.len() && is_digit_char(self.chars[self.pos])
                invariant
                    self.wf(),
                    self.chars@ == old(self).chars@,
                    fstart <= self.pos,
                    frac == self.chars@.skip(fstart),
                    digit_count(frac) == (self.pos - fstart) + digit_count(self.remaining()),
                decreases self.chars@.len() - self.pos,
            {
                proof {
                    let rem = self.remaining();
                    lemma_digit_count_le(rem.skip(1));
                    lemma_skip_add(self.chars@, self.pos as int, 1);
                }
                self.pos = self.pos + 1;
            }
            proof {
                assert(digit_count(self.remaining()) == 0);
                assert(digit_count(frac) == self.pos - fstart);
            }
            let nend = self.pos;
            let ghost end = self.pos as int;
            let ghost numeral = t.take(end - start);
            proof {
                assert(numeral =~= self.chars@.subrange(start, end));
            }
            let mut buf: Vec<char> = Vec::new();
            let mut i: usize = nstart;
            while i < nend
                invariant
                    nstart <= i <= nend,
                    nend <= self.chars@.len(),
                    buf@ =~= self.chars@.subrange(start, i as int),
                    start == nstart,
                    end == nend,
                decreases nend - i,
            {
                proof {
                    assert(self.chars@.subrange(start, i + 1int) =~= self.chars@.subrange(
                        start,
                        i as int,
                    ).push(self.chars@[i as int]));
                }
                buf.push(self.chars[i]);
                i = i + 1;
            }
            let bits = crate::floats::float_of_decimal(&buf);
            proof {
                assert(buf@ == numeral);
                lemma_skip_add(self.chars@, start, end - start);
            }
            Ok(Token::Float(bits))
        } else {
            // an integer numeral: accumulate its decimal value
            let ghost numeral = t.take(d1);
            proof {
                lemma_digit_count_le(t);
                if d1 < t.len() {
                    assert(t[d1] == self.chars@[d1_end as int]);
                }
                assert(forall|i: int|
                    0 <= i < numeral.len() ==> numeral[i] == self.chars@[start + i]);
                assert(forall|i: int| 0 <= i < numeral.len() ==> is_digit(#[trigger] numeral[i]));
            }
            let mut acc: u64 = 0;
            let mut i: usize = nstart;
            while i < d1_end
                invariant
                    self.wf(),
                    self.chars@ == old(self).chars@,
                    nstart <= i <= d1_end,
                    d1_end <= self.chars@.len(),
                    start == nstart,
                    d1 == d1_end - start,
                    self.pos == d1_end,
                    t == self.chars@.skip(start),
                    numeral == t.take(d1),
                    numeral.len() == d1,
                    forall|j: int| 0 <= j < numeral.len() ==> is_digit(#[trigger] numeral[j]),
                    forall|j: int| start <= j < d1_end ==> is_digit(#[trigger] self.chars@[j]),
                    acc == digits_val(numeral.take(i - start)),
                    acc <= 9223372036854775807u64,
                decreases d1_end - i,
        {
                let c = self.chars[i];
                let d: u64 = (c as u32) as u64 - 48;
                proof {
                    assert(t[i - start] == self.chars@[i as int]);
                    assert(numeral[i - start] == c);
                    assert(is_digit(c));
                    assert(c as int >= '0' as int && c as int <= '9' as int);
                    assert(d == c as int - '0' as int);
                    assert(d <= 9);
                    assert(numeral.take(i - start + 1).drop_last() =~= numeral.take(i - start));
                    assert(numeral.take(i - start + 1).last() == c);
                    assert(digits_val(numeral.take(i - start + 1)) == acc * 10 + d);
                }
                let limit: u64 = (9223372036854775807u64 - d) / 10;
                if acc > limit {
                    proof {
                        let m = 9223372036854775807int;
                        assert((m - d) == 10 * ((m - d) / 10) + (m - d) % 10) by (nonlinear_arith);
                        assert(acc * 10 + d > m);
                        lemma_digits_val_prefix(numeral, i - start + 1);
                        assert(digits_val(numeral) > i64::MAX);
                    }
                    return Err(LexError::IntOutOfRange);
                }
                proof {
                    let m = 9223372036854775807int;
                    assert((m - d) == 10 * ((m - d) / 10) + (m - d) % 10) by (nonlinear_arith);
                    assert(acc * 10 + d <= m);
                }
                acc = acc * 10 + d;
                i = i + 1;
            }
            proof {
                assert(numeral.take(d1) =~= numeral);
                assert(acc == digits_val(numeral));
            }
            Ok(Token::Int(acc as i64))
        }
    }

    /// Scans a keyword or an identifier.
    #[verifier::loop_isolation(false)]
    fn read_identifier(&mut self) -> (r: Token)
        requires
            old(self).wf(),
            old(self).remaining().len() >= 1,
            is_ident_start(old(self).remaining()[0]),
        ensures
            final(self).wf(),
            lex_word(old(self).remaining()) matches SpecLexStep::Tok(t, rest) && r@ == t && final(self).remaining() == rest,
    {
        let ghost t = self.remaining();
        let total = self.chars.len();
        let mut buf: Vec<char> = Vec::new();
        buf.push(self.chars[self.pos]);
        proof {
            lemma_skip_add(self.chars@, self.pos as int, 1);
            assert(buf@ =~= t.take(1));
        }
        self.pos = self.pos + 1;
        let ghost tail = t.skip(1);
        let ghost wstart = self.pos as int;
        while self.pos < self.chars.len() && is_ident_continue_char(self.chars[self.pos])
            invariant
                self.wf(),
                self.chars@ == old(self).chars@,
                wstart <= self.pos,
                tail == self.chars@.skip(wstart),
                buf@ =~= t.take(1 + self.pos - wstart),
                ident_count(tail) == (self.pos - wstart) + ident_count(self.remaining()),
            decreases self.chars@.len() - self.pos,
        {
            proof {
                let rem = self.remaining();
                lemma_ident_count_le(rem.skip(1));
                lemma_skip_add(self.chars@, self.pos as int, 1);
                assert(tail[self.pos - wstart] == self.chars@[self.pos as int]);
                assert(t[1 + (self.pos - wstart)] == self.chars@[self.pos as int]);
                assert(t.take(1 + self.pos - wstart + 1) =~= t.take(1 + self.pos - wstart).push(
                    tail[self.pos - wstart],
                ));
            }
            buf.push(self.chars[self.pos]);
            self.pos = self.pos + 1;
        }
        proof {
            assert(ident_count(self.remaining()) == 0);
            assert(ident_count(tail) == self.pos - wstart);
            lemma_ident_count_le(tail);
            lemma_skip_add(self.chars@, wstart - 1, 1 + ident_count(tail) as int);
        }
        match keyword_of(&buf) {
            Some(tok) => tok,
            None => Token::Identifier(crate::text::chars_to_string(&buf)),
        }
    }
}

/// The keyword a scanned word stands for, if any.
fn keyword_of(buf: &Vec<char>) -> (r: Option<Token>)
    ensures
        match spec_keyword(buf@) {
            Some(k) => r matches Some(tok) && tok@ == k,
            None => r is None,
        },
{
    let b = buf;
    if b.len() == 3 && b[0] == 'l' && b[1] == 'e' && b[2] == 't' {
        proof {
            assert(buf@ =~= seq!['l', 'e', 't']);
        }
        Some(Token::Let)
    } else if b.len() == 2 && b[0] == 'f' && b[1] == 'n' {
        proof {
            assert(buf@ =~= seq!['f', 'n']);
        }
        Some(Token::Fn)
    } else if b.len() == 2 && b[0] == 'i' && b[1] == 'f' {
        proof {
            assert(buf@ =~= seq!['i', 'f']);
        }
        Some(Token::If)
    } else if b.len() == 4 && b[0] == 'e' && b[1] == 'l' && b[2] == 's' && b[3] == 'e' {
        proof {
            assert(buf@ =~= seq!['e', 'l', 's', 'e']);
        }
        Some(Token::Else)
    } else if b.len() == 4 && b[0] == 't' && b[1] == 'r' && b[2] == 'u' && b[3] == 'e' {
        proof {
            assert(buf@ =~= seq!['t', 'r', 'u', 'e']);
        }
        Some(Token::True)
    } else if b.len() == 5 && b[0] == 'f' && b[1] == 'a' && b[2] == 'l' && b[3] == 's' && b[4]
        == 'e' {
        proof {
            assert(buf@ =~= seq!['f', 'a', 'l', 's', 'e']);
        }
        Some(Token::False)
    } else if b.len() == 5 && b[0] == 'w' && b[1] == 'h' && b[2] == 'i' && b[3] == 'l' && b[4]
        == 'e' {
        proof {
            assert(buf@ =~= seq!['w', 'h', 'i', 'l', 'e']);
        }
        Some(Token::While)
    } else {
        proof {
            assert(spec_keyword(buf@) is None) by {
                if buf@ == seq!['l', 'e', 't'] {
                    assert(buf@.len() == 3 && buf@[0] == 'l' && buf@[1] == 'e' && buf@[2] == 't');
                }
            }
        }
        None
    }
}

} // verus!
