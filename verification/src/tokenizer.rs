//! Lexical scanning: a stateless forward scan that classifies the source
//! text into a finite token sequence with character offsets.
//!
//! The scan only understands ASCII source; any character outside the
//! recognised classes is a fatal lexical error. The functional model is
//! `lex_spec`, which fixes the exact token sequence (or failure) for every
//! input.

use vstd::prelude::*;
use vstd::string::StrSliceExecFns;
use vstd::string::StringExecFns;

use crate::Error;
use crate::Span;

verus! {

/// The classification of one lexeme. `Num` carries the literal's value,
/// `Ident` the spelled name.
#[derive(Debug)]
pub enum TokenKind {
    Num(usize),
    Ident(String),
    LeftCurly,
    LeftParen,
    Star,
    Slash,
    Plus,
    Minus,
    RightParen,
    RightCurly,
    Equal,
    EqualEqual,
    Not,
    NotEqual,
    Lower,
    Greater,
    LowerEqual,
    GreaterEqual,
    Semicolon,
    Amp,
    Eof,
    // Reserved words
    Return,
    If,
    Else,
    While,
    For,
}

/// One classified lexeme with its half-open character range in the source.
#[derive(Debug)]
pub struct Token {
    pub start: usize,
    pub end: usize,
    pub kind: TokenKind,
}

/// The mathematical image of a `TokenKind`: the spelled name of an
/// identifier becomes a character sequence.
pub enum TokenKindModel {
    Num(usize),
    Ident(Seq<char>),
    LeftCurly,
    LeftParen,
    Star,
    Slash,
    Plus,
    Minus,
    RightParen,
    RightCurly,
    Equal,
    EqualEqual,
    Not,
    NotEqual,
    Lower,
    Greater,
    LowerEqual,
    GreaterEqual,
    Semicolon,
    Amp,
    Eof,
    Return,
    If,
    Else,
    While,
    For,
}

/// The mathematical image of a `Token`.
pub struct TokenModel {
    pub start: int,
    pub end: int,
    pub kind: TokenKindModel,
}

impl View for TokenKind {
    type V = TokenKindModel;

    open spec fn view(&self) -> TokenKindModel {
        match self {
            TokenKind::Num(v) => TokenKindModel::Num(*v),
            TokenKind::Ident(s) => TokenKindModel::Ident(s@),
            TokenKind::LeftCurly => TokenKindModel::LeftCurly,
            TokenKind::LeftParen => TokenKindModel::LeftParen,
            TokenKind::Star => TokenKindModel::Star,
            TokenKind::Slash => TokenKindModel::Slash,
            TokenKind::Plus => TokenKindModel::Plus,
            TokenKind::Minus => TokenKindModel::Minus,
            TokenKind::RightParen => TokenKindModel::RightParen,
            TokenKind::RightCurly => TokenKindModel::RightCurly,
            TokenKind::Equal => TokenKindModel::Equal,
            TokenKind::EqualEqual => TokenKindModel::EqualEqual,
            TokenKind::Not => TokenKindModel::Not,
            TokenKind::NotEqual => TokenKindModel::NotEqual,
            TokenKind::Lower => TokenKindModel::Lower,
            TokenKind::Greater => TokenKindModel::Greater,
            TokenKind::LowerEqual => TokenKindModel::LowerEqual,
            TokenKind::GreaterEqual => TokenKindModel::GreaterEqual,
            TokenKind::Semicolon => TokenKindModel::Semicolon,
            TokenKind::Amp => TokenKindModel::Amp,
            TokenKind::Eof => TokenKindModel::Eof,
            TokenKind::Return => TokenKindModel::Return,
            TokenKind::If => TokenKindModel::If,
            TokenKind::Else => TokenKindModel::Else,
            TokenKind::While => TokenKindModel::While,
            TokenKind::For => TokenKindModel::For,
        }
    }
}

impl View for Token {
    type V = TokenModel;

    open spec fn view(&self) -> TokenModel {
        TokenModel { start: self.start as int, end: self.end as int, kind: self.kind@ }
    }
}

/// The image of a whole token vector.
pub open spec fn toks_view(ts: Seq<Token>) -> Seq<TokenModel> {
    ts.map_values(|t: Token| t@)
}

impl Clone for TokenKind {
    fn clone(&self) -> (r: Self)
        ensures
            r == *self,
    {
        match self {
            TokenKind::Num(v) => TokenKind::Num(*v),
            TokenKind::Ident(s) => TokenKind::Ident(s.clone()),
            TokenKind::LeftCurly => TokenKind::LeftCurly,
            TokenKind::LeftParen => TokenKind::LeftParen,
            TokenKind::Star => TokenKind::Star,
            TokenKind::Slash => TokenKind::Slash,
            TokenKind::Plus => TokenKind::Plus,
            TokenKind::Minus => TokenKind::Minus,
            TokenKind::RightParen => TokenKind::RightParen,
            TokenKind::RightCurly => TokenKind::RightCurly,
            TokenKind::Equal => TokenKind::Equal,
            TokenKind::EqualEqual => TokenKind::EqualEqual,
            TokenKind::Not => TokenKind::Not,
            TokenKind::NotEqual => TokenKind::NotEqual,
            TokenKind::Lower => TokenKind::Lower,
            TokenKind::Greater => TokenKind::Greater,
            TokenKind::LowerEqual => TokenKind::LowerEqual,
            TokenKind::GreaterEqual => TokenKind::GreaterEqual,
            TokenKind::Semicolon => TokenKind::Semicolon,
            TokenKind::Amp => TokenKind::Amp,
            TokenKind::Eof => TokenKind::Eof,
            TokenKind::Return => TokenKind::Return,
            TokenKind::If => TokenKind::If,
            TokenKind::Else => TokenKind::Else,
            TokenKind::While => TokenKind::While,
            TokenKind::For => TokenKind::For,
        }
    }
}

impl Clone for Token {
    fn clone(&self) -> (r: Self)
        ensures
            r == *self,
    {
        Token { start: self.start, end: self.end, kind: self.kind.clone() }
    }
}

/// Equality of token kinds, reflected into the model.
pub fn kind_eq(a: &TokenKind, b: &TokenKind) -> (r: bool)
    ensures
        r == (a@ == b@),
{
    match (a, b) {
        (TokenKind::Num(x), TokenKind::Num(y)) => x == y,
        (TokenKind::Ident(x), TokenKind::Ident(y)) => x.eq(y),
        (TokenKind::LeftCurly, TokenKind::LeftCurly) => true,
        (TokenKind::LeftParen, TokenKind::LeftParen) => true,
        (TokenKind::Star, TokenKind::Star) => true,
        (TokenKind::Slash, TokenKind::Slash) => true,
        (TokenKind::Plus, TokenKind::Plus) => true,
        (TokenKind::Minus, TokenKind::Minus) => true,
        (TokenKind::RightParen, TokenKind::RightParen) => true,
        (TokenKind::RightCurly, TokenKind::RightCurly) => true,
        (TokenKind::Equal, TokenKind::Equal) => true,
        (TokenKind::EqualEqual, TokenKind::EqualEqual) => true,
        (TokenKind::Not, TokenKind::Not) => true,
        (TokenKind::NotEqual, TokenKind::NotEqual) => true,
        (TokenKind::Lower, TokenKind::Lower) => true,
        (TokenKind::Greater, TokenKind::Greater) => true,
        (TokenKind::LowerEqual, TokenKind::LowerEqual) => true,
        (TokenKind::GreaterEqual, TokenKind::GreaterEqual) => true,
        (TokenKind::Semicolon, TokenKind::Semicolon) => true,
        (TokenKind::Amp, TokenKind::Amp) => true,
        (TokenKind::Eof, TokenKind::Eof) => true,
        (TokenKind::Return, TokenKind::Return) => true,
        (TokenKind::If, TokenKind::If) => true,
        (TokenKind::Else, TokenKind::Else) => true,
        (TokenKind::While, TokenKind::While) => true,
        (TokenKind::For, TokenKind::For) => true,
        _ => false,
    }
}

// ---------------------------------------------------------------------------
// Character classes
// ---------------------------------------------------------------------------

pub open spec fn is_ws_char(c: char) -> bool {
    c == ' ' || c == '\t' || c == '\n' || c == '\r' || (c as u32) == 12
}

pub open spec fn is_digit_char(c: char) -> bool {
    ('0' as u32) <= (c as u32) && (c as u32) <= ('9' as u32)
}

pub open spec fn digit_val(c: char) -> int {
    (c as u32) - ('0' as u32)
}

pub open spec fn is_ident_start_char(c: char) -> bool {
    (('a' as u32) <= (c as u32) && (c as u32) <= ('z' as u32)) || (('A' as u32) <= (c as u32)
        && (c as u32) <= ('Z' as u32)) || c == '_'
}

pub open spec fn is_ident_cont_char(c: char) -> bool {
    is_ident_start_char(c) || is_digit_char(c)
}

pub open spec fn is_punct_char(c: char) -> bool {
    c == ';' || c == '>' || c == '<' || c == '!' || c == '=' || c == '+' || c == '-' || c == '*'
        || c == '/' || c == '}' || c == '{' || c == ')' || c == '(' || c == '&'
}

// ---------------------------------------------------------------------------
// The lexical model
// ---------------------------------------------------------------------------

/// The first position at or after `i` that does not hold a digit.
pub open spec fn num_end(s: Seq<char>, i: int) -> int
    decreases s.len() - i,
{
    if i < 0 || i >= s.len() || !is_digit_char(s[i]) {
        i
    } else {
        num_end(s, i + 1)
    }
}

/// The value of the decimal digit run `s[i..j]`.
pub open spec fn num_val(s: Seq<char>, i: int, j: int) -> int
    decreases j - i,
{
    if j <= i {
        0
    } else {
        num_val(s, i, j - 1) * 10 + digit_val(s[j - 1])
    }
}

/// The first position at or after `i` that cannot continue an identifier.
pub open spec fn ident_end(s: Seq<char>, i: int) -> int
    decreases s.len() - i,
{
    if i < 0 || i >= s.len() || !is_ident_cont_char(s[i]) {
        i
    } else {
        ident_end(s, i + 1)
    }
}

/// Which reserved word a spelled name is, if any.
pub open spec fn keyword_kind(nm: Seq<char>) -> TokenKindModel {
    if nm == "return"@ {
        TokenKindModel::Return
    } else if nm == "if"@ {
        TokenKindModel::If
    } else if nm == "else"@ {
        TokenKindModel::Else
    } else if nm == "while"@ {
        TokenKindModel::While
    } else if nm == "for"@ {
        TokenKindModel::For
    } else {
        TokenKindModel::Ident(nm)
    }
}

/// The punctuator starting at position `i`, with the position just past it.
/// Two-character punctuators win over their one-character prefixes.
pub open spec fn punct_lex(s: Seq<char>, i: int) -> Option<(TokenKindModel, int)> {
    let c = s[i];
    if c == ';' {
        Some((TokenKindModel::Semicolon, i + 1))
    } else if c == '>' {
        if i + 1 < s.len() && s[i + 1] == '=' {
            Some((TokenKindModel::GreaterEqual, i + 2))
        } else {
            Some((TokenKindModel::Greater, i + 1))
        }
    } else if c == '<' {
        if i + 1 < s.len() && s[i + 1] == '=' {
            Some((TokenKindModel::LowerEqual, i + 2))
        } else {
            Some((TokenKindModel::Lower, i + 1))
        }
    } else if c == '!' {
        if i + 1 < s.len() && s[i + 1] == '=' {
            Some((TokenKindModel::NotEqual, i + 2))
        } else {
            Some((TokenKindModel::Not, i + 1))
        }
    } else if c == '=' {
        if i + 1 < s.len() && s[i + 1] == '=' {
            Some((TokenKindModel::EqualEqual, i + 2))
        } else {
            Some((TokenKindModel::Equal, i + 1))
        }
    } else if c == '+' {
        Some((TokenKindModel::Plus, i + 1))
    } else if c == '-' {
        Some((TokenKindModel::Minus, i + 1))
    } else if c == '*' {
        Some((TokenKindModel::Star, i + 1))
    } else if c == '/' {
        Some((TokenKindModel::Slash, i + 1))
    } else if c == '}' {
        Some((TokenKindModel::RightCurly, i + 1))
    } else if c == '{' {
        Some((TokenKindModel::LeftCurly, i + 1))
    } else if c == ')' {
        Some((TokenKindModel::RightParen, i + 1))
    } else if c == '(' {
        Some((TokenKindModel::LeftParen, i + 1))
    } else if c == '&' {
        Some((TokenKindModel::Amp, i + 1))
    } else {
        None
    }
}

/// The token sequence of the source from position `i` on: whitespace is
/// skipped, digit runs become number literals (a value beyond the machine
/// word is a lexical error), punctuators and identifiers/reserved words
/// become their kinds, and any other character is a lexical error.
pub open spec fn lex_from(s: Seq<char>, i: int) -> Result<Seq<TokenModel>, ()>
    decreases s.len() - i,
{
    if i < 0 {
        Err(())
    } else if i >= s.len() {
        Ok(Seq::empty())
    } else {
        let c = s[i];
        if is_ws_char(c) {
            lex_from(s, i + 1)
        } else if is_digit_char(c) {
            let j = num_end(s, i);
            if num_val(s, i, j) > usize::MAX as int {
                Err(())
            } else if i < j && j <= s.len() {
                match lex_from(s, j) {
                    Ok(rest) => Ok(
                        seq![
                            TokenModel {
                                start: i,
                                end: j,
                                kind: TokenKindModel::Num(num_val(s, i, j) as usize),
                            },
                        ] + rest,
                    ),
                    Err(e) => Err(e),
                }
            } else {
                Err(())
            }
        } else if is_punct_char(c) {
            match punct_lex(s, i) {
                Some((k, j)) => if i < j && j <= s.len() {
                    match lex_from(s, j) {
                        Ok(rest) => Ok(seq![TokenModel { start: i, end: j, kind: k }] + rest),
                        Err(e) => Err(e),
                    }
                } else {
                    Err(())
                },
                None => Err(()),
            }
        } else if is_ident_start_char(c) {
            let j = ident_end(s, i);
            if i < j && j <= s.len() {
                match lex_from(s, j) {
                    Ok(rest) => Ok(
                        seq![
                            TokenModel { start: i, end: j, kind: keyword_kind(s.subrange(i, j)) },
                        ] + rest,
                    ),
                    Err(e) => Err(e),
                }
            } else {
                Err(())
            }
        } else {
            Err(())
        }
    }
}

/// The token sequence of the whole source, in source order.
pub open spec fn lex_spec(s: Seq<char>) -> Result<Seq<TokenModel>, ()> {
    lex_from(s, 0)
}

// ---------------------------------------------------------------------------
// Supporting lemmas
// ---------------------------------------------------------------------------

/// A digit run's end lies between its start and the end of the text, and
/// everything before it is a digit.
pub proof fn lemma_num_end(s: Seq<char>, i: int)
    requires
        0 <= i <= s.len(),
    ensures
        i <= num_end(s, i) <= s.len(),
        forall|k: int| i <= k < num_end(s, i) ==> is_digit_char(s[k]),
        num_end(s, i) == s.len() || !is_digit_char(s[num_end(s, i)]),
    decreases s.len() - i,
{
    if i < s.len() && is_digit_char(s[i]) {
        lemma_num_end(s, i + 1);
    }
}

/// Same shape for identifier runs.
pub proof fn lemma_ident_end(s: Seq<char>, i: int)
    requires
        0 <= i <= s.len(),
    ensures
        i <= ident_end(s, i) <= s.len(),
        forall|k: int| i <= k < ident_end(s, i) ==> is_ident_cont_char(s[k]),
        ident_end(s, i) == s.len() || !is_ident_cont_char(s[ident_end(s, i)]),
    decreases s.len() - i,
{
    if i < s.len() && is_ident_cont_char(s[i]) {
        lemma_ident_end(s, i + 1);
    }
}

/// A digit run's value never shrinks as the run extends.
pub proof fn lemma_num_val_mono(s: Seq<char>, i: int, j: int, k: int)
    requires
        0 <= i <= j <= k <= s.len(),
        forall|m: int| i <= m < k ==> is_digit_char(#[trigger] s[m]),
    ensures
        0 <= num_val(s, i, j) <= num_val(s, i, k),
    decreases k - i,
{
    if j < k {
        lemma_num_val_mono(s, i, j, k - 1);
        assert(num_val(s, i, k) == num_val(s, i, k - 1) * 10 + digit_val(s[k - 1]));
        assert(num_val(s, i, k - 1) * 10 >= num_val(s, i, k - 1)) by (nonlinear_arith)
            requires
                num_val(s, i, k - 1) >= 0,
        ;
    } else {
        if i < j {
            lemma_num_val_mono(s, i, j - 1, j - 1);
            assert(num_val(s, i, j) == num_val(s, i, j - 1) * 10 + digit_val(s[j - 1]));
            assert(num_val(s, i, j - 1) * 10 >= 0) by (nonlinear_arith)
                requires
                    num_val(s, i, j - 1) >= 0,
            ;
        }
    }
}

// ---------------------------------------------------------------------------
// The scanner
// ---------------------------------------------------------------------------

/// Pointwise lemma: viewing a token vector commutes with `push`.
pub proof fn lemma_toks_view_push(ts: Seq<Token>, t: Token)
    ensures
        toks_view(ts.push(t)) =~= toks_view(ts).push(t@),
{
}

fn is_ws_c(c: char) -> (r: bool)
    ensures
        r == is_ws_char(c),
{
    c == ' ' || c == '\t' || c == '\n' || c == '\r' || (c as u32) == 12
}

fn is_digit_c(c: char) -> (r: bool)
    ensures
        r == is_digit_char(c),
{
    let u = c as u32;
    48 <= u && u <= 57
}

fn is_ident_start_c(c: char) -> (r: bool)
    ensures
        r == is_ident_start_char(c),
{
    let u = c as u32;
    (97 <= u && u <= 122) || (65 <= u && u <= 90) || c == '_'
}

fn is_ident_cont_c(c: char) -> (r: bool)
    ensures
        r == is_ident_cont_char(c),
{
    is_ident_start_c(c) || is_digit_c(c)
}

fn is_punct_c(c: char) -> (r: bool)
    ensures
        r == is_punct_char(c),
{
    c == ';' || c == '>' || c == '<' || c == '!' || c == '=' || c == '+' || c == '-' || c == '*'
        || c == '/' || c == '}' || c == '{' || c == ')' || c == '(' || c == '&'
}


/// The forward scanner: one pass over the source characters.
pub struct Tokenizer<'a> {
    code: &'a str,
    pos: usize,
    tokens: Vec<Token>,
}

/// Classify a spelled name: reserved words get their own kind, anything
/// else is an identifier carrying its name.
pub fn identifier(ident: &str) -> (k: TokenKind)
    ensures
        k@ == keyword_kind(ident@),
{
    let owned = ident.to_owned();
    if owned == String::from_str("return") {
        TokenKind::Return
    } else if owned == String::from_str("if") {
        TokenKind::If
    } else if owned == String::from_str("else") {
        TokenKind::Else
    } else if owned == String::from_str("while") {
        TokenKind::While
    } else if owned == String::from_str("for") {
        TokenKind::For
    } else {
        TokenKind::Ident(owned)
    }
}

impl TokenKind {
    /// The spelled width of a fixed-width token kind, in characters.
    /// Number and identifier tokens have no fixed width and are excluded.
    pub open spec fn spec_len(&self) -> int {
        match self {
            TokenKind::EqualEqual | TokenKind::LowerEqual | TokenKind::GreaterEqual
            | TokenKind::NotEqual => 2,
            TokenKind::Eof => 0,
            TokenKind::Num(_) | TokenKind::Ident(_) => 0,
            TokenKind::Return => 6,
            TokenKind::If => 2,
            TokenKind::Else => 4,
            TokenKind::While => 5,
            TokenKind::For => 3,
            _ => 1,
        }
    }

    pub fn len(&self) -> (n: usize)
        requires
            !(self matches TokenKind::Num(_)),
            !(self matches TokenKind::Ident(_)),
        ensures
            n == self.spec_len(),
    {
        match self {
            TokenKind::EqualEqual | TokenKind::LowerEqual | TokenKind::GreaterEqual
            | TokenKind::NotEqual => 2,
            TokenKind::Eof => 0,
            TokenKind::Return => 6,
            TokenKind::If => 2,
            TokenKind::Else => 4,
            TokenKind::While => 5,
            TokenKind::For => 3,
            _ => 1,
        }
    }

    /// Whether this kind is one of the ten binary operators.
    pub open spec fn spec_binary(&self) -> bool {
        self matches TokenKind::Star || self matches TokenKind::Slash || self
            matches TokenKind::Plus || self matches TokenKind::Minus || self
            matches TokenKind::EqualEqual || self matches TokenKind::NotEqual || self
            matches TokenKind::Lower || self matches TokenKind::Greater || self
            matches TokenKind::LowerEqual || self matches TokenKind::GreaterEqual
    }

    pub fn binary(&self) -> (r: bool)
        ensures
            r == self.spec_binary(),
    {
        matches!(
            self,
            TokenKind::Star | TokenKind::Slash | TokenKind::Plus | TokenKind::Minus
                | TokenKind::EqualEqual | TokenKind::NotEqual | TokenKind::Lower
                | TokenKind::Greater | TokenKind::LowerEqual | TokenKind::GreaterEqual
        )
    }
}

impl<'a> Tokenizer<'a> {
    /// The source text being scanned.
    pub closed spec fn src(&self) -> Seq<char> {
        self.code@
    }

    /// The cursor: how many characters have been consumed.
    pub closed spec fn cursor(&self) -> int {
        self.pos as int
    }

    /// The tokens recognised so far, in source order.
    pub closed spec fn toks(&self) -> Seq<TokenModel> {
        toks_view(self.tokens@)
    }

    pub fn new(code: &'a str) -> (t: Self)
        ensures
            t.src() == code@,
            t.cursor() == 0,
            t.toks() == Seq::<TokenModel>::empty(),
    {
        let t = Self { code, pos: 0, tokens: Vec::new() };
        proof {
            assert(t.toks() =~= Seq::<TokenModel>::empty());
        }
        t
    }

    /// The character under the cursor, if any.
    fn peek(&self) -> (r: Option<char>)
        requires
            self.cursor() <= self.src().len(),
        ensures
            r == (if self.cursor() < self.src().len() {
                Some(self.src()[self.cursor()])
            } else {
                Option::<char>::None
            }),
    {
        let n = self.code.unicode_len();
        if self.pos < n {
            Some(self.code.get_char(self.pos))
        } else {
            None
        }
    }

    fn advance(&mut self)
        requires
            old(self).cursor() < old(self).src().len(),
            old(self).src().len() <= usize::MAX,
        ensures
            final(self).cursor() == old(self).cursor() + 1,
            final(self).src() == old(self).src(),
            final(self).toks() == old(self).toks(),
    {
        self.pos = self.pos + 1;
    }

    /// Push a token for a fixed-width kind whose spelling just ended at the
    /// cursor.
    pub fn push_token(&mut self, kind: TokenKind)
        requires
            !(kind matches TokenKind::Num(_)),
            !(kind matches TokenKind::Ident(_)),
            kind.spec_len() <= old(self).cursor(),
        ensures
            final(self).cursor() == old(self).cursor(),
            final(self).src() == old(self).src(),
            final(self).toks() == old(self).toks().push(
                TokenModel {
                    start: old(self).cursor() - kind.spec_len(),
                    end: old(self).cursor(),
                    kind: kind@,
                },
            ),
    {
        let len = kind.len();
        let t = Token { start: self.pos - len, end: self.pos, kind };
        self.tokens.push(t);
        proof {
            lemma_toks_view_push(old(self).tokens@, t);
        }
    }

    /// Skip one whitespace character.
    fn whitespace(&mut self)
        requires
            old(self).cursor() < old(self).src().len(),
            old(self).src().len() <= usize::MAX,
            is_ws_char(old(self).src()[old(self).cursor()]),
        ensures
            final(self).src() == old(self).src(),
            final(self).cursor() == old(self).cursor() + 1,
            final(self).toks() == old(self).toks(),
    {
        self.advance();
    }

    /// Whether the cursor stands on a digit.
    fn digit_ahead(&self) -> (r: bool)
        requires
            self.cursor() <= self.src().len(),
        ensures
            r == (self.cursor() < self.src().len() && is_digit_char(self.src()[self.cursor()])),
    {
        let n = self.code.unicode_len();
        if self.pos < n {
            is_digit_c(self.code.get_char(self.pos))
        } else {
            false
        }
    }

    /// Whether the cursor stands on an identifier-continuation character.
    fn ident_ahead(&self) -> (r: bool)
        requires
            self.cursor() <= self.src().len(),
        ensures
            r == (self.cursor() < self.src().len() && is_ident_cont_char(
                self.src()[self.cursor()],
            )),
    {
        let n = self.code.unicode_len();
        if self.pos < n {
            is_ident_cont_c(self.code.get_char(self.pos))
        } else {
            false
        }
    }

    /// Scan one decimal literal. The only failure is a value that does not
    /// fit the machine word.
    #[verifier::loop_isolation(false)]
    fn digit(&mut self) -> (r: Result<(), Error>)
        requires
            old(self).cursor() < old(self).src().len(),
            old(self).src().len() <= usize::MAX,
            is_digit_char(old(self).src()[old(self).cursor()]),
        ensures
            final(self).src() == old(self).src(),
            ({
                let s = old(self).src();
                let i = old(self).cursor();
                let j = num_end(s, i);
                match r {
                    Ok(_) => {
                        &&& num_val(s, i, j) <= usize::MAX
                        &&& final(self).cursor() == j
                        &&& final(self).toks() == old(self).toks().push(
                            TokenModel {
                                start: i,
                                end: j,
                                kind: TokenKindModel::Num(num_val(s, i, j) as usize),
                            },
                        )
                    },
                    Err(_) => num_val(s, i, j) > usize::MAX,
                }
            }),
    {
        let ghost s = self.src();
        let ghost i0 = self.cursor();
        let start = self.pos;
        let mut val: usize = 0;
        proof {
            lemma_num_end(s, i0);
        }
        while self.digit_ahead()
            invariant
                self.src() == s,
                self.toks() == old(self).toks(),
                i0 <= self.cursor() <= s.len(),
                self.pos as int == self.cursor(),
                start == i0,
                forall|k: int| i0 <= k < self.cursor() ==> is_digit_char(#[trigger] s[k]),
                num_end(s, self.cursor()) == num_end(s, i0),
                val == num_val(s, i0, self.cursor()),
            decreases s.len() - self.cursor(),
        {
            let c = self.code.get_char(self.pos);
            let d = (c as u32) - 48;
            let dd: usize = d as usize;
            let v10 = match val.checked_mul(10) {
                Some(v) => v,
                None => {
                    proof {
                        lemma_overflow(s, i0, self.cursor(), val, digit_val(s[self.cursor()]));
                    }
                    return Err(
                        Error::new(
                            String::from_str("number literal does not fit a machine word"),
                            Some(Span::new(start)),
                        ),
                    );
                },
            };
            let v = match v10.checked_add(dd) {
                Some(v) => v,
                None => {
                    proof {
                        lemma_overflow(s, i0, self.cursor(), val, digit_val(s[self.cursor()]));
                    }
                    return Err(
                        Error::new(
                            String::from_str("number literal does not fit a machine word"),
                            Some(Span::new(start)),
                        ),
                    );
                },
            };
            proof {
                assert(0 <= digit_val(s[self.cursor()]) <= 9);
                assert(num_val(s, i0, self.cursor() + 1) == num_val(s, i0, self.cursor()) * 10
                    + digit_val(s[self.cursor()]));
            }
            val = v;
            self.advance();
        }
        let ghost j = self.cursor();
        proof {
            assert(num_end(s, j) == j);
            assert(j == num_end(s, i0));
        }
        let t = Token { start, end: self.pos, kind: TokenKind::Num(val) };
        self.tokens.push(t);
        proof {
            lemma_toks_view_push(old(self).tokens@, t);
        }
        Ok(())
    }

    /// Scan one punctuator, preferring the two-character spellings.
    fn punctuator(&mut self)
        requires
            old(self).cursor() < old(self).src().len(),
            old(self).src().len() <= usize::MAX,
            is_punct_char(old(self).src()[old(self).cursor()]),
        ensures
            final(self).src() == old(self).src(),
            ({
                let s = old(self).src();
                let i = old(self).cursor();
                match punct_lex(s, i) {
                    Some((k, j)) => final(self).cursor() == j && final(self).toks() == old(
                        self,
                    ).toks().push(TokenModel { start: i, end: j, kind: k }),
                    None => false,
                }
            }),
    {
        let c = self.code.get_char(self.pos);
        self.advance();
        match c {
            ';' => self.push_token(TokenKind::Semicolon),
            '>' => {
                if self.follows_equal() {
                    self.advance();
                    self.push_token(TokenKind::GreaterEqual);
                } else {
                    self.push_token(TokenKind::Greater);
                }
            },
            '<' => {
                if self.follows_equal() {
                    self.advance();
                    self.push_token(TokenKind::LowerEqual);
                } else {
                    self.push_token(TokenKind::Lower);
                }
            },
            '!' => {
                if self.follows_equal() {
                    self.advance();
                    self.push_token(TokenKind::NotEqual);
                } else {
                    self.push_token(TokenKind::Not);
                }
            },
            '=' => {
                if self.follows_equal() {
                    self.advance();
                    self.push_token(TokenKind::EqualEqual);
                } else {
                    self.push_token(TokenKind::Equal);
                }
            },
            '+' => self.push_token(TokenKind::Plus),
            '-' => self.push_token(TokenKind::Minus),
            '*' => self.push_token(TokenKind::Star),
            '/' => self.push_token(TokenKind::Slash),
            '}' => self.push_token(TokenKind::RightCurly),
            '{' => self.push_token(TokenKind::LeftCurly),
            ')' => self.push_token(TokenKind::RightParen),
            '(' => self.push_token(TokenKind::LeftParen),
            _ => self.push_token(TokenKind::Amp),
        }
    }

    /// Whether the character at the cursor is `=`.
    fn follows_equal(&self) -> (r: bool)
        requires
            self.cursor() <= self.src().len(),
        ensures
            r == (self.cursor() < self.src().len() && self.src()[self.cursor()] == '='),
    {
        let n = self.code.unicode_len();
        if self.pos < n {
            self.code.get_char(self.pos) == '='
        } else {
            false
        }
    }

    /// Scan one identifier or reserved word.
    #[verifier::loop_isolation(false)]
    fn ident(&mut self)
        requires
            old(self).cursor() < old(self).src().len(),
            old(self).src().len() <= usize::MAX,
            is_ident_start_char(old(self).src()[old(self).cursor()]),
        ensures
            final(self).src() == old(self).src(),
            ({
                let s = old(self).src();
                let i = old(self).cursor();
                let j = ident_end(s, i);
                final(self).cursor() == j && final(self).toks() == old(self).toks().push(
                    TokenModel { start: i, end: j, kind: keyword_kind(s.subrange(i, j)) },
                )
            }),
    {
        let ghost s = self.src();
        let ghost i0 = self.cursor();
        let start = self.pos;
        proof {
            lemma_ident_end(s, i0);
        }
        while self.ident_ahead()
            invariant
                self.src() == s,
                self.toks() == old(self).toks(),
                i0 <= self.cursor() <= s.len(),
                self.pos as int == self.cursor(),
                start == i0,
                ident_end(s, self.cursor()) == ident_end(s, i0),
            decreases s.len() - self.cursor(),
        {
            self.advance();
        }
        proof {
            assert(ident_end(s, self.cursor()) == self.cursor());
        }
        let name = self.code.substring_char(start, self.pos);
        let kind = identifier(name);
        let t = Token { start, end: self.pos, kind };
        self.tokens.push(t);
        proof {
            lemma_toks_view_push(old(self).tokens@, t);
        }
    }

    /// Scan the whole source. On success the token list comes back in
    /// reverse source order, so that the parser can pop the next token from
    /// the vector's end.
    #[verifier::loop_isolation(false)]
    pub fn run(self) -> (r: Result<Vec<Token>, Error>)
        requires
            self.cursor() == 0,
            self.toks() == Seq::<TokenModel>::empty(),
        ensures
            match r {
                Ok(v) => lex_spec(self.src()) matches Ok(ts) && toks_view(v@) == ts.reverse(),
                Err(_) => lex_spec(self.src()) is Err,
            },
    {
        let ghost s = self.src();
        let mut t = self;
        let n = t.code.unicode_len();
        while t.pos < n
            invariant
                t.src() == s,
                n as int <= s.len(),
                s.len() == n as int,
                0 <= t.cursor() <= s.len(),
                t.pos as int == t.cursor(),
                (match lex_from(s, t.cursor()) {
                    Ok(rest) => lex_from(s, 0) == Ok::<Seq<TokenModel>, ()>(t.toks() + rest),
                    Err(e) => lex_from(s, 0) == Err::<Seq<TokenModel>, ()>(e),
                }),
            decreases s.len() - t.cursor(),
        {
            let ghost pos0 = t.cursor();
            let ghost toks0 = t.toks();
            let c = t.code.get_char(t.pos);
            if is_ws_c(c) {
                t.whitespace();
                proof {
                    assert(lex_from(s, pos0) == lex_from(s, pos0 + 1));
                }
            } else if is_digit_c(c) {
                proof {
                    lemma_num_end(s, pos0);
                    assert(num_end(s, pos0) == num_end(s, pos0 + 1));
                    lemma_num_end(s, pos0 + 1);
                }
                match t.digit() {
                    Ok(_) => {
                        proof {
                            let j = num_end(s, pos0);
                            let tok = TokenModel {
                                start: pos0,
                                end: j,
                                kind: TokenKindModel::Num(num_val(s, pos0, j) as usize),
                            };
                            match lex_from(s, j) {
                                Ok(rest2) => {
                                    assert(lex_from(s, pos0) == Ok::<Seq<TokenModel>, ()>(
                                        seq![tok] + rest2,
                                    ));
                                    assert(toks0 + (seq![tok] + rest2) =~= toks0.push(tok)
                                        + rest2);
                                },
                                Err(e2) => {
                                    assert(lex_from(s, pos0) == Err::<Seq<TokenModel>, ()>(e2));
                                },
                            }
                        }
                    },
                    Err(e) => {
                        proof {
                            assert(lex_from(s, pos0) is Err);
                        }
                        return Err(e);
                    },
                }
            } else if is_punct_c(c) {
                t.punctuator();
                proof {
                    let (k, j) = punct_lex(s, pos0).unwrap();
                    let tok = TokenModel { start: pos0, end: j, kind: k };
                    match lex_from(s, j) {
                        Ok(rest2) => {
                            assert(lex_from(s, pos0) == Ok::<Seq<TokenModel>, ()>(
                                seq![tok] + rest2,
                            ));
                            assert(toks0 + (seq![tok] + rest2) =~= toks0.push(tok) + rest2);
                        },
                        Err(e2) => {
                            assert(lex_from(s, pos0) == Err::<Seq<TokenModel>, ()>(e2));
                        },
                    }
                }
            } else if is_ident_start_c(c) {
                proof {
                    lemma_ident_end(s, pos0);
                    assert(ident_end(s, pos0) == ident_end(s, pos0 + 1));
                    lemma_ident_end(s, pos0 + 1);
                }
                t.ident();
                proof {
                    let j = ident_end(s, pos0);
                    let tok = TokenModel {
                        start: pos0,
                        end: j,
                        kind: keyword_kind(s.subrange(pos0, j)),
                    };
                    match lex_from(s, j) {
                        Ok(rest2) => {
                            assert(lex_from(s, pos0) == Ok::<Seq<TokenModel>, ()>(
                                seq![tok] + rest2,
                            ));
                            assert(toks0 + (seq![tok] + rest2) =~= toks0.push(tok) + rest2);
                        },
                        Err(e2) => {
                            assert(lex_from(s, pos0) == Err::<Seq<TokenModel>, ()>(e2));
                        },
                    }
                }
            } else {
                proof {
                    assert(lex_from(s, pos0) is Err);
                }
                return Err(
                    Error::new(
                        String::from_str("unrecognised character"),
                        Some(Span::new(t.pos)),
                    ),
                );
            }
        }
        let ghost full = t.toks();
        proof {
            assert(lex_from(s, t.cursor()) == Ok::<Seq<TokenModel>, ()>(Seq::empty()));
            assert(full + Seq::<TokenModel>::empty() =~= full);
            assert(lex_from(s, 0) == Ok::<Seq<TokenModel>, ()>(full));
        }
        let mut tokens = t.tokens;
        let mut rev: Vec<Token> = Vec::new();
        while tokens.len() > 0
            invariant
                toks_view(tokens@) + toks_view(rev@).reverse() =~= full,
            decreases tokens@.len(),
        {
            let tk = match tokens.pop() {
                Some(tk) => tk,
                None => {
                    proof {
                        assert(false);
                    }
                    return Err(Error::new(String::new(), None));
                },
            };
            rev.push(tk);
            proof {
                assert(toks_view(tokens@) + toks_view(rev@).reverse() =~= full);
            }
        }
        proof {
            assert(toks_view(rev@).reverse() =~= full);
            assert(toks_view(rev@) =~= full.reverse());
        }
        Ok(rev)
    }
}

/// Skipping over known digits does not move a run's end.
proof fn lemma_num_end_skip(s: Seq<char>, i: int, p: int)
    requires
        0 <= i <= p <= s.len(),
        forall|k: int| i <= k < p ==> is_digit_char(#[trigger] s[k]),
    ensures
        num_end(s, i) == num_end(s, p),
    decreases p - i,
{
    if i < p {
        lemma_num_end_skip(s, i + 1, p);
    }
}

/// If some prefix of a digit run already exceeds the machine word, the
/// whole run does.
proof fn lemma_overflow(s: Seq<char>, i: int, p: int, val: usize, d: int)
    requires
        0 <= i <= p < s.len(),
        forall|k: int| i <= k < p ==> is_digit_char(#[trigger] s[k]),
        is_digit_char(s[p]),
        val == num_val(s, i, p),
        d == digit_val(s[p]),
        val * 10 + d > usize::MAX,
    ensures
        num_val(s, i, num_end(s, i)) > usize::MAX,
{
    lemma_num_end(s, i);
    lemma_num_end_skip(s, i, p);
    assert(num_end(s, p) == num_end(s, p + 1));
    lemma_num_end(s, p + 1);
    lemma_num_end_skip(s, i, p + 1);
    assert(num_val(s, i, p + 1) == val * 10 + d);
    lemma_num_val_mono_all(s, i, p + 1, num_end(s, i));
}

/// Monotonicity restated with run bounds taken from `num_end`.
proof fn lemma_num_val_mono_all(s: Seq<char>, i: int, j: int, k: int)
    requires
        0 <= i <= j <= k <= s.len(),
        forall|m: int| i <= m < k ==> is_digit_char(#[trigger] s[m]),
    ensures
        num_val(s, i, j) <= num_val(s, i, k),
{
    lemma_num_val_mono(s, i, j, k);
}

} // verus!
