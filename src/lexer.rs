//! Lexical analysis: text to positioned tokens.
use vstd::prelude::*;

use crate::error::{Error, SpecError};
use crate::expression::BinaryOp;
use crate::text::{
    append_range, is_ascii_digit, is_ascii_digit_exec, is_ascii_letter_exec, is_ident_start,
    is_numeral_char, is_white_space, is_word_char, push_char, string_of, white_space, chars_of,
};

verus! {

/// The kind of a token.
#[derive(Debug, PartialEq)]
pub enum TokenKind {
    /// A numeral in canonical decimal form.
    Number(String),
    Identifier(String),
    Plus,
    Minus,
    Multiply,
    Divider,
    Power,
    ParenOpen,
    ParenClose,
    Equals,
    /// The statement terminator `;`.
    End,
    Dot,
    Comma,
}

/// The mathematical model of [`TokenKind`].
pub enum SpecTokenKind {
    Number(Seq<char>),
    Identifier(Seq<char>),
    Plus,
    Minus,
    Multiply,
    Divider,
    Power,
    ParenOpen,
    ParenClose,
    Equals,
    End,
    Dot,
    Comma,
}

impl View for TokenKind {
    type V = SpecTokenKind;

    open spec fn view(&self) -> SpecTokenKind {
        match self {
            TokenKind::Number(v) => SpecTokenKind::Number(v@),
            TokenKind::Identifier(s) => SpecTokenKind::Identifier(s@),
            TokenKind::Plus => SpecTokenKind::Plus,
            TokenKind::Minus => SpecTokenKind::Minus,
            TokenKind::Multiply => SpecTokenKind::Multiply,
            TokenKind::Divider => SpecTokenKind::Divider,
            TokenKind::Power => SpecTokenKind::Power,
            TokenKind::ParenOpen => SpecTokenKind::ParenOpen,
            TokenKind::ParenClose => SpecTokenKind::ParenClose,
            TokenKind::Equals => SpecTokenKind::Equals,
            TokenKind::End => SpecTokenKind::End,
            TokenKind::Dot => SpecTokenKind::Dot,
            TokenKind::Comma => SpecTokenKind::Comma,
        }
    }
}

impl SpecTokenKind {
    /// The binary operator that the token stands for, if any.
    pub open spec fn binary_op(self) -> Option<BinaryOp> {
        match self {
            SpecTokenKind::Plus => Some(BinaryOp::Add),
            SpecTokenKind::Minus => Some(BinaryOp::Sub),
            SpecTokenKind::Multiply => Some(BinaryOp::Mult),
            SpecTokenKind::Divider => Some(BinaryOp::Frac),
            SpecTokenKind::Power => Some(BinaryOp::Pow),
            SpecTokenKind::Equals => Some(BinaryOp::Equals),
            _ => None,
        }
    }

    /// How the token reads in text.
    pub open spec fn text(self) -> Seq<char> {
        match self {
            SpecTokenKind::Number(v) => v,
            SpecTokenKind::Identifier(s) => s,
            SpecTokenKind::Plus => seq!['+'],
            SpecTokenKind::Minus => seq!['-'],
            SpecTokenKind::Multiply => seq!['*'],
            SpecTokenKind::Divider => seq!['/'],
            SpecTokenKind::Power => seq!['^'],
            SpecTokenKind::ParenOpen => seq!['('],
            SpecTokenKind::ParenClose => seq![')'],
            SpecTokenKind::Equals => seq!['='],
            SpecTokenKind::End => seq![';'],
            SpecTokenKind::Dot => seq!['.'],
            SpecTokenKind::Comma => seq![','],
        }
    }

    /// Whether the token is a binary operator of the given binding level.
    pub open spec fn takes_precedence(self, precedence: nat) -> bool {
        match self.binary_op() {
            Some(op) => op.level() == precedence,
            None => false,
        }
    }
}

impl TokenKind {
    pub fn duplicate(&self) -> (r: TokenKind)
        ensures
            r == *self,
    {
        match self {
            TokenKind::Number(v) => TokenKind::Number(v.clone()),
            TokenKind::Identifier(s) => TokenKind::Identifier(s.clone()),
            TokenKind::Plus => TokenKind::Plus,
            TokenKind::Minus => TokenKind::Minus,
            TokenKind::Multiply => TokenKind::Multiply,
            TokenKind::Divider => TokenKind::Divider,
            TokenKind::Power => TokenKind::Power,
            TokenKind::ParenOpen => TokenKind::ParenOpen,
            TokenKind::ParenClose => TokenKind::ParenClose,
            TokenKind::Equals => TokenKind::Equals,
            TokenKind::End => TokenKind::End,
            TokenKind::Dot => TokenKind::Dot,
            TokenKind::Comma => TokenKind::Comma,
        }
    }

    /// How the token reads in text.
    pub fn to_text(&self) -> (r: String)
        ensures
            r@ == self@.text(),
    {
        let c = match self {
            TokenKind::Number(v) => {
                return v.clone();
            },
            TokenKind::Identifier(s) => {
                return s.clone();
            },
            TokenKind::Plus => '+',
            TokenKind::Minus => '-',
            TokenKind::Multiply => '*',
            TokenKind::Divider => '/',
            TokenKind::Power => '^',
            TokenKind::ParenOpen => '(',
            TokenKind::ParenClose => ')',
            TokenKind::Equals => '=',
            TokenKind::End => ';',
            TokenKind::Dot => '.',
            TokenKind::Comma => ',',
        };
        let mut r = String::new();
        push_char(&mut r, c);
        assert(r@ =~= self@.text());
        r
    }

    pub fn binary_op(&self) -> (r: Option<BinaryOp>)
        ensures
            r == self@.binary_op(),
    {
        match self {
            TokenKind::Plus => Some(BinaryOp::Add),
            TokenKind::Minus => Some(BinaryOp::Sub),
            TokenKind::Multiply => Some(BinaryOp::Mult),
            TokenKind::Divider => Some(BinaryOp::Frac),
            TokenKind::Power => Some(BinaryOp::Pow),
            TokenKind::Equals => Some(BinaryOp::Equals),
            _ => None,
        }
    }

    pub fn takes_precedence(&self, precedence: usize) -> (r: bool)
        ensures
            r == self@.takes_precedence(precedence as nat),
    {
        match self.binary_op() {
            Some(op) => op.precedence() == precedence,
            None => false,
        }
    }
}

/// A token with the line and column at which it ends.
#[derive(Debug, PartialEq)]
pub struct Token {
    pub line: usize,
    pub col: usize,
    pub size: usize,
    pub kind: TokenKind,
}

/// The mathematical model of [`Token`].
pub struct SpecToken {
    pub line: nat,
    pub col: nat,
    pub size: nat,
    pub kind: SpecTokenKind,
}

impl View for Token {
    type V = SpecToken;

    open spec fn view(&self) -> SpecToken {
        SpecToken {
            line: self.line as nat,
            col: self.col as nat,
            size: self.size as nat,
            kind: self.kind@,
        }
    }
}

impl Token {
    pub fn new(kind: TokenKind, line: usize, col: usize, size: usize) -> (r: Token)
        ensures
            r.kind == kind,
            r.line == line,
            r.col == col,
            r.size == size,
    {
        Token { line, col, kind, size }
    }

    pub fn some(kind: TokenKind, line: usize, col: usize, size: usize) -> (r: Option<Token>)
        ensures
            r == Some(Token { line, col, size, kind }),
    {
        Some(Token::new(kind, line, col, size))
    }

    pub fn duplicate(&self) -> (r: Token)
        ensures
            r == *self,
    {
        Token { line: self.line, col: self.col, size: self.size, kind: self.kind.duplicate() }
    }
}

/// The texts of a sequence of token kinds, one after another.
pub open spec fn kinds_text(ks: Seq<SpecTokenKind>) -> Seq<char>
    decreases ks.len(),
{
    if ks.len() == 0 {
        Seq::empty()
    } else {
        kinds_text(ks.drop_last()) + ks.last().text()
    }
}

/// The texts of token kinds, one after another (how an error lists what it
/// expected).
pub fn print_vec_tokens(kinds: &Vec<TokenKind>) -> (r: String)
    ensures
        r@ == kinds_text(kinds@.map_values(|k: TokenKind| k@)),
{
    let ghost ks = kinds@.map_values(|k: TokenKind| k@);
    let mut out = String::new();
    let mut i: usize = 0;
    while i < kinds.len()
        invariant
            i <= kinds@.len(),
            ks == kinds@.map_values(|k: TokenKind| k@),
            out@ == kinds_text(ks.subrange(0, i as int)),
        decreases kinds@.len() - i,
    {
        let t = kinds[i].to_text();
        out.append(t.as_str());
        assert(ks.subrange(0, i + 1).drop_last() =~= ks.subrange(0, i as int));
        i += 1;
    }
    assert(ks.subrange(0, i as int) =~= ks);
    out
}

/// The models of a sequence of tokens.
pub open spec fn tokens_view(ts: Seq<Token>) -> Seq<SpecToken> {
    ts.map_values(|t: Token| t@)
}

/// The token that a single character stands for.
pub open spec fn punct_kind(c: char) -> Option<SpecTokenKind> {
    if c == '+' {
        Some(SpecTokenKind::Plus)
    } else if c == '-' {
        Some(SpecTokenKind::Minus)
    } else if c == '*' {
        Some(SpecTokenKind::Multiply)
    } else if c == '/' {
        Some(SpecTokenKind::Divider)
    } else if c == '^' {
        Some(SpecTokenKind::Power)
    } else if c == '(' {
        Some(SpecTokenKind::ParenOpen)
    } else if c == ')' {
        Some(SpecTokenKind::ParenClose)
    } else if c == '=' {
        Some(SpecTokenKind::Equals)
    } else if c == ';' {
        Some(SpecTokenKind::End)
    } else if c == ',' {
        Some(SpecTokenKind::Comma)
    } else if c == '.' {
        Some(SpecTokenKind::Dot)
    } else {
        None
    }
}

fn punct_kind_exec(c: char) -> (r: Option<TokenKind>)
    ensures
        match r {
            Some(k) => punct_kind(c) == Some(k@),
            None => punct_kind(c).is_none(),
        },
{
    if c == '+' {
        Some(TokenKind::Plus)
    } else if c == '-' {
        Some(TokenKind::Minus)
    } else if c == '*' {
        Some(TokenKind::Multiply)
    } else if c == '/' {
        Some(TokenKind::Divider)
    } else if c == '^' {
        Some(TokenKind::Power)
    } else if c == '(' {
        Some(TokenKind::ParenOpen)
    } else if c == ')' {
        Some(TokenKind::ParenClose)
    } else if c == '=' {
        Some(TokenKind::Equals)
    } else if c == ';' {
        Some(TokenKind::End)
    } else if c == ',' {
        Some(TokenKind::Comma)
    } else if c == '.' {
        Some(TokenKind::Dot)
    } else {
        None
    }
}

/// Line and column after reading `c`: a newline starts a new line.
pub open spec fn advance(line: nat, col: nat, c: char) -> (nat, nat) {
    if c == '\n' {
        (line + 1, 0)
    } else {
        (line, col + 1)
    }
}

/// End of the run of identifier characters that starts at `k`.
pub open spec fn word_end(s: Seq<char>, k: int) -> int
    decreases s.len() - k,
{
    if 0 <= k < s.len() && is_word_char(s[k]) {
        word_end(s, k + 1)
    } else {
        k
    }
}

/// End of the run of digits and points that starts at `k`.
pub open spec fn numeral_end(s: Seq<char>, k: int) -> int
    decreases s.len() - k,
{
    if 0 <= k < s.len() && is_numeral_char(s[k]) {
        numeral_end(s, k + 1)
    } else {
        k
    }
}

pub proof fn lemma_word_end_bounds(s: Seq<char>, k: int)
    requires
        0 <= k <= s.len(),
    ensures
        k <= word_end(s, k) <= s.len(),
    decreases s.len() - k,
{
    if k < s.len() && is_word_char(s[k]) {
        lemma_word_end_bounds(s, k + 1);
    }
}

pub proof fn lemma_numeral_end_bounds(s: Seq<char>, k: int)
    requires
        0 <= k <= s.len(),
    ensures
        k <= numeral_end(s, k) <= s.len(),
    decreases s.len() - k,
{
    if k < s.len() && is_numeral_char(s[k]) {
        lemma_numeral_end_bounds(s, k + 1);
    }
}

/// Index of the first point at or after `k`, or the length.
pub open spec fn find_dot(t: Seq<char>, k: int) -> int
    decreases t.len() - k,
{
    if k < 0 || k >= t.len() {
        t.len() as int
    } else if t[k] == '.' {
        k
    } else {
        find_dot(t, k + 1)
    }
}

/// A numeral holds at most one point.
pub open spec fn is_valid_numeral(t: Seq<char>) -> bool {
    let p = find_dot(t, 0);
    p >= t.len() || find_dot(t, p + 1) >= t.len()
}

/// End of the run of zeros that starts at `k` and stops before `p`.
pub open spec fn zeros_end(t: Seq<char>, k: int, p: int) -> int
    decreases p - k,
{
    if 0 <= k < p && k < t.len() && t[k] == '0' {
        zeros_end(t, k + 1, p)
    } else {
        k
    }
}

/// Start of the run of zeros that ends at `k` and begins after `p`.
pub open spec fn zeros_start(t: Seq<char>, k: int, p: int) -> int
    decreases k - p,
{
    if p < k && k <= t.len() && 0 < k && t[k - 1] == '0' {
        zeros_start(t, k - 1, p)
    } else {
        k
    }
}

/// The canonical decimal form of a numeral: no leading zeros before the
/// point (but one zero for a zero whole part), no trailing zeros after it,
/// and no point when nothing follows it.
pub open spec fn canonical_numeral(t: Seq<char>) -> Seq<char> {
    let p = find_dot(t, 0);
    let z = zeros_end(t, 0, p);
    let whole = if z >= p {
        seq!['0']
    } else {
        t.subrange(z, p)
    };
    let e = zeros_start(t, t.len() as int, p + 1);
    if p < t.len() && e > p + 1 {
        whole + seq!['.'] + t.subrange(p + 1, e)
    } else {
        whole
    }
}

/// `ts` before the tokens of `r`, or the error of `r`.
pub open spec fn prefix_result(ts: Seq<SpecToken>, r: Result<Seq<SpecToken>, SpecError>) -> Result<
    Seq<SpecToken>,
    SpecError,
> {
    match r {
        Ok(rest) => Ok(ts + rest),
        Err(e) => Err(e),
    }
}

/// The tokens of `s` from index `i` on, with `line` and `col` the position
/// reached before `i`; or the first lexical error.
pub open spec fn lex_from(s: Seq<char>, i: int, line: nat, col: nat) -> Result<
    Seq<SpecToken>,
    SpecError,
>
    decreases s.len() - i,
{
    if i < 0 || i >= s.len() {
        Ok(seq![])
    } else {
        let c = s[i];
        let (l1, c1) = advance(line, col, c);
        if let Some(k) = punct_kind(c) {
            prefix_result(
                seq![SpecToken { line: l1, col: c1, size: 1, kind: k }],
                lex_from(s, i + 1, l1, c1),
            )
        } else if is_ident_start(c) {
            proof {
                lemma_word_end_bounds(s, i + 1);
            }
            let j = word_end(s, i + 1);
            let cj = col + (j - i) as nat;
            prefix_result(
                seq![
                    SpecToken {
                        line,
                        col: cj,
                        size: (j - i) as nat,
                        kind: SpecTokenKind::Identifier(s.subrange(i, j)),
                    },
                ],
                lex_from(s, j, line, cj),
            )
        } else if is_ascii_digit(c) {
            proof {
                lemma_numeral_end_bounds(s, i + 1);
            }
            let j = numeral_end(s, i + 1);
            let cj = col + (j - i) as nat;
            let t = s.subrange(i, j);
            if is_valid_numeral(t) {
                prefix_result(
                    seq![
                        SpecToken {
                            line,
                            col: cj,
                            size: (j - i) as nat,
                            kind: SpecTokenKind::Number(canonical_numeral(t)),
                        },
                    ],
                    lex_from(s, j, line, cj),
                )
            } else {
                Err(SpecError::InvalidNumber { line, col: cj, text: t })
            }
        } else if c == '\n' || white_space(c) {
            lex_from(s, i + 1, l1, c1)
        } else {
            Err(SpecError::UndefinedToken { line: l1, col: c1, found: c })
        }
    }
}

/// The tokens of a whole text, or its first lexical error.
pub open spec fn lex(s: Seq<char>) -> Result<Seq<SpecToken>, SpecError> {
    lex_from(s, 0, 0, 0)
}

/// The model of what [`Lexer::tokenize`] returns.
pub open spec fn tokens_result_view(r: Result<Vec<Token>, Error>) -> Result<
    Seq<SpecToken>,
    SpecError,
> {
    match r {
        Ok(ts) => Ok(tokens_view(ts@)),
        Err(e) => Err(e@),
    }
}

/// `ts + (us + r)` is `(ts + us) + r`.
pub proof fn lemma_prefix_result_concat(
    ts: Seq<SpecToken>,
    us: Seq<SpecToken>,
    r: Result<Seq<SpecToken>, SpecError>,
)
    ensures
        prefix_result(ts, prefix_result(us, r)) == prefix_result(ts + us, r),
{
    if let Ok(rest) = r {
        assert(ts + (us + rest) =~= (ts + us) + rest);
    }
}

/// A cursor over the characters of a text that tracks line and column.
pub struct Lexer {
    chars: Vec<char>,
    pos: usize,
    line: usize,
    col: usize,
}

impl Lexer {
    /// The whole text.
    pub closed spec fn text(&self) -> Seq<char> {
        self.chars@
    }

    /// Index of the next character to read.
    pub closed spec fn position(&self) -> int {
        self.pos as int
    }

    /// Line of the last character read (counted from zero).
    pub closed spec fn line(&self) -> nat {
        self.line as nat
    }

    /// Column of the last character read: characters read since the last
    /// newline.
    pub closed spec fn column(&self) -> nat {
        self.col as nat
    }

    pub closed spec fn wf(&self) -> bool {
        &&& self.pos <= self.chars@.len()
        &&& self.line <= self.pos
        &&& self.col <= self.pos
    }

    pub fn new(text: &str) -> (r: Lexer)
        ensures
            r.wf(),
            r.text() == text@,
            r.position() == 0,
            r.line() == 0,
            r.column() == 0,
    {
        Lexer { chars: chars_of(text), pos: 0, line: 0, col: 0 }
    }

    /// The next character, left unread.
    pub fn peek(&self) -> (r: Option<char>)
        requires
            self.wf(),
        ensures
            r == if self.position() < self.text().len() {
                Some(self.text()[self.position()])
            } else {
                None
            },
    {
        if self.pos < self.chars.len() {
            Some(self.chars[self.pos])
        } else {
            None
        }
    }

    /// Reads the next character; a newline moves to the start of the next
    /// line, any other character one column on.
    pub fn next(&mut self) -> (r: Option<char>)
        requires
            old(self).wf(),
        ensures
            final(self).wf(),
            final(self).text() == old(self).text(),
            old(self).position() < old(self).text().len() ==> {
                let c = old(self).text()[old(self).position()];
                &&& r == Some(c)
                &&& final(self).position() == old(self).position() + 1
                &&& (final(self).line(), final(self).column()) == advance(
                    old(self).line(),
                    old(self).column(),
                    c,
                )
            },
            old(self).position() >= old(self).text().len() ==> r.is_none() && *final(self)
                == *old(self),
    {
        if self.pos < self.chars.len() {
            let c = self.chars[self.pos];
            if c == '\n' {
                self.line = self.line + 1;
                self.col = 0;
            } else {
                self.col = self.col + 1;
            }
            self.pos = self.pos + 1;
            Some(c)
        } else {
            None
        }
    }

    /// Reads an identifier: the character at the cursor and the identifier
    /// characters after it.
    fn lex_ident(&mut self) -> (r: Token)
        requires
            old(self).wf(),
            old(self).position() < old(self).text().len(),
            is_ident_start(old(self).text()[old(self).position()]),
        ensures
            final(self).wf(),
            final(self).text() == old(self).text(),
            ({
                let s = old(self).text();
                let i = old(self).position();
                let j = word_end(s, i + 1);
                let cj = old(self).column() + (j - i) as nat;
                &&& final(self).position() == j
                &&& final(self).line() == old(self).line()
                &&& final(self).column() == cj
                &&& r@ == SpecToken {
                    line: old(self).line(),
                    col: cj,
                    size: (j - i) as nat,
                    kind: SpecTokenKind::Identifier(s.subrange(i, j)),
                }
            }),
    {
        let ghost s = self.text();
        let start = self.pos;
        self.next();
        while self.pos < self.chars.len() && (is_ascii_letter_exec(self.chars[self.pos])
            || is_ascii_digit_exec(self.chars[self.pos]))
            invariant
                self.wf(),
                self.text() == s,
                start < self.pos,
                word_end(s, self.pos as int) == word_end(s, start + 1),
                self.line == old(self).line,
                self.col == old(self).col + (self.pos - start),
            decreases s.len() - self.pos,
        {
            self.next();
        }
        let text = string_of(&self.chars, start, self.pos);
        Token::new(TokenKind::Identifier(text), self.line, self.col, self.pos - start)
    }

    /// Reads a numeral: the digit at the cursor and the digits and points
    /// after it.
    fn lex_number(&mut self) -> (r: Result<Token, Error>)
        requires
            old(self).wf(),
            old(self).position() < old(self).text().len(),
            is_ascii_digit(old(self).text()[old(self).position()]),
        ensures
            final(self).wf(),
            final(self).text() == old(self).text(),
            ({
                let s = old(self).text();
                let i = old(self).position();
                let j = numeral_end(s, i + 1);
                let cj = old(self).column() + (j - i) as nat;
                let t = s.subrange(i, j);
                &&& final(self).position() == j
                &&& final(self).line() == old(self).line()
                &&& final(self).column() == cj
                &&& match r {
                    Ok(tok) => is_valid_numeral(t) && tok@ == SpecToken {
                        line: old(self).line(),
                        col: cj,
                        size: (j - i) as nat,
                        kind: SpecTokenKind::Number(canonical_numeral(t)),
                    },
                    Err(e) => !is_valid_numeral(t) && e@ == SpecError::InvalidNumber {
                        line: old(self).line(),
                        col: cj,
                        text: t,
                    },
                }
            }),
    {
        let ghost s = self.text();
        let start = self.pos;
        let mut digits: Vec<char> = Vec::new();
        digits.push(self.chars[start]);
        self.next();
        assert(digits@ =~= s.subrange(start as int, self.pos as int));
        while self.pos < self.chars.len() && (is_ascii_digit_exec(self.chars[self.pos])
            || self.chars[self.pos] == '.')
            invariant
                self.wf(),
                self.text() == s,
                start < self.pos,
                numeral_end(s, self.pos as int) == numeral_end(s, start + 1),
                self.line == old(self).line,
                self.col == old(self).col + (self.pos - start),
                digits@ == s.subrange(start as int, self.pos as int),
            decreases s.len() - self.pos,
        {
            digits.push(self.chars[self.pos]);
            self.next();
            assert(digits@ =~= s.subrange(start as int, self.pos as int));
        }
        if numeral_is_valid(&digits) {
            let v = canonical_numeral_exec(&digits);
            Ok(Token::new(TokenKind::Number(v), self.line, self.col, self.pos - start))
        } else {
            let text = string_of(&digits, 0, digits.len());
            assert(text@ =~= digits@);
            Err(Error::InvalidNumber { line: self.line, col: self.col, text })
        }
    }

    /// Reads the rest of the text as tokens.
    pub fn tokenize(&mut self) -> (r: Result<Vec<Token>, Error>)
        requires
            old(self).wf(),
        ensures
            tokens_result_view(r) == lex_from(
                old(self).text(),
                old(self).position(),
                old(self).line(),
                old(self).column(),
            ),
    {
        let ghost s = self.text();
        let ghost start = lex_from(s, self.position(), self.line(), self.column());
        let mut tokens: Vec<Token> = Vec::new();
        assert(prefix_result(tokens_view(tokens@), start) == start) by {
            if let Ok(rest) = start {
                assert(tokens_view(tokens@) + rest =~= rest);
            }
        }
        loop
            invariant
                self.wf(),
                self.text() == s,
                s == old(self).text(),
                start == lex_from(s, old(self).position(), old(self).line(), old(self).column()),
                start == prefix_result(
                    tokens_view(tokens@),
                    lex_from(s, self.position(), self.line(), self.column()),
                ),
            decreases s.len() - self.pos,
        {
            let ghost ts = tokens_view(tokens@);
            let ghost i = self.position();
            let c = match self.peek() {
                None => {
                    assert(ts + seq![] =~= ts);
                    return Ok(tokens);
                },
                Some(c) => c,
            };
            if let Some(kind) = punct_kind_exec(c) {
                self.next();
                let tok = Token::new(kind, self.line, self.col, 1);
                let ghost t = tok@;
                tokens.push(tok);
                proof {
                    assert(tokens_view(tokens@) =~= ts + seq![t]);
                    lemma_prefix_result_concat(ts, seq![t], lex_from(s, i + 1, self.line(), self.column()));
                }
            } else if c == '_' || is_ascii_letter_exec(c) {
                proof {
                    lemma_word_end_bounds(s, i + 1);
                }
                let tok = self.lex_ident();
                let ghost t = tok@;
                tokens.push(tok);
                proof {
                    assert(tokens_view(tokens@) =~= ts + seq![t]);
                    lemma_prefix_result_concat(ts, seq![t], lex_from(s, self.position(), self.line(), self.column()));
                }
            } else if is_ascii_digit_exec(c) {
                proof {
                    lemma_numeral_end_bounds(s, i + 1);
                }
                match self.lex_number() {
                    Ok(tok) => {
                        let ghost t = tok@;
                        tokens.push(tok);
                        proof {
                            assert(tokens_view(tokens@) =~= ts + seq![t]);
                            lemma_prefix_result_concat(ts, seq![t], lex_from(s, self.position(), self.line(), self.column()));
                        }
                    },
                    Err(e) => {
                        return Err(e);
                    },
                }
            } else if c == '\n' || is_white_space(c) {
                self.next();
            } else {
                self.next();
                return Err(Error::UndefinedToken { line: self.line, col: self.col, found: c });
            }
        }
    }
}

/// Whether a run of digits and points holds at most one point.
fn numeral_is_valid(t: &Vec<char>) -> (r: bool)
    ensures
        r == is_valid_numeral(t@),
{
    let p = dot_from(t, 0);
    p >= t.len() || dot_from(t, p + 1) >= t.len()
}

/// Index of the first point at or after `k`, or the length.
fn dot_from(t: &Vec<char>, k: usize) -> (r: usize)
    requires
        k <= t@.len(),
    ensures
        r == find_dot(t@, k as int),
        k <= r <= t@.len(),
{
    let mut i = k;
    while i < t.len() && t[i] != '.'
        invariant
            k <= i <= t@.len(),
            find_dot(t@, i as int) == find_dot(t@, k as int),
        decreases t@.len() - i,
    {
        i += 1;
    }
    i
}

/// The canonical decimal form of a numeral.
fn canonical_numeral_exec(t: &Vec<char>) -> (r: String)
    ensures
        r@ == canonical_numeral(t@),
{
    let n = t.len();
    let p = dot_from(t, 0);
    let mut z: usize = 0;
    while z < p && t[z] == '0'
        invariant
            z <= p <= n == t@.len(),
            zeros_end(t@, z as int, p as int) == zeros_end(t@, 0, p as int),
        decreases p - z,
    {
        z += 1;
    }
    let mut out = String::new();
    if z >= p {
        push_char(&mut out, '0');
        assert(out@ =~= seq!['0']);
    } else {
        append_range(&mut out, t, z, p);
        assert(out@ =~= t@.subrange(z as int, p as int));
    }
    if p < n {
        let mut e: usize = n;
        while e > p + 1 && t[e - 1] == '0'
            invariant
                p < n == t@.len(),
                p + 1 <= e <= n,
                zeros_start(t@, e as int, p + 1) == zeros_start(t@, n as int, p + 1),
            decreases e,
        {
            e -= 1;
        }
        if e > p + 1 {
            push_char(&mut out, '.');
            append_range(&mut out, t, p + 1, e);
        }
    }
    out
}

} // verus!
