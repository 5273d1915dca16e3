//! Lexical scanner: turns source text into tokens, skipping whitespace and
//! `//` comments and counting lines.
use vstd::prelude::*;
use vstd::string::StrSliceExecFns;

verus! {

/// Whether a character has the Unicode Alphabetic property.
pub uninterp spec fn alphabetic(c: char) -> bool;

/// Whether a character has the Unicode White_Space property.
pub uninterp spec fn whitespace(c: char) -> bool;

/// Relies on char::is_alphabetic, which tells whether the character has the
/// Unicode Alphabetic property.
#[verifier::external_body]
fn is_alphabetic_char(c: char) -> (r: bool)
    ensures
        r == alphabetic(c),
{
    c.is_alphabetic()
}

/// Relies on char::is_whitespace, which tells whether the character has the
/// Unicode White_Space property.
#[verifier::external_body]
fn is_whitespace_char(c: char) -> (r: bool)
    ensures
        r == whitespace(c),
{
    c.is_whitespace()
}

/// Relies on String's FromIterator<char>: the string holds the characters in
/// order.
#[verifier::external_body]
fn string_of_chars(chars: &Vec<char>) -> (r: String)
    ensures
        r@ == chars@,
{
    chars.iter().collect()
}

/// A decimal digit.
pub open spec fn digit(c: char) -> bool {
    '0' <= c && c <= '9'
}

/// A character that may start an identifier.
pub open spec fn alpha(c: char) -> bool {
    alphabetic(c) || c == '_'
}

#[derive(Clone, Copy, Debug, PartialEq, Eq, Structural)]
pub enum TokenType {
    LeftParen,
    RightParen,
    LeftBrace,
    RightBrace,
    Comma,
    Dot,
    Minus,
    Plus,
    Semicolon,
    Slash,
    Star,
    Bang,
    BangEqual,
    Equal,
    EqualEqual,
    Greater,
    GreaterEqual,
    Less,
    LessEqual,
    Identifier,
    String,
    Number,
    And,
    Class,
    Else,
    False,
    For,
    Fun,
    If,
    Nil,
    Or,
    Print,
    Return,
    Super,
    This,
    True,
    Var,
    While,
}

/// A scanned token: its type, its characters and the line where it ends.
#[derive(Debug)]
pub struct Token {
    pub kind: TokenType,
    pub lexeme: Vec<char>,
    pub length: usize,
    pub line: i32,
}

impl Token {
    /// The token's characters as a string.
    pub fn get_lexeme(&self) -> (r: String)
        ensures
            r@ == self.lexeme@,
    {
        string_of_chars(&self.lexeme)
    }
}

/// The end of the source, reached on `line`.
#[derive(Clone, Copy, Debug, PartialEq, Eq, Structural)]
pub struct EOFToken {
    pub line: i32,
}

impl EOFToken {
    pub fn new(line: i32) -> (r: EOFToken)
        ensures
            r.line == line,
    {
        EOFToken { line }
    }
}

/// A scan error and its message.
#[derive(Clone, Copy, Debug, PartialEq, Eq)]
pub struct ErrorToken {
    pub message: &'static str,
}

impl ErrorToken {
    pub fn new(message: &'static str) -> (r: ErrorToken)
        ensures
            r.message == message,
    {
        ErrorToken { message }
    }
}

/// What one call of the scanner gives.
#[derive(Debug)]
pub enum ScanResult {
    Normal(Token),
    EOF(EOFToken),
    Error(ErrorToken),
}

/// `line` moved on by `k` lines, stopping at the largest line number.
pub open spec fn bump(line: i32, k: nat) -> i32 {
    if line + k > i32::MAX {
        i32::MAX
    } else {
        (line + k) as i32
    }
}

/// Line breaks in `src` from `from` up to, not including, `to`.
pub open spec fn newlines(src: Seq<char>, from: nat, to: nat) -> nat
    decreases to - from,
{
    if from >= to {
        0
    } else {
        (if src[from as int] == '\n' {
            1nat
        } else {
            0nat
        }) + newlines(src, from + 1, to)
    }
}

/// Where whitespace and `//` comments starting at `pos` end; `in_comment`
/// when `pos` lies inside a comment.
pub open spec fn skip_end(src: Seq<char>, pos: nat, in_comment: bool) -> nat
    decreases src.len() - pos,
{
    if pos >= src.len() {
        pos
    } else if in_comment {
        skip_end(src, pos + 1, src[pos as int] != '\n')
    } else if src[pos as int] == '\n' || whitespace(src[pos as int]) {
        skip_end(src, pos + 1, false)
    } else if src[pos as int] == '/' && pos + 1 < src.len() && src[pos + 1int] == '/' {
        skip_end(src, pos + 2, true)
    } else {
        pos
    }
}

/// The end of a run of characters meeting `digit` (or, with `word`, also
/// `alpha`) from `pos`.
pub open spec fn run_end(src: Seq<char>, pos: nat, word: bool) -> nat
    decreases src.len() - pos,
{
    if pos < src.len() && (digit(src[pos as int]) || (word && alpha(src[pos as int]))) {
        run_end(src, pos + 1, word)
    } else {
        pos
    }
}

/// The first `"` from `pos` on, or the end.
pub open spec fn quote_end(src: Seq<char>, pos: nat) -> nat
    decreases src.len() - pos,
{
    if pos < src.len() && src[pos as int] != '"' {
        quote_end(src, pos + 1)
    } else {
        pos
    }
}

/// The end of a number literal whose first digit is at `s`: digits, then a
/// dot and digits when a digit follows the dot.
pub open spec fn number_end(src: Seq<char>, s: nat) -> nat {
    let d = run_end(src, s + 1, false);
    if d + 1 < src.len() && src[d as int] == '.' && digit(src[d + 1int]) {
        run_end(src, d + 1, false)
    } else {
        d
    }
}

/// The type of a one-character token.
pub open spec fn single_kind(c: char) -> Option<TokenType> {
    if c == '(' {
        Some(TokenType::LeftParen)
    } else if c == ')' {
        Some(TokenType::RightParen)
    } else if c == '{' {
        Some(TokenType::LeftBrace)
    } else if c == '}' {
        Some(TokenType::RightBrace)
    } else if c == ';' {
        Some(TokenType::Semicolon)
    } else if c == ',' {
        Some(TokenType::Comma)
    } else if c == '.' {
        Some(TokenType::Dot)
    } else if c == '-' {
        Some(TokenType::Minus)
    } else if c == '+' {
        Some(TokenType::Plus)
    } else if c == '/' {
        Some(TokenType::Slash)
    } else if c == '*' {
        Some(TokenType::Star)
    } else {
        None
    }
}

/// The types of a token that may be followed by `=`: alone, and with the `=`.
pub open spec fn pair_kinds(c: char) -> Option<(TokenType, TokenType)> {
    if c == '!' {
        Some((TokenType::Bang, TokenType::BangEqual))
    } else if c == '=' {
        Some((TokenType::Equal, TokenType::EqualEqual))
    } else if c == '<' {
        Some((TokenType::Less, TokenType::LessEqual))
    } else if c == '>' {
        Some((TokenType::Greater, TokenType::GreaterEqual))
    } else {
        None
    }
}

/// The type of an identifier-shaped lexeme: a keyword's own type, or
/// `Identifier`.
pub open spec fn keyword_kind(lexeme: Seq<char>) -> TokenType {
    if lexeme == seq!['a', 'n', 'd'] {
        TokenType::And
    } else if lexeme == seq!['c', 'l', 'a', 's', 's'] {
        TokenType::Class
    } else if lexeme == seq!['e', 'l', 's', 'e'] {
        TokenType::Else
    } else if lexeme == seq!['f', 'a', 'l', 's', 'e'] {
        TokenType::False
    } else if lexeme == seq!['f', 'o', 'r'] {
        TokenType::For
    } else if lexeme == seq!['f', 'u', 'n'] {
        TokenType::Fun
    } else if lexeme == seq!['i', 'f'] {
        TokenType::If
    } else if lexeme == seq!['n', 'i', 'l'] {
        TokenType::Nil
    } else if lexeme == seq!['o', 'r'] {
        TokenType::Or
    } else if lexeme == seq!['p', 'r', 'i', 'n', 't'] {
        TokenType::Print
    } else if lexeme == seq!['r', 'e', 't', 'u', 'r', 'n'] {
        TokenType::Return
    } else if lexeme == seq!['s', 'u', 'p', 'e', 'r'] {
        TokenType::Super
    } else if lexeme == seq!['t', 'h', 'i', 's'] {
        TokenType::This
    } else if lexeme == seq!['t', 'r', 'u', 'e'] {
        TokenType::True
    } else if lexeme == seq!['v', 'a', 'r'] {
        TokenType::Var
    } else if lexeme == seq!['w', 'h', 'i', 'l', 'e'] {
        TokenType::While
    } else {
        TokenType::Identifier
    }
}

/// The token that starts at `s` (not whitespace), and where it ends; an
/// error message in place of the type where the text is no token.
pub open spec fn token_at(src: Seq<char>, s: nat) -> (Result<TokenType, Seq<char>>, nat) {
    let c = src[s as int];
    if single_kind(c) is Some {
        (Ok(single_kind(c)->0), s + 1)
    } else if pair_kinds(c) is Some {
        let (alone, with_equal) = pair_kinds(c)->0;
        if s + 1 < src.len() && src[s + 1int] == '=' {
            (Ok(with_equal), s + 2)
        } else {
            (Ok(alone), s + 1)
        }
    } else if c == '"' {
        let e = quote_end(src, s + 1);
        if e >= src.len() {
            (Err("Unterminated string"@), e)
        } else {
            (Ok(TokenType::String), e + 1)
        }
    } else if alpha(c) {
        let e = run_end(src, s + 1, true);
        (Ok(keyword_kind(src.subrange(s as int, e as int))), e)
    } else if digit(c) {
        (Ok(TokenType::Number), number_end(src, s))
    } else {
        (Err("Unexpected character"@), s + 1)
    }
}

/// The line at the end of a token spanning `s` to `e`, scanning having
/// started at `pos` on `line`: line breaks count in the whitespace before the
/// token and inside a string.
pub open spec fn token_line(src: Seq<char>, pos: nat, s: nat, e: nat, line: i32) -> i32 {
    let after_space = bump(line, newlines(src, pos, s));
    if src[s as int] == '"' {
        bump(after_space, newlines(src, s, e))
    } else {
        after_space
    }
}

/// The tokens of `src` from `pos` on, each as type, characters and line,
/// with `line` the line at `pos`; or the message of the first error.
pub open spec fn scan_from(src: Seq<char>, pos: nat, line: i32) -> Result<
    Seq<(TokenType, Seq<char>, i32)>,
    Seq<char>,
>
    decreases src.len() - pos,
{
    let s = skip_end(src, pos, false);
    if s >= src.len() {
        Ok(Seq::empty())
    } else {
        let (k, e) = token_at(src, s);
        let l = token_line(src, pos, s, e, line);
        match k {
            Err(m) => Err(m),
            Ok(kind) => if pos < e <= src.len() {
                match scan_from(src, e, l) {
                    Ok(rest) => Ok(seq![(kind, src.subrange(s as int, e as int), l)] + rest),
                    Err(m) => Err(m),
                }
            } else {
                Err(Seq::empty())
            },
        }
    }
}

/// A token as type, characters and line.
pub open spec fn token_model(t: Token) -> (TokenType, Seq<char>, i32) {
    (t.kind, t.lexeme@, t.line)
}

proof fn lemma_newlines_extend(src: Seq<char>, from: nat, to: nat)
    requires
        from <= to < src.len(),
    ensures
        newlines(src, from, to + 1) == newlines(src, from, to) + (if src[to as int] == '\n' {
            1nat
        } else {
            0nat
        }),
    decreases to - from,
{
    if from < to {
        lemma_newlines_extend(src, from + 1, to);
    } else {
        assert(newlines(src, to + 1, to + 1) == 0);
    }
}

proof fn lemma_run_end_bounds(src: Seq<char>, pos: nat, word: bool)
    requires
        pos <= src.len(),
    ensures
        pos <= run_end(src, pos, word) <= src.len(),
    decreases src.len() - pos,
{
    if pos < src.len() && (digit(src[pos as int]) || (word && alpha(src[pos as int]))) {
        lemma_run_end_bounds(src, pos + 1, word);
    }
}

proof fn lemma_quote_end_bounds(src: Seq<char>, pos: nat)
    requires
        pos <= src.len(),
    ensures
        pos <= quote_end(src, pos) <= src.len(),
    decreases src.len() - pos,
{
    if pos < src.len() && src[pos as int] != '"' {
        lemma_quote_end_bounds(src, pos + 1);
    }
}

proof fn lemma_skip_end_bounds(src: Seq<char>, pos: nat, in_comment: bool)
    requires
        pos <= src.len(),
    ensures
        pos <= skip_end(src, pos, in_comment) <= src.len(),
    decreases src.len() - pos,
{
    if pos < src.len() {
        if in_comment {
            lemma_skip_end_bounds(src, pos + 1, src[pos as int] != '\n');
        } else if src[pos as int] == '\n' || whitespace(src[pos as int]) {
            lemma_skip_end_bounds(src, pos + 1, false);
        } else if src[pos as int] == '/' && pos + 1 < src.len() && src[pos + 1int] == '/' {
            lemma_skip_end_bounds(src, pos + 2, true);
        }
    }
}

/// Whitespace and comments from `pos` end inside the source, not before
/// `pos`.
pub proof fn lemma_skip_bounds(src: Seq<char>, pos: nat)
    requires
        pos <= src.len(),
    ensures
        pos <= skip_end(src, pos, false) <= src.len(),
{
    lemma_skip_end_bounds(src, pos, false);
}

/// Every token ends after it starts, inside the source.
pub proof fn lemma_token_at_bounds(src: Seq<char>, s: nat)
    requires
        s < src.len(),
    ensures
        s < token_at(src, s).1 <= src.len(),
{
    lemma_run_end_bounds(src, s + 1, true);
    lemma_run_end_bounds(src, s + 1, false);
    lemma_quote_end_bounds(src, s + 1);
    let d = run_end(src, s + 1, false);
    if d + 1 < src.len() {
        lemma_run_end_bounds(src, d + 1, false);
    }
}

/// A lexeme that agrees with a keyword on its first `begin` characters is
/// that keyword exactly when the rest agrees too.
proof fn lemma_lexeme_is(lex: Seq<char>, begin: int, kw: Seq<char>)
    requires
        0 <= begin <= kw.len(),
        begin <= lex.len(),
        forall|i: int| 0 <= i < begin ==> lex[i] == kw[i],
    ensures
        (lex == kw) == (lex.len() == begin + kw.skip(begin).len() && lex.skip(begin) == kw.skip(
            begin,
        )),
{
    if lex.len() == begin + kw.skip(begin).len() && lex.skip(begin) == kw.skip(begin) {
        assert forall|i: int| 0 <= i < lex.len() implies lex[i] == kw[i] by {
            if i >= begin {
                assert(lex.skip(begin)[i - begin] == kw.skip(begin)[i - begin]);
            }
        }
        assert(lex =~= kw);
    }
    if lex == kw {
        assert(lex.skip(begin) =~= kw.skip(begin));
    }
}

/// Decimal digits, as `char::is_digit(10)` tells them.
pub fn is_digit(c: char) -> (r: bool)
    ensures
        r == digit(c),
{
    '0' <= c && c <= '9'
}

/// The type of a one-character token.
fn single_token(c: char) -> (r: Option<TokenType>)
    ensures
        r == single_kind(c),
{
    match c {
        '(' => Some(TokenType::LeftParen),
        ')' => Some(TokenType::RightParen),
        '{' => Some(TokenType::LeftBrace),
        '}' => Some(TokenType::RightBrace),
        ';' => Some(TokenType::Semicolon),
        ',' => Some(TokenType::Comma),
        '.' => Some(TokenType::Dot),
        '-' => Some(TokenType::Minus),
        '+' => Some(TokenType::Plus),
        '/' => Some(TokenType::Slash),
        '*' => Some(TokenType::Star),
        _ => None,
    }
}

/// The types of a token that may be followed by `=`.
fn pair_token(c: char) -> (r: Option<(TokenType, TokenType)>)
    ensures
        r == pair_kinds(c),
{
    match c {
        '!' => Some((TokenType::Bang, TokenType::BangEqual)),
        '=' => Some((TokenType::Equal, TokenType::EqualEqual)),
        '<' => Some((TokenType::Less, TokenType::LessEqual)),
        '>' => Some((TokenType::Greater, TokenType::GreaterEqual)),
        _ => None,
    }
}

/// Reads source text one character at a time; `start` is where the current
/// token began and `current` the next character.
pub struct Scanner {
    pub source: Vec<char>,
    pub start: usize,
    pub current: usize,
    pub line: i32,
}

impl Scanner {
    pub open spec fn wf(&self) -> bool {
        self.start <= self.current <= self.source@.len()
    }

    /// The characters of the current token.
    pub open spec fn lexeme(&self) -> Seq<char> {
        self.source@.subrange(self.start as int, self.current as int)
    }

    pub fn new(source: &str) -> (r: Scanner)
        ensures
            r.wf(),
            r.source@ == source@,
            r.start == 0,
            r.current == 0,
            r.line == 1,
    {
        let n = source.unicode_len();
        let mut chars: Vec<char> = Vec::new();
        let mut i: usize = 0;
        while i < n
            invariant
                i <= n,
                n == source@.len(),
                chars@ == source@.take(i as int),
            decreases n - i,
        {
            chars.push(source.get_char(i));
            i = i + 1;
            assert(chars@ =~= source@.take(i as int));
        }
        assert(chars@ =~= source@);
        Scanner { source: chars, start: 0, current: 0, line: 1 }
    }

    pub fn is_at_end(&self) -> (r: bool)
        ensures
            r == (self.current >= self.source@.len()),
    {
        self.current >= self.source.len()
    }

    /// The next character, not consumed.
    pub fn peek(&self) -> (r: Option<char>)
        ensures
            self.current < self.source@.len() ==> r == Some(self.source@[self.current as int]),
            self.current >= self.source@.len() ==> r is None,
    {
        if self.current < self.source.len() {
            Some(self.source[self.current])
        } else {
            None
        }
    }

    /// The character after the next, not consumed.
    pub fn peek_next(&self) -> (r: Option<char>)
        ensures
            self.current + 1 < self.source@.len() ==> r == Some(
                self.source@[self.current + 1int],
            ),
            self.current + 1 >= self.source@.len() ==> r is None,
    {
        if self.current < self.source.len() && self.current + 1 < self.source.len() {
            Some(self.source[self.current + 1])
        } else {
            None
        }
    }

    /// Consumes and gives the next character; `None` at the end.
    pub fn advance(&mut self) -> (r: Option<char>)
        requires
            old(self).wf(),
        ensures
            final(self).wf(),
            final(self).source == old(self).source,
            final(self).start == old(self).start,
            final(self).line == old(self).line,
            old(self).current < old(self).source@.len() ==> r == Some(
                old(self).source@[old(self).current as int],
            ) && final(self).current == old(self).current + 1,
            old(self).current >= old(self).source@.len() ==> r is None && final(self).current
                == old(self).current,
    {
        if self.current < self.source.len() {
            let c = self.source[self.current];
            self.current = self.current + 1;
            Some(c)
        } else {
            None
        }
    }

    /// Consumes the next character when it is `expected`.
    pub fn matches(&mut self, expected: char) -> (r: bool)
        requires
            old(self).wf(),
        ensures
            final(self).wf(),
            final(self).source == old(self).source,
            final(self).start == old(self).start,
            final(self).line == old(self).line,
            r == (old(self).current < old(self).source@.len()
                && old(self).source@[old(self).current as int] == expected),
            final(self).current == old(self).current + if r {
                1int
            } else {
                0int
            },
    {
        if self.current >= self.source.len() || self.source[self.current] != expected {
            false
        } else {
            self.current = self.current + 1;
            true
        }
    }

    pub fn is_alpha(&self, c: char) -> (r: bool)
        ensures
            r == alpha(c),
    {
        is_alphabetic_char(c) || c == '_'
    }

    /// The characters of the current token.
    pub fn get_lexeme(&self) -> (r: Vec<char>)
        requires
            self.wf(),
        ensures
            r@ == self.lexeme(),
    {
        let mut out: Vec<char> = Vec::new();
        let mut i: usize = self.start;
        while i < self.current
            invariant
                self.wf(),
                self.start <= i <= self.current,
                out@ == self.source@.subrange(self.start as int, i as int),
            decreases self.current - i,
        {
            out.push(self.source[i]);
            i = i + 1;
            assert(out@ =~= self.source@.subrange(self.start as int, i as int));
        }
        out
    }

    pub fn make_token(&self, kind: TokenType) -> (r: Token)
        requires
            self.wf(),
        ensures
            r.kind == kind,
            r.lexeme@ == self.lexeme(),
            r.length == self.current - self.start,
            r.line == self.line,
    {
        Token {
            kind,
            lexeme: self.get_lexeme(),
            length: self.current - self.start,
            line: self.line,
        }
    }

    fn next_line(&mut self)
        ensures
            final(self).line == bump(old(self).line, 1),
            final(self).source == old(self).source,
            final(self).start == old(self).start,
            final(self).current == old(self).current,
    {
        if self.line < i32::MAX {
            self.line = self.line + 1;
        }
    }

    /// Skips whitespace, line breaks (counting them) and `//` comments up to
    /// the end of their line.
    pub fn skip_whitespace(&mut self)
        requires
            old(self).wf(),
        ensures
            final(self).wf(),
            final(self).source == old(self).source,
            final(self).start == old(self).start,
            final(self).current == skip_end(old(self).source@, old(self).current as nat, false),
            final(self).line == bump(
                old(self).line,
                newlines(old(self).source@, old(self).current as nat, final(self).current as nat),
            ),
    {
        let ghost src = self.source@;
        let ghost from = self.current as nat;
        let mut in_comment = false;
        loop
            invariant
                self.wf(),
                self.source == old(self).source,
                self.source@ == src,
                src == old(self).source@,
                from == old(self).current,
                self.start == old(self).start,
                from <= self.current <= src.len(),
                skip_end(src, self.current as nat, in_comment) == skip_end(src, from, false),
                self.line == bump(old(self).line, newlines(src, from, self.current as nat)),
            decreases src.len() - self.current,
        {
            let c = match self.peek() {
                Some(c) => c,
                None => {
                    assert(skip_end(src, self.current as nat, in_comment) == self.current);
                    return;
                },
            };
            proof {
                lemma_newlines_extend(src, from, self.current as nat);
            }
            if c == '\n' {
                self.next_line();
                self.advance();
                in_comment = false;
            } else if in_comment {
                self.advance();
            } else if is_whitespace_char(c) {
                self.advance();
            } else if c == '/' && self.peek_next() == Some('/') {
                self.advance();
                proof {
                    lemma_newlines_extend(src, from, self.current as nat);
                }
                self.advance();
                in_comment = true;
            } else {
                return;
            }
        }
    }

    /// Scans the rest of a string literal whose opening quote is consumed.
    pub fn string(&mut self) -> (r: ScanResult)
        requires
            old(self).wf(),
            old(self).start < old(self).current,
            old(self).source@[old(self).current - 1] == '"',
        ensures
            final(self).wf(),
            final(self).source == old(self).source,
            final(self).start == old(self).start,
            ({
                let src = old(self).source@;
                let e = quote_end(src, old(self).current as nat);
                &&& final(self).line == bump(
                    old(self).line,
                    newlines(src, old(self).current as nat, final(self).current as nat),
                )
                &&& if e >= src.len() {
                    final(self).current == src.len() && r == ScanResult::Error(
                        ErrorToken { message: "Unterminated string" },
                    )
                } else {
                    &&& final(self).current == e + 1
                    &&& (r matches ScanResult::Normal(t) && t.kind == TokenType::String
                        && t.lexeme@ == final(self).lexeme() && t.line == final(self).line
                        && t.length == final(self).current - final(self).start)
                }
            }),
    {
        let ghost src = self.source@;
        let ghost from = self.current as nat;
        loop
            invariant
                self.wf(),
                self.source == old(self).source,
                self.source@ == src,
                src == old(self).source@,
                from == old(self).current,
                self.start == old(self).start,
                from <= self.current <= src.len(),
                quote_end(src, self.current as nat) == quote_end(src, from),
                self.line == bump(old(self).line, newlines(src, from, self.current as nat)),
            ensures
                self.current >= src.len() || src[self.current as int] == '"',
            decreases src.len() - self.current,
        {
            let c = match self.peek() {
                Some(c) => c,
                None => {
                    break;
                },
            };
            if c == '"' {
                break;
            }
            proof {
                lemma_newlines_extend(src, from, self.current as nat);
            }
            if c == '\n' {
                self.next_line();
            }
            self.advance();
        }
        if self.is_at_end() {
            ScanResult::Error(ErrorToken::new("Unterminated string"))
        } else {
            proof {
                lemma_newlines_extend(src, from, self.current as nat);
            }
            self.advance();
            ScanResult::Normal(self.make_token(TokenType::String))
        }
    }

    /// Consumes characters while they meet `digit` (or, with `word`, also
    /// `alpha`).
    fn consume_run(&mut self, word: bool)
        requires
            old(self).wf(),
        ensures
            final(self).wf(),
            final(self).source == old(self).source,
            final(self).start == old(self).start,
            final(self).line == old(self).line,
            final(self).current == run_end(old(self).source@, old(self).current as nat, word),
            final(self).current >= old(self).current,
    {
        loop
            invariant
                self.wf(),
                self.source == old(self).source,
                self.start == old(self).start,
                self.line == old(self).line,
                old(self).current <= self.current,
                run_end(self.source@, self.current as nat, word) == run_end(
                    old(self).source@,
                    old(self).current as nat,
                    word,
                ),
            ensures
                self.current == run_end(self.source@, self.current as nat, word),
            decreases self.source@.len() - self.current,
        {
            let c = match self.peek() {
                Some(c) => c,
                None => {
                    break;
                },
            };
            if is_digit(c) || (word && self.is_alpha(c)) {
                self.advance();
            } else {
                break;
            }
        }
    }

    /// Scans the rest of a number literal whose first digit is consumed.
    pub fn number(&mut self) -> (r: ScanResult)
        requires
            old(self).wf(),
            old(self).start < old(self).current,
        ensures
            final(self).wf(),
            final(self).source == old(self).source,
            final(self).start == old(self).start,
            final(self).line == old(self).line,
            final(self).current == number_end(old(self).source@, (old(self).current - 1) as nat),
            r matches ScanResult::Normal(t) && t.kind == TokenType::Number
                && t.lexeme@ == final(self).lexeme() && t.line == final(self).line
                && t.length == final(self).current - final(self).start,
    {
        self.consume_run(false);
        if self.peek() == Some('.') {
            match self.peek_next() {
                Some(c) => {
                    if is_digit(c) {
                        self.advance();
                        self.consume_run(false);
                    }
                },
                None => {},
            }
        }
        ScanResult::Normal(self.make_token(TokenType::Number))
    }

    /// Scans the rest of an identifier or keyword whose first character is
    /// consumed.
    pub fn identifier(&mut self) -> (r: ScanResult)
        requires
            old(self).wf(),
            old(self).start < old(self).current,
        ensures
            final(self).wf(),
            final(self).source == old(self).source,
            final(self).start == old(self).start,
            final(self).line == old(self).line,
            final(self).current == run_end(old(self).source@, old(self).current as nat, true),
            r matches ScanResult::Normal(t) && t.kind == keyword_kind(final(self).lexeme())
                && t.lexeme@ == final(self).lexeme() && t.line == final(self).line && t.length
                == final(self).current - final(self).start,
    {
        self.consume_run(true);
        let kind = self.identifier_type();
        ScanResult::Normal(self.make_token(kind))
    }

    /// The type of the current identifier-shaped token: a keyword's type or
    /// `Identifier`.
    #[verifier::spinoff_prover]
    #[verifier::rlimit(40)]
    pub fn identifier_type(&self) -> (r: TokenType)
        requires
            self.wf(),
            self.start < self.current,
        ensures
            r == keyword_kind(self.lexeme()),
    {
        let lex = Ghost(self.lexeme());
        let first = self.source[self.start];
        proof {
            assert(lex@[0] == first);
            reveal_strlit("nd");
            reveal_strlit("lass");
            reveal_strlit("lse");
            reveal_strlit("f");
            reveal_strlit("il");
            reveal_strlit("r");
            reveal_strlit("rint");
            reveal_strlit("eturn");
            reveal_strlit("uper");
            reveal_strlit("ar");
            reveal_strlit("hile");
            reveal_strlit("n");
            reveal_strlit("is");
            reveal_strlit("ue");
        }
        match first {
            'a' => {
                proof {
                    lemma_lexeme_is(lex@, 1, seq!['a', 'n', 'd']);
                    assert("nd"@ =~= seq!['a', 'n', 'd'].skip(1));
                }
                self.check_keyword(1, "nd", TokenType::And)
            },
            'c' => {
                proof {
                    lemma_lexeme_is(lex@, 1, seq!['c', 'l', 'a', 's', 's']);
                    assert("lass"@ =~= seq!['c', 'l', 'a', 's', 's'].skip(1));
                }
                self.check_keyword(1, "lass", TokenType::Class)
            },
            'e' => {
                proof {
                    lemma_lexeme_is(lex@, 1, seq!['e', 'l', 's', 'e']);
                    assert("lse"@ =~= seq!['e', 'l', 's', 'e'].skip(1));
                }
                self.check_keyword(1, "lse", TokenType::Else)
            },
            'i' => {
                proof {
                    lemma_lexeme_is(lex@, 1, seq!['i', 'f']);
                    assert("f"@ =~= seq!['i', 'f'].skip(1));
                }
                self.check_keyword(1, "f", TokenType::If)
            },
            'n' => {
                proof {
                    lemma_lexeme_is(lex@, 1, seq!['n', 'i', 'l']);
                    assert("il"@ =~= seq!['n', 'i', 'l'].skip(1));
                }
                self.check_keyword(1, "il", TokenType::Nil)
            },
            'o' => {
                proof {
                    lemma_lexeme_is(lex@, 1, seq!['o', 'r']);
                    assert("r"@ =~= seq!['o', 'r'].skip(1));
                }
                self.check_keyword(1, "r", TokenType::Or)
            },
            'p' => {
                proof {
                    lemma_lexeme_is(lex@, 1, seq!['p', 'r', 'i', 'n', 't']);
                    assert("rint"@ =~= seq!['p', 'r', 'i', 'n', 't'].skip(1));
                }
                self.check_keyword(1, "rint", TokenType::Print)
            },
            'r' => {
                proof {
                    lemma_lexeme_is(lex@, 1, seq!['r', 'e', 't', 'u', 'r', 'n']);
                    assert("eturn"@ =~= seq!['r', 'e', 't', 'u', 'r', 'n'].skip(1));
                }
                self.check_keyword(1, "eturn", TokenType::Return)
            },
            's' => {
                proof {
                    lemma_lexeme_is(lex@, 1, seq!['s', 'u', 'p', 'e', 'r']);
                    assert("uper"@ =~= seq!['s', 'u', 'p', 'e', 'r'].skip(1));
                }
                self.check_keyword(1, "uper", TokenType::Super)
            },
            'v' => {
                proof {
                    lemma_lexeme_is(lex@, 1, seq!['v', 'a', 'r']);
                    assert("ar"@ =~= seq!['v', 'a', 'r'].skip(1));
                }
                self.check_keyword(1, "ar", TokenType::Var)
            },
            'w' => {
                proof {
                    lemma_lexeme_is(lex@, 1, seq!['w', 'h', 'i', 'l', 'e']);
                    assert("hile"@ =~= seq!['w', 'h', 'i', 'l', 'e'].skip(1));
                }
                self.check_keyword(1, "hile", TokenType::While)
            },
            'f' => {
                if self.current - self.start > 1 {
                    let second = self.source[self.start + 1];
                    proof { assert(lex@[1] == second); }
                    match second {
                        'a' => {
                            proof {
                                lemma_lexeme_is(lex@, 2, seq!['f', 'a', 'l', 's', 'e']);
                                assert("lse"@ =~= seq!['f', 'a', 'l', 's', 'e'].skip(2));
                            }
                            self.check_keyword(2, "lse", TokenType::False)
                        },
                        'o' => {
                            proof {
                                lemma_lexeme_is(lex@, 2, seq!['f', 'o', 'r']);
                                assert("r"@ =~= seq!['f', 'o', 'r'].skip(2));
                            }
                            self.check_keyword(2, "r", TokenType::For)
                        },
                        'u' => {
                            proof {
                                lemma_lexeme_is(lex@, 2, seq!['f', 'u', 'n']);
                                assert("n"@ =~= seq!['f', 'u', 'n'].skip(2));
                            }
                            self.check_keyword(2, "n", TokenType::Fun)
                        },
                        _ => TokenType::Identifier,
                    }
                } else {
                    TokenType::Identifier
                }
            },
            't' => {
                if self.current - self.start > 1 {
                    let second = self.source[self.start + 1];
                    proof { assert(lex@[1] == second); }
                    match second {
                        'h' => {
                            proof {
                                lemma_lexeme_is(lex@, 2, seq!['t', 'h', 'i', 's']);
                                assert("is"@ =~= seq!['t', 'h', 'i', 's'].skip(2));
                            }
                            self.check_keyword(2, "is", TokenType::This)
                        },
                        'r' => {
                            proof {
                                lemma_lexeme_is(lex@, 2, seq!['t', 'r', 'u', 'e']);
                                assert("ue"@ =~= seq!['t', 'r', 'u', 'e'].skip(2));
                            }
                            self.check_keyword(2, "ue", TokenType::True)
                        },
                        _ => TokenType::Identifier,
                    }
                } else {
                    TokenType::Identifier
                }
            },
            _ => TokenType::Identifier,
        }
    }

    /// Skips whitespace and comments, then scans one token: the end of the
    /// source, a token, or an error for text that is no token.
    pub fn scan_token(&mut self) -> (r: ScanResult)
        requires
            old(self).wf(),
        ensures
            final(self).wf(),
            final(self).source == old(self).source,
            ({
                let src = old(self).source@;
                let s = skip_end(src, old(self).current as nat, false);
                if s >= src.len() {
                    &&& final(self).current == s
                    &&& final(self).line == bump(
                        old(self).line,
                        newlines(src, old(self).current as nat, s),
                    )
                    &&& r == ScanResult::EOF(EOFToken { line: final(self).line })
                } else {
                    let (k, e) = token_at(src, s);
                    &&& final(self).start == s
                    &&& final(self).current == e
                    &&& final(self).line == token_line(
                        src,
                        old(self).current as nat,
                        s,
                        e,
                        old(self).line,
                    )
                    &&& match k {
                        Ok(kind) => (r matches ScanResult::Normal(t) && t.kind == kind
                            && t.lexeme@ == src.subrange(s as int, e as int)
                            && t.line == final(self).line && t.length == e - s),
                        Err(m) => (r matches ScanResult::Error(et) && et.message@ == m),
                    }
                }
            }),
    {
        let ghost src = self.source@;
        let ghost from = self.current as nat;
        proof {
            lemma_skip_end_bounds(src, from, false);
        }
        self.skip_whitespace();
        self.start = self.current;
        if self.is_at_end() {
            return ScanResult::EOF(EOFToken::new(self.line));
        }
        let ghost s = self.current as nat;
        let c = match self.advance() {
            Some(c) => c,
            None => {
                return ScanResult::Error(ErrorToken::new("Unexpected character"));
            },
        };
        proof {
            reveal_strlit("Unexpected character");
            reveal_strlit("Unterminated string");
        }
        if let Some(kind) = single_token(c) {
            return ScanResult::Normal(self.make_token(kind));
        }
        if let Some((alone, with_equal)) = pair_token(c) {
            let kind = if self.matches('=') {
                with_equal
            } else {
                alone
            };
            return ScanResult::Normal(self.make_token(kind));
        }
        if c == '"' {
            proof {
                lemma_quote_end_bounds(src, s + 1);
            }
            let r = self.string();
            proof {
                assert(newlines(src, s, self.current as nat) == newlines(
                    src,
                    s + 1,
                    self.current as nat,
                ));
            }
            return r;
        }
        if self.is_alpha(c) {
            self.identifier()
        } else if is_digit(c) {
            self.number()
        } else {
            ScanResult::Error(ErrorToken::new("Unexpected character"))
        }
    }

    /// `kind` when the current token's characters from `begin` on are `rest`
    /// and no more, else `Identifier`.
    pub fn check_keyword(&self, begin: usize, rest: &str, kind: TokenType) -> (r: TokenType)
        requires
            self.wf(),
            begin <= self.current - self.start,
        ensures
            r == if self.lexeme().len() == begin + rest@.len() && self.lexeme().skip(begin as int)
                == rest@ {
                kind
            } else {
                TokenType::Identifier
            },
    {
        let n = rest.unicode_len();
        if n != (self.current - self.start) - begin {
            return TokenType::Identifier;
        }
        let mut i: usize = 0;
        while i < n
            invariant
                self.wf(),
                i <= n,
                n == rest@.len(),
                self.current - self.start == begin + n,
                forall|j: int|
                    0 <= j < i ==> #[trigger] self.source@[self.start + begin + j] == rest@[j],
            decreases n - i,
        {
            if self.source[self.start + begin + i] != rest.get_char(i) {
                assert(self.lexeme().skip(begin as int)[i as int] != rest@[i as int]);
                return TokenType::Identifier;
            }
            i = i + 1;
        }
        assert forall|j: int| 0 <= j < n implies #[trigger] self.lexeme().skip(begin as int)[j]
            == rest@[j] by {
            assert(self.source@[self.start + begin + j] == rest@[j]);
        }
        assert(self.lexeme().skip(begin as int) =~= rest@);
        kind
    }
}

} // verus!
