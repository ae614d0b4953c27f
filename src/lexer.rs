//! Source text to tokens.
use vstd::prelude::*;
use crate::number::{Num, numeral_units, is_digit};
use crate::text::{chars_of, string_of};
use crate::tokens::Token;
use crate::values::Value;

verus! {

pub open spec fn is_ident_start(c: char) -> bool {
    ('a' <= c <= 'z') || ('A' <= c <= 'Z') || c == '_'
}

pub open spec fn is_ident_char(c: char) -> bool {
    is_ident_start(c) || is_digit(c)
}

/// The character that `\c` stands for inside a quoted string.
pub open spec fn escaped(c: char) -> char {
    if c == 'n' {
        '\n'
    } else if c == 't' {
        '\t'
    } else {
        c
    }
}

/// Reads the body of a quoted string from position `i`, with `acc` read so
/// far: the decoded text and the position after the closing quote, or `None`
/// when the input ends first.
pub open spec fn scan_quoted(s: Seq<char>, i: int, acc: Seq<char>) -> Option<(Seq<char>, int)>
    decreases s.len() - i,
{
    if i < 0 || i >= s.len() {
        None
    } else if s[i] == '"' {
        Some((acc, i + 1))
    } else if s[i] == '\\' {
        if i + 1 < s.len() {
            scan_quoted(s, i + 2, acc.push(escaped(s[i + 1])))
        } else {
            None
        }
    } else {
        scan_quoted(s, i + 1, acc.push(s[i]))
    }
}

/// Whether a closing long bracket of level `level` starts at `q`.
pub open spec fn closes_at(s: Seq<char>, q: int, level: nat) -> bool {
    &&& 0 <= q
    &&& q + level + 1 < s.len()
    &&& s[q] == ']'
    &&& forall|j: int| q < j <= q + level ==> s[j] == '='
    &&& s[q + level + 1] == ']'
}

/// The first position at or after `i` where a closing bracket of `level`
/// starts, if any.
pub open spec fn first_close(s: Seq<char>, i: int, level: nat) -> Option<int>
    decreases s.len() - i,
{
    if i < 0 || i >= s.len() {
        None
    } else if closes_at(s, i, level) {
        Some(i)
    } else {
        first_close(s, i + 1, level)
    }
}

/// The end of the longest run of digits and dots from `i`.
pub open spec fn numeral_end(s: Seq<char>, i: int) -> int
    decreases s.len() - i,
{
    if i < 0 || i >= s.len() || !numeral_char(s[i]) {
        i
    } else {
        numeral_end(s, i + 1)
    }
}

/// The end of the longest run of name characters from `i`.
pub open spec fn ident_end(s: Seq<char>, i: int) -> int
    decreases s.len() - i,
{
    if i < 0 || i >= s.len() || !is_ident_char(s[i]) {
        i
    } else {
        ident_end(s, i + 1)
    }
}

proof fn lemma_ident_end(s: Seq<char>, i: int)
    requires
        0 <= i,
    ensures
        ident_end(s, i) >= i,
    decreases s.len() - i,
{
    if i < s.len() && is_ident_char(s[i]) {
        lemma_ident_end(s, i + 1);
    }
}

proof fn lemma_numeral_end(s: Seq<char>, i: int)
    requires
        0 <= i,
    ensures
        numeral_end(s, i) >= i,
    decreases s.len() - i,
{
    if i < s.len() && numeral_char(s[i]) {
        lemma_numeral_end(s, i + 1);
    }
}

pub open spec fn numeral_char(c: char) -> bool {
    is_digit(c) || c == '.'
}

/// The keyword or word literal that `w` spells, if any.
pub open spec fn keyword(w: Seq<char>) -> Option<Token> {
    if w == "and"@ {
        Some(Token::And)
    } else if w == "break"@ {
        Some(Token::Break)
    } else if w == "do"@ {
        Some(Token::Do)
    } else if w == "else"@ {
        Some(Token::Else)
    } else if w == "elseif"@ {
        Some(Token::Elseif)
    } else if w == "end"@ {
        Some(Token::End)
    } else if w == "false"@ {
        Some(Token::Literal(Value::Boolean(false)))
    } else if w == "for"@ {
        Some(Token::For)
    } else if w == "function"@ {
        Some(Token::Function)
    } else if w == "goto"@ {
        Some(Token::Goto)
    } else if w == "if"@ {
        Some(Token::If)
    } else if w == "in"@ {
        Some(Token::In)
    } else if w == "local"@ {
        Some(Token::Local)
    } else if w == "nil"@ {
        Some(Token::Literal(Value::Nil))
    } else if w == "not"@ {
        Some(Token::Not)
    } else if w == "or"@ {
        Some(Token::Or)
    } else if w == "repeat"@ {
        Some(Token::Repeat)
    } else if w == "return"@ {
        Some(Token::Return)
    } else if w == "then"@ {
        Some(Token::Then)
    } else if w == "true"@ {
        Some(Token::Literal(Value::Boolean(true)))
    } else if w == "until"@ {
        Some(Token::Until)
    } else if w == "while"@ {
        Some(Token::While)
    } else {
        None
    }
}

/// Whether `w` spells `s`.
fn word_is(w: &[char], s: &str) -> (r: bool)
    ensures
        r == (w@ == s@),
{
    let t = chars_of(s);
    if w.len() != t.len() {
        return false;
    }
    let mut i: usize = 0;
    while i < w.len()
        invariant
            i <= w@.len(),
            w@.len() == t@.len(),
            t@ == s@,
            forall|j: int| 0 <= j < i ==> w@[j] == t@[j],
        decreases w@.len() - i,
    {
        if w[i] != t[i] {
            assert(w@[i as int] != s@[i as int]);
            return false;
        }
        i = i + 1;
    }
    assert(w@ =~= t@);
    true
}

fn keyword_of(w: &[char]) -> (r: Option<Token>)
    ensures
        r == keyword(w@),
{
    if word_is(w, "and") {
        Some(Token::And)
    } else if word_is(w, "break") {
        Some(Token::Break)
    } else if word_is(w, "do") {
        Some(Token::Do)
    } else if word_is(w, "else") {
        Some(Token::Else)
    } else if word_is(w, "elseif") {
        Some(Token::Elseif)
    } else if word_is(w, "end") {
        Some(Token::End)
    } else if word_is(w, "false") {
        Some(Token::Literal(Value::Boolean(false)))
    } else if word_is(w, "for") {
        Some(Token::For)
    } else if word_is(w, "function") {
        Some(Token::Function)
    } else if word_is(w, "goto") {
        Some(Token::Goto)
    } else if word_is(w, "if") {
        Some(Token::If)
    } else if word_is(w, "in") {
        Some(Token::In)
    } else if word_is(w, "local") {
        Some(Token::Local)
    } else if word_is(w, "nil") {
        Some(Token::Literal(Value::Nil))
    } else if word_is(w, "not") {
        Some(Token::Not)
    } else if word_is(w, "or") {
        Some(Token::Or)
    } else if word_is(w, "repeat") {
        Some(Token::Repeat)
    } else if word_is(w, "return") {
        Some(Token::Return)
    } else if word_is(w, "then") {
        Some(Token::Then)
    } else if word_is(w, "true") {
        Some(Token::Literal(Value::Boolean(true)))
    } else if word_is(w, "until") {
        Some(Token::Until)
    } else if word_is(w, "while") {
        Some(Token::While)
    } else {
        None
    }
}

fn err(s: &str) -> (r: String)
    ensures
        r@ == s@,
{
    String::from_str(s)
}

/// The end of the run of `=` from `i`.
pub open spec fn eq_end(s: Seq<char>, i: int) -> int
    decreases s.len() - i,
{
    if i < 0 || i >= s.len() || s[i] != '=' {
        i
    } else {
        eq_end(s, i + 1)
    }
}

/// The position of the first newline at or after `i`, or the length.
pub open spec fn line_end(s: Seq<char>, i: int) -> int
    decreases s.len() - i,
{
    if i < 0 || i >= s.len() || s[i] == '\n' {
        i
    } else {
        line_end(s, i + 1)
    }
}

/// The level of a long bracket whose `[` is just before `i`: the number of
/// `=` from `i`, if a second `[` follows them.
pub open spec fn long_level(s: Seq<char>, i: int) -> Option<nat> {
    let e = eq_end(s, i);
    if 0 <= i <= e < s.len() && s[e] == '[' {
        Some((e - i) as nat)
    } else {
        None
    }
}

/// Where a comment whose `--` ends just before `i` stops: after the
/// closing bracket of a long comment, or at the end of the line; `None`
/// for a long comment that is never closed.
pub open spec fn comment_end(s: Seq<char>, i: int) -> Option<int> {
    if 0 <= i < s.len() && s[i] == '[' {
        match long_level(s, i + 1) {
            Some(l) => match first_close(s, i + 1 + l + 1, l) {
                Some(q) => Some(q + l + 2),
                None => None,
            },
            None => Some(line_end(s, i + 1)),
        }
    } else {
        Some(line_end(s, i))
    }
}

/// A token as the lexer's contract speaks of it: names and strings by
/// their text.
pub enum Lexeme {
    Tok(Token),
    Name(Seq<char>),
    Str(Seq<char>),
}

pub open spec fn lexeme(t: Token) -> Lexeme {
    match t {
        Token::Identifier(n) => Lexeme::Name(n@),
        Token::Literal(Value::String(b)) => Lexeme::Str(b@),
        _ => Lexeme::Tok(t),
    }
}

/// What the lexer does at position `i`: skips to a position, gives a token
/// and the position after it, or fails.
pub enum LexStep {
    Skip(int),
    Emit(Lexeme, int),
    Fail,
}

pub open spec fn lex_step(s: Seq<char>, i: int) -> LexStep {
    let c = s[i];
    let next = if i + 1 < s.len() { Some(s[i + 1]) } else { None::<char> };
    if c == ' ' || c == '\t' || c == '\n' || c == '\r' {
        LexStep::Skip(i + 1)
    } else if is_digit(c) || (c == '.' && next is Some && is_digit(next.unwrap())) {
        let e = numeral_end(s, i);
        match numeral_units(s.subrange(i, e)) {
            Some(u) => LexStep::Emit(Lexeme::Tok(Token::Literal(Value::Number(Num { units: u as i64 }))), e),
            None => LexStep::Fail,
        }
    } else if c == '-' && next == Some('-') {
        match comment_end(s, i + 2) {
            Some(e) => LexStep::Skip(e),
            None => LexStep::Fail,
        }
    } else if c == '+' || c == '-' || c == '*' || c == '/' || c == '%' || c == '<' || c == '>' || c == '='
        || c == '~' {
        match operator(c, next) {
            Some((t, n)) => LexStep::Emit(Lexeme::Tok(t), i + n),
            None => LexStep::Fail,
        }
    } else if is_ident_char(c) {
        let e = ident_end(s, i);
        let w = s.subrange(i, e);
        match keyword(w) {
            Some(k) => LexStep::Emit(Lexeme::Tok(k), e),
            None => LexStep::Emit(Lexeme::Name(w), e),
        }
    } else if c == '"' {
        match scan_quoted(s, i + 1, Seq::empty()) {
            Some((b, e)) => LexStep::Emit(Lexeme::Str(b), e),
            None => LexStep::Fail,
        }
    } else if c == '.' {
        if next == Some('.') {
            if i + 2 < s.len() && s[i + 2] == '.' {
                LexStep::Emit(Lexeme::Tok(Token::Varargs), i + 3)
            } else {
                LexStep::Emit(Lexeme::Tok(Token::Concatenation), i + 2)
            }
        } else {
            LexStep::Emit(Lexeme::Tok(Token::Period), i + 1)
        }
    } else if c == '[' {
        match long_level(s, i + 1) {
            Some(l) => {
                let b = i + 1 + l + 1;
                match first_close(s, b, l) {
                    Some(q) => LexStep::Emit(Lexeme::Str(s.subrange(b, q)), q + l + 2),
                    None => LexStep::Fail,
                }
            },
            None => LexStep::Emit(Lexeme::Tok(Token::LeftSquareBracket), i + 1),
        }
    } else {
        match punctuation(c) {
            Some(t) => LexStep::Emit(Lexeme::Tok(t), i + 1),
            None => LexStep::Fail,
        }
    }
}

/// The tokens of `s` from position `i` on, or `None` when lexing fails.
pub open spec fn lex_from(s: Seq<char>, i: int) -> Option<Seq<Lexeme>>
    decreases s.len() - i,
{
    if i < 0 || i >= s.len() {
        Some(Seq::empty())
    } else {
        match lex_step(s, i) {
            LexStep::Skip(j) => if i < j <= s.len() {
                lex_from(s, j)
            } else {
                None
            },
            LexStep::Emit(l, j) => if i < j <= s.len() {
                match lex_from(s, j) {
                    Some(rest) => Some(seq![l] + rest),
                    None => None,
                }
            } else {
                None
            },
            LexStep::Fail => None,
        }
    }
}

/// `xs` before the tokens of `o`, if there are any.
pub open spec fn glue(xs: Seq<Lexeme>, o: Option<Seq<Lexeme>>) -> Option<Seq<Lexeme>> {
    match o {
        Some(r) => Some(xs + r),
        None => None,
    }
}

/// The operator that starts with `c`, followed by `next`, and its length.
pub open spec fn operator(c: char, next: Option<char>) -> Option<(Token, int)> {
    let eq = next == Some('=');
    if c == '+' {
        Some((Token::Plus, 1))
    } else if c == '-' {
        Some((Token::Minus, 1))
    } else if c == '*' {
        Some((Token::Star, 1))
    } else if c == '/' {
        Some((Token::ForwardSlash, 1))
    } else if c == '%' {
        Some((Token::Percent, 1))
    } else if c == '=' {
        if eq { Some((Token::Equals, 2)) } else { Some((Token::Assign, 1)) }
    } else if c == '<' {
        if eq { Some((Token::LessThanOrEqual, 2)) } else { Some((Token::LessThan, 1)) }
    } else if c == '>' {
        if eq { Some((Token::GreaterThanOrEqual, 2)) } else { Some((Token::GreaterThan, 1)) }
    } else if c == '~' && eq {
        Some((Token::NotEquals, 2))
    } else {
        None
    }
}

/// The punctuation token of a single character.
pub open spec fn punctuation(c: char) -> Option<Token> {
    if c == '(' {
        Some(Token::LeftParens)
    } else if c == ')' {
        Some(Token::RightParens)
    } else if c == '{' {
        Some(Token::LeftCurlyBrace)
    } else if c == '}' {
        Some(Token::RightCurlyBrace)
    } else if c == ']' {
        Some(Token::RightSquareBracket)
    } else if c == ',' {
        Some(Token::Comma)
    } else if c == ';' {
        Some(Token::Semicolon)
    } else if c == '#' {
        Some(Token::Pound)
    } else {
        None
    }
}

fn punctuation_of(c: char) -> (r: Option<Token>)
    ensures
        r == punctuation(c),
{
    if c == '(' {
        Some(Token::LeftParens)
    } else if c == ')' {
        Some(Token::RightParens)
    } else if c == '{' {
        Some(Token::LeftCurlyBrace)
    } else if c == '}' {
        Some(Token::RightCurlyBrace)
    } else if c == ']' {
        Some(Token::RightSquareBracket)
    } else if c == ',' {
        Some(Token::Comma)
    } else if c == ';' {
        Some(Token::Semicolon)
    } else if c == '#' {
        Some(Token::Pound)
    } else {
        None
    }
}

pub struct Lexer {
    pub chars: Vec<char>,
    pub current: usize,
}

impl Lexer {
    pub open spec fn source(&self) -> Seq<char> {
        self.chars@
    }

    pub open spec fn pos(&self) -> int {
        self.current as int
    }

    pub fn new(s: &str) -> (r: Lexer)
        ensures
            r.source() == s@,
            r.pos() == 0,
    {
        Lexer { chars: chars_of(s), current: 0 }
    }

    pub fn at_eof(&self) -> (r: bool)
        ensures
            r == (self.pos() >= self.source().len()),
    {
        self.current >= self.chars.len()
    }

    /// The character at the current position, if any.
    pub fn current_char(&self) -> (r: Option<char>)
        ensures
            r == (if self.pos() < self.source().len() {
                Some(self.source()[self.pos()])
            } else {
                None::<char>
            }),
    {
        if self.current < self.chars.len() {
            Some(self.chars[self.current])
        } else {
            None
        }
    }

    /// The character after the current one, if any.
    pub fn peek_next_char(&self) -> (r: Option<char>)
        requires
            self.pos() <= self.source().len(),
        ensures
            r == (if self.pos() + 1 < self.source().len() {
                Some(self.source()[self.pos() + 1])
            } else {
                None::<char>
            }),
    {
        if self.current < self.chars.len() && self.current + 1 < self.chars.len() {
            Some(self.chars[self.current + 1])
        } else {
            None
        }
    }

    /// Moves one character on.
    pub fn advance(&mut self)
        requires
            old(self).pos() < old(self).source().len(),
        ensures
            final(self).source() == old(self).source(),
            final(self).pos() == old(self).pos() + 1,
    {
        let n = self.chars.len();
        assert(self.current < n);
        self.current = self.current + 1;
    }

    /// Whether `c` begins an arithmetic or comparison operator.
    pub fn is_operator(c: char) -> (r: bool)
        ensures
            r == (c == '+' || c == '-' || c == '*' || c == '/' || c == '%' || c == '<' || c == '>'
                || c == '=' || c == '~'),
    {
        c == '+' || c == '-' || c == '*' || c == '/' || c == '%' || c == '<' || c == '>' || c == '='
            || c == '~'
    }

    /// Reads an operator.
    fn lex_operator(&mut self) -> (r: Result<Token, String>)
        requires
            old(self).pos() < old(self).source().len(),
        ensures
            final(self).source() == old(self).source(),
            final(self).pos() <= final(self).source().len(),
            r is Ok ==> final(self).pos() > old(self).pos(),
            ({
                let s = old(self).source();
                let p = old(self).pos();
                let next = if p + 1 < s.len() { Some(s[p + 1]) } else { None::<char> };
                match operator(s[p], next) {
                    Some((t, n)) => r == Ok::<Token, String>(t) && final(self).pos() == p + n,
                    None => r is Err && final(self).pos() == p,
                }
            }),
    {
        let c = self.chars[self.current];
        let eq = self.peek_next_char() == Some('=');
        let t = if c == '+' {
            Token::Plus
        } else if c == '-' {
            Token::Minus
        } else if c == '*' {
            Token::Star
        } else if c == '/' {
            Token::ForwardSlash
        } else if c == '%' {
            Token::Percent
        } else if c == '=' {
            if eq { Token::Equals } else { Token::Assign }
        } else if c == '<' {
            if eq { Token::LessThanOrEqual } else { Token::LessThan }
        } else if c == '>' {
            if eq { Token::GreaterThanOrEqual } else { Token::GreaterThan }
        } else if c == '~' && eq {
            Token::NotEquals
        } else {
            return Err(err("unexpected symbol"));
        };
        self.advance();
        if eq && (c == '=' || c == '<' || c == '>' || c == '~') {
            self.advance();
        }
        Ok(t)
    }

    /// After a `[`: when `=`* and a second `[` follow, moves past them and
    /// gives the number of `=`; otherwise stays put.
    fn long_open(&mut self) -> (r: Option<usize>)
        requires
            old(self).pos() <= old(self).source().len(),
        ensures
            final(self).source() == old(self).source(),
            final(self).pos() <= final(self).source().len(),
            match r {
                Some(level) => {
                    &&& final(self).pos() == old(self).pos() + level + 1
                    &&& long_level(old(self).source(), old(self).pos()) == Some(level as nat)
                },
                None => final(self).pos() == old(self).pos() && long_level(old(self).source(), old(self).pos()) is None,
            },
    {
        let level = self.count_level();
        let n = self.chars.len();
        if level < n - self.current && self.chars[self.current + level] == '[' {
            let target = self.current + level + 1;
            while self.current < target
                invariant
                    self.chars@ == old(self).chars@,
                    old(self).current <= self.current <= target,
                    target <= n,
                    n == self.chars@.len(),
                decreases target - self.current,
            {
                self.advance();
            }
            Some(level)
        } else {
            None
        }
    }

    /// Skips a comment; the `--` is behind.  A long bracket opens a long
    /// comment, anything else a comment to the end of the line.
    fn skip_comment(&mut self) -> (r: Result<(), String>)
        requires
            old(self).pos() <= old(self).source().len(),
        ensures
            final(self).source() == old(self).source(),
            final(self).pos() <= final(self).source().len(),
            final(self).pos() >= old(self).pos(),
            match comment_end(old(self).source(), old(self).pos()) {
                Some(e) => r is Ok && final(self).pos() == e,
                None => r is Err,
            },
    {
        if self.current_char() == Some('[') {
            self.advance();
            if let Some(level) = self.long_open() {
                let body = self.lex_long_string(level);
                return match body {
                    Ok(_) => Ok(()),
                    Err(e) => Err(e),
                };
            }
        }
        let ghost from = self.current as int;
        while self.current < self.chars.len() && self.chars[self.current] != '\n'
            invariant
                self.chars@ == old(self).chars@,
                old(self).current <= self.current <= self.chars@.len(),
                line_end(self.chars@, from) == line_end(self.chars@, self.current as int),
            decreases self.chars@.len() - self.current,
        {
            self.advance();
        }
        Ok(())
    }

    /// Reads the whole source.  Whitespace separates tokens; `--` starts a
    /// comment; `[` followed by `=`* and `[` starts a long string.  The
    /// tokens are those of `lex_from`, and lexing fails exactly when it
    /// does.
    pub fn tokenize(&mut self) -> (r: Result<Vec<Token>, String>)
        requires
            old(self).pos() <= old(self).source().len(),
        ensures
            final(self).source() == old(self).source(),
            r is Ok <==> lex_from(old(self).source(), old(self).pos()) is Some,
            r is Ok ==> r->Ok_0@.map_values(|t: Token| lexeme(t)) == lex_from(old(self).source(), old(self).pos()).unwrap(),
            r is Ok ==> final(self).pos() == final(self).source().len(),
    {
        let mut ret: Vec<Token> = Vec::new();
        let n = self.chars.len();
        let ghost s = self.chars@;
        let ghost start = self.current as int;
        while self.current < n
            invariant
                n == self.chars@.len(),
                self.chars@ == old(self).chars@,
                s == self.chars@,
                start == old(self).current,
                start <= self.current <= n,
                lex_from(s, start) == glue(ret@.map_values(|t: Token| lexeme(t)), lex_from(s, self.current as int)),
            decreases n - self.current,
        {
            let ghost i = self.current as int;
            let ghost before = ret@.map_values(|t: Token| lexeme(t));
            let c = self.chars[self.current];
            let next = self.peek_next_char();
            if c == ' ' || c == '\t' || c == '\n' || c == '\r' {
                self.advance();
            } else if is_digit_char(c) || (c == '.' && next.is_some() && is_digit_char(next.unwrap())) {
                match self.lex_number() {
                    Ok(t) => ret.push(t),
                    Err(e) => return Err(e),
                }
            } else if c == '-' && next == Some('-') {
                self.advance();
                self.advance();
                match self.skip_comment() {
                    Ok(()) => {},
                    Err(e) => return Err(e),
                }
            } else if Lexer::is_operator(c) {
                match self.lex_operator() {
                    Ok(t) => ret.push(t),
                    Err(e) => return Err(e),
                }
            } else if is_ident_char_exec(c) {
                let t = self.lex_identifier();
                ret.push(t);
            } else if c == '"' {
                self.advance();
                match self.lex_string() {
                    Ok(t) => ret.push(t),
                    Err(e) => return Err(e),
                }
            } else if c == '.' {
                if next == Some('.') {
                    self.advance();
                    self.advance();
                    if self.current_char() == Some('.') {
                        self.advance();
                        ret.push(Token::Varargs);
                    } else {
                        ret.push(Token::Concatenation);
                    }
                } else {
                    self.advance();
                    ret.push(Token::Period);
                }
            } else if c == '[' {
                self.advance();
                if let Some(level) = self.long_open() {
                    match self.lex_long_string(level) {
                        Ok(b) => ret.push(Token::Literal(Value::String(b))),
                        Err(e) => return Err(e),
                    }
                } else {
                    ret.push(Token::LeftSquareBracket);
                }
            } else {
                match punctuation_of(c) {
                    Some(t) => {
                        self.advance();
                        ret.push(t);
                    },
                    None => return Err(err("unexpected character")),
                }
            }
            assert(self.current > i) by {
                lemma_ident_end(self.chars@, i + 1);
                lemma_numeral_end(self.chars@, i + 1);
            }
            proof {
                let after = ret@.map_values(|t: Token| lexeme(t));
                let j = self.current as int;
                if after.len() == before.len() {
                    assert(after =~= before);
                    assert(lex_step(s, i) == LexStep::Skip(j));
                } else {
                    let l = lexeme(ret@.last());
                    assert(after =~= before + seq![l]);
                    assert(lex_step(s, i) == LexStep::Emit(l, j));
                    match lex_from(s, j) {
                        Some(rest) => {
                            assert(before + (seq![l] + rest) =~= after + rest);
                        },
                        None => {},
                    }
                }
            }
        }
        proof {
            assert(ret@.map_values(|t: Token| lexeme(t)) + Seq::<Lexeme>::empty() =~= ret@.map_values(|t: Token| lexeme(t)));
        }
        Ok(ret)
    }

    /// Reads a run of digits and dots as a number.
    fn lex_number(&mut self) -> (r: Result<Token, String>)
        requires
            old(self).pos() < old(self).source().len(),
        ensures
            final(self).source() == old(self).source(),
            final(self).pos() == numeral_end(old(self).source(), old(self).pos()),
            final(self).pos() > old(self).pos() || r is Err,
            final(self).pos() <= final(self).source().len(),
            match r {
                Ok(t) => {
                    let u = numeral_units(old(self).source().subrange(old(self).pos(), final(self).pos()));
                    u is Some && t == Token::Literal(Value::Number(Num { units: u.unwrap() as i64 }))
                },
                Err(_) => numeral_units(old(self).source().subrange(old(self).pos(), final(self).pos())) is None,
            },
    {
        let start = self.current;
        let ghost s = self.chars@;
        while self.current < self.chars.len() && (is_digit_char(self.chars[self.current])
            || self.chars[self.current] == '.')
            invariant
                self.chars@ == s,
                start <= self.current <= s.len(),
                numeral_end(s, start as int) == numeral_end(s, self.current as int),
            decreases s.len() - self.current,
        {
            self.current = self.current + 1;
        }
        let mut v: Vec<char> = Vec::new();
        let mut i = start;
        while i < self.current
            invariant
                start <= i <= self.current <= self.chars@.len(),
                v@ == self.chars@.subrange(start as int, i as int),
            decreases self.current - i,
        {
            v.push(self.chars[i]);
            i = i + 1;
        }
        match Num::parse(v.as_slice()) {
            Some(n) => Ok(Token::Literal(Value::Number(n))),
            None => Err(err("malformed number")),
        }
    }

    /// Reads a name: a keyword, a word literal or an identifier.
    fn lex_identifier(&mut self) -> (r: Token)
        requires
            old(self).pos() <= old(self).source().len(),
        ensures
            final(self).source() == old(self).source(),
            final(self).pos() == ident_end(old(self).source(), old(self).pos()),
            final(self).pos() >= old(self).pos(),
            final(self).pos() <= final(self).source().len(),
            ({
                let w = old(self).source().subrange(old(self).pos(), final(self).pos());
                match keyword(w) {
                    Some(k) => r == k,
                    None => r matches Token::Identifier(n) && n@ == w,
                }
            }),
    {
        let start = self.current;
        let ghost s = self.chars@;
        while self.current < self.chars.len() && is_ident_char_exec(self.chars[self.current])
            invariant
                self.chars@ == s,
                start <= self.current <= s.len(),
                ident_end(s, start as int) == ident_end(s, self.current as int),
            decreases s.len() - self.current,
        {
            self.current = self.current + 1;
        }
        let mut v: Vec<char> = Vec::new();
        let mut i = start;
        while i < self.current
            invariant
                start <= i <= self.current <= self.chars@.len(),
                v@ == self.chars@.subrange(start as int, i as int),
            decreases self.current - i,
        {
            v.push(self.chars[i]);
            i = i + 1;
        }
        match keyword_of(v.as_slice()) {
            Some(k) => k,
            None => Token::Identifier(string_of(v.as_slice())),
        }
    }

    /// Reads the body of a quoted string; the opening quote is behind.
    fn lex_string(&mut self) -> (r: Result<Token, String>)
        requires
            old(self).pos() <= old(self).source().len(),
        ensures
            final(self).source() == old(self).source(),
            final(self).pos() <= final(self).source().len(),
            final(self).pos() >= old(self).pos(),
            match scan_quoted(old(self).source(), old(self).pos(), Seq::empty()) {
                Some((body, end)) => r matches Ok(Token::Literal(Value::String(b))) && b@ == body
                    && final(self).pos() == end,
                None => r is Err,
            },
    {
        let ghost s = self.chars@;
        let ghost start = self.current as int;
        let mut acc: Vec<char> = Vec::new();
        loop
            invariant
                self.chars@ == s,
                s == old(self).chars@,
                start == old(self).current,
                start <= self.current <= s.len(),
                scan_quoted(s, start, Seq::empty()) == scan_quoted(s, self.current as int, acc@),
            decreases s.len() - self.current,
        {
            if self.current >= self.chars.len() {
                return Err(err("unfinished string"));
            }
            let c = self.chars[self.current];
            if c == '"' {
                self.current = self.current + 1;
                return Ok(Token::Literal(Value::String(string_of(acc.as_slice()))));
            } else if c == '\\' {
                if self.current + 1 >= self.chars.len() {
                    return Err(err("unfinished string"));
                }
                let e = self.chars[self.current + 1];
                let d = if e == 'n' {
                    '\n'
                } else if e == 't' {
                    '\t'
                } else {
                    e
                };
                acc.push(d);
                self.current = self.current + 2;
            } else {
                acc.push(c);
                self.current = self.current + 1;
            }
        }
    }

    /// Counts the `=` signs from the current position, without moving.
    fn count_level(&self) -> (r: usize)
        requires
            self.pos() <= self.source().len(),
        ensures
            self.pos() + r <= self.source().len(),
            forall|j: int| self.pos() <= j < self.pos() + r ==> self.source()[j] == '=',
            self.pos() + r == self.source().len() || self.source()[self.pos() + r] != '=',
            self.pos() + r == eq_end(self.source(), self.pos()),
    {
        let mut k: usize = 0;
        let n = self.chars.len();
        while k < n - self.current && self.chars[self.current + k] == '='
            invariant
                n == self.chars@.len(),
                eq_end(self.chars@, self.current as int) == eq_end(self.chars@, self.current + k),
                self.current + k <= self.chars@.len(),
                forall|j: int| self.current <= j < self.current + k ==> self.chars@[j] == '=',
            decreases self.chars@.len() - self.current - k,
        {
            k = k + 1;
        }
        k
    }

    /// Whether a closing bracket of `level` starts at `q`.
    fn closes_here(&self, q: usize, level: usize) -> (r: bool)
        ensures
            r == closes_at(self.source(), q as int, level as nat),
    {
        let n = self.chars.len();
        if q >= n || level >= n - q - 1 {
            return false;
        }
        if self.chars[q] != ']' || self.chars[q + level + 1] != ']' {
            return false;
        }
        let mut j: usize = 1;
        while j <= level
            invariant
                1 <= j <= level + 1,
                q + level + 1 < n,
                n == self.chars@.len(),
                forall|t: int| q < t < q + j ==> self.chars@[t] == '=',
            decreases level + 1 - j,
        {
            if self.chars[q + j] != '=' {
                return false;
            }
            j = j + 1;
        }
        true
    }

    /// Reads a long string or comment body of `level`; the opening bracket is
    /// behind.  The text is everything before the first closing bracket of the
    /// same level.
    fn lex_long_string(&mut self, level: usize) -> (r: Result<String, String>)
        requires
            old(self).pos() <= old(self).source().len(),
        ensures
            final(self).source() == old(self).source(),
            final(self).pos() <= final(self).source().len(),
            final(self).pos() >= old(self).pos(),
            match first_close(old(self).source(), old(self).pos(), level as nat) {
                Some(q) => r matches Ok(b) && b@ == old(self).source().subrange(old(self).pos(), q)
                    && final(self).pos() == q + level + 2,
                None => r is Err,
            },
    {
        let ghost s = self.chars@;
        let start = self.current;
        let mut q = self.current;
        while q < self.chars.len()
            invariant
                self.chars@ == s,
                s == old(self).chars@,
                start == old(self).current,
                self.current == start,
                start <= q <= s.len(),
                first_close(s, start as int, level as nat) == first_close(s, q as int, level as nat),
            decreases s.len() - q,
        {
            if self.closes_here(q, level) {
                let mut v: Vec<char> = Vec::new();
                let mut i = start;
                while i < q
                    invariant
                        start <= i <= q <= self.chars@.len(),
                        v@ == self.chars@.subrange(start as int, i as int),
                    decreases q - i,
                {
                    v.push(self.chars[i]);
                    i = i + 1;
                }
                self.current = q + level + 2;
                return Ok(string_of(v.as_slice()));
            }
            q = q + 1;
        }
        Err(err("unfinished long bracket"))
    }
}

fn is_digit_char(c: char) -> (r: bool)
    ensures
        r == is_digit(c),
{
    '0' <= c && c <= '9'
}

fn is_ident_char_exec(c: char) -> (r: bool)
    ensures
        r == is_ident_char(c),
{
    ('a' <= c && c <= 'z') || ('A' <= c && c <= 'Z') || c == '_' || ('0' <= c && c <= '9')
}

} // verus!
