//! The bytecode scanner: produces one token at a time, on demand.
use vstd::prelude::*;
use crate::bvm::token::{keyword_kind, Token, TokenType};
use crate::lexer::keywords::keyword_of;
use crate::lexer::scanner::{alpha, digit, digits_end, lemma_newlines_bound, newlines, number_end, word_end};
use crate::text::{is_alpha, is_alphanum, is_digit, string_of};

verus! {

/// A scanning error: the error token and its message.
#[derive(Debug)]
pub struct ScanError {
    token: Token,
    message: &'static str,
}

impl ScanError {
    /// The error token.
    pub closed spec fn spec_token(&self) -> Token {
        self.token
    }

    /// The error message.
    pub closed spec fn spec_message(&self) -> Seq<char> {
        self.message@
    }

    fn new(message: &'static str, token: Token) -> (e: ScanError)
        ensures
            e.spec_token() == token,
            e.spec_message() == message@,
    {
        ScanError { token, message }
    }

    /// The error token.
    pub fn token(&self) -> (t: Token)
        ensures
            t == self.spec_token(),
    {
        self.token
    }

    /// The error message.
    pub fn message(&self) -> (m: &'static str)
        ensures
            m@ == self.spec_message(),
    {
        self.message
    }
}

/// The first position at or after `i` holding `c` or the terminating `'\0'`.
pub open spec fn find_stop(src: Seq<char>, i: int, c: char) -> int
    decreases src.len() - i,
{
    if 0 <= i < src.len() && src[i] != c && src[i] != '\0' {
        find_stop(src, i + 1, c)
    } else {
        i
    }
}

/// Where the next lexeme starts after spaces, line breaks and comments from `i`,
/// and the line there.
pub open spec fn skip_space(src: Seq<char>, i: int, line: int) -> (int, int)
    decreases src.len() - i,
{
    if !(0 <= i < src.len()) {
        (i, line)
    } else {
        let c = src[i];
        if c == ' ' || c == '\r' || c == '\t' {
            skip_space(src, i + 1, line)
        } else if c == '\n' {
            skip_space(src, i + 1, line + 1)
        } else if c == '/' && i + 1 < src.len() && src[i + 1] == '/' {
            let j = find_stop(src, i, '\n');
            if i < j <= src.len() { skip_space(src, j, line) } else { (i, line) }
        } else {
            (i, line)
        }
    }
}

/// The kind of the word `word`: its reserved word, or `Identifier`.
pub open spec fn word_type(word: Seq<char>) -> TokenType {
    match keyword_of(word) {
        Some(k) => keyword_kind(k),
        None => TokenType::Identifier,
    }
}

/// The token of kind `kind` spanning `[s, e)` on `line`.
pub open spec fn span(kind: TokenType, s: int, e: int, line: int) -> Token {
    Token { kind, start: s as usize, length: (e - s) as usize, line: line as isize }
}

/// What one call of the scanner yields: a token or an error (token and message),
/// where the next call starts, and the line there.
pub struct Lexed {
    pub outcome: Result<Token, (Token, Seq<char>)>,
    pub next: int,
    pub line: int,
}

/// A one or two character token: `two` when `src[n]` is `=`.
pub open spec fn lexed_pair(src: Seq<char>, s: int, line: int, one: TokenType, two: TokenType) -> Lexed {
    if src[s + 1] == '=' {
        Lexed { outcome: Ok(span(two, s, s + 2, line)), next: s + 2, line }
    } else {
        Lexed { outcome: Ok(span(one, s, s + 1, line)), next: s + 1, line }
    }
}

/// A single character token.
pub open spec fn lexed_one(s: int, line: int, kind: TokenType) -> Lexed {
    Lexed { outcome: Ok(span(kind, s, s + 1, line)), next: s + 1, line }
}

/// The next token of `src` from position `pos` on line `line`.
pub open spec fn scan_next(src: Seq<char>, pos: int, line: int) -> Lexed {
    let (s, l) = skip_space(src, pos, line);
    let c = src[s];
    let n = s + 1;
    if c == '\0' { Lexed { outcome: Ok(span(TokenType::EoF, s, s, l)), next: s, line: l } }
    else if c == '(' { lexed_one(s, l, TokenType::LeftParen) }
    else if c == ')' { lexed_one(s, l, TokenType::RightParen) }
    else if c == '{' { lexed_one(s, l, TokenType::LeftBrace) }
    else if c == '}' { lexed_one(s, l, TokenType::RightBrace) }
    else if c == ';' { lexed_one(s, l, TokenType::Semicolon) }
    else if c == ',' { lexed_one(s, l, TokenType::Comma) }
    else if c == '.' { lexed_one(s, l, TokenType::Dot) }
    else if c == '-' { lexed_one(s, l, TokenType::Minus) }
    else if c == '+' { lexed_one(s, l, TokenType::Plus) }
    else if c == '/' { lexed_one(s, l, TokenType::Slash) }
    else if c == '*' { lexed_one(s, l, TokenType::Star) }
    else if c == '!' { lexed_pair(src, s, l, TokenType::Bang, TokenType::BangEqual) }
    else if c == '=' { lexed_pair(src, s, l, TokenType::Equal, TokenType::EqualEqual) }
    else if c == '<' { lexed_pair(src, s, l, TokenType::Less, TokenType::LessEqual) }
    else if c == '>' { lexed_pair(src, s, l, TokenType::Greater, TokenType::GreaterEqual) }
    else if c == '"' {
        let e = find_stop(src, n, '"');
        let l2 = l + newlines(src, n, e);
        if src[e] == '\0' {
            Lexed { outcome: Err((span(TokenType::Error, s, e, l2), "Unterminated string."@)), next: e, line: l2 }
        } else {
            Lexed { outcome: Ok(span(TokenType::String, s, e + 1, l2)), next: e + 1, line: l2 }
        }
    }
    else if is_digit(c) {
        let e = number_end(src, n);
        Lexed { outcome: Ok(span(TokenType::Number, s, e, l)), next: e, line: l }
    }
    else if is_alpha(c) {
        let e = word_end(src, n);
        Lexed { outcome: Ok(span(word_type(src.subrange(s, e)), s, e, l)), next: e, line: l }
    }
    else {
        Lexed { outcome: Err((span(TokenType::Error, s, n, l), "Unexpected character."@)), next: n, line: l }
    }
}

/// The position of the terminating `'\0'`.
pub open spec fn stop_of(src: Seq<char>) -> int {
    find_stop(src, 0, '\0')
}

proof fn lemma_find_stop(src: Seq<char>, i: int, c: char)
    requires
        0 <= i <= src.len(),
    ensures
        i <= find_stop(src, i, c) <= src.len(),
        forall|k: int| i <= k < find_stop(src, i, c) ==> #[trigger] src[k] != '\0' && src[k] != c,
        find_stop(src, i, c) < src.len() ==> src[find_stop(src, i, c)] == c || src[find_stop(src, i, c)] == '\0',
    decreases src.len() - i,
{
    if i < src.len() && src[i] != c && src[i] != '\0' {
        lemma_find_stop(src, i + 1, c);
    }
}

proof fn lemma_digits_end_ge(src: Seq<char>, i: int)
    ensures
        digits_end(src, i) >= i,
    decreases src.len() - i,
{
    if 0 <= i < src.len() && is_digit(src[i]) {
        lemma_digits_end_ge(src, i + 1);
    }
}

proof fn lemma_word_end_ge(src: Seq<char>, i: int)
    ensures
        word_end(src, i) >= i,
    decreases src.len() - i,
{
    if 0 <= i < src.len() && is_alphanum(src[i]) {
        lemma_word_end_ge(src, i + 1);
    }
}

proof fn lemma_skip_space_ge(src: Seq<char>, i: int, line: int)
    ensures
        skip_space(src, i, line).0 >= i,
        skip_space(src, i, line).1 >= line,
    decreases src.len() - i,
{
    if 0 <= i < src.len() {
        let c = src[i];
        if c == ' ' || c == '\r' || c == '\t' {
            lemma_skip_space_ge(src, i + 1, line);
        } else if c == '\n' {
            lemma_skip_space_ge(src, i + 1, line + 1);
        } else if c == '/' && i + 1 < src.len() && src[i + 1] == '/' {
            let j = find_stop(src, i, '\n');
            if i < j <= src.len() {
                lemma_skip_space_ge(src, j, line);
            }
        }
    }
}

/// One call of the scanner never moves back, and moves on unless it yields the
/// end of file; a string token spans at least its two quotes.
pub proof fn lemma_scan_progress(src: Seq<char>, pos: int, line: int)
    requires
        0 <= pos,
        skip_space(src, pos, line).0 < src.len(),
        src.len() < isize::MAX,
    ensures
        scan_next(src, pos, line).next >= pos,
        scan_next(src, pos, line).line >= line,
        (scan_next(src, pos, line).outcome is Err || scan_next(src, pos, line).outcome->Ok_0.kind != TokenType::EoF)
            ==> scan_next(src, pos, line).next > pos,
        scan_next(src, pos, line).outcome matches Ok(t) ==> (t.kind == TokenType::String ==> t.length >= 2),
{
    lemma_skip_space_ge(src, pos, line);
    let (s, l) = skip_space(src, pos, line);
    let n = s + 1;
    lemma_find_stop(src, n, '"');
    lemma_digits_end_ge(src, n);
    lemma_word_end_ge(src, n);
    let e = find_stop(src, n, '"');
    crate::lexer::scanner::lemma_newlines_bound(src, n, e);
    if is_digit(src[s]) {
        let d = digits_end(src, n);
        if d + 1 < src.len() && src[d] == '.' && is_digit(src[d + 1]) {
            lemma_digits_end_ge(src, d + 1);
        }
    }
}

/// A scanner over a source text, terminated by `'\0'`.
pub struct Scanner {
    source: Vec<char>,
    start: usize,
    current: usize,
    line: isize,
}

impl Scanner {
    /// The source text with its terminating `'\0'`.
    pub closed spec fn text(&self) -> Seq<char> {
        self.source@
    }

    /// The position of the next character is inside the text.
    pub proof fn lemma_position_bounds(&self)
        requires
            self.wf(),
        ensures
            0 <= self.position() < self.text().len(),
            self.text().len() < isize::MAX,
    {
        self.lemma_in_bounds();
    }

    /// The position of the next character to read.
    pub closed spec fn position(&self) -> int {
        self.current as int
    }

    /// The current line.
    pub closed spec fn spec_line(&self) -> int {
        self.line as int
    }

    /// The scanner's bookkeeping is consistent: it never reads past the first `'\0'`.
    pub closed spec fn wf(&self) -> bool {
        &&& self.source@.len() > 0
        &&& self.source@.last() == '\0'
        &&& self.source@.len() < isize::MAX
        &&& self.start <= self.current
        &&& forall|k: int| 0 <= k < self.current ==> #[trigger] self.source@[k] != '\0'
        &&& 1 <= self.line <= self.current + 1
    }

    /// A scanner at the start of `source` (terminated by an added `'\0'`), on line 1.
    pub fn new(source: String) -> (s: Scanner)
        requires
            source@.len() + 1 < isize::MAX,
        ensures
            s.wf(),
            s.text() == source@.push('\0'),
            s.position() == 0,
            s.spec_line() == 1,
    {
        let mut chars = crate::text::chars_of(source.as_str());
        chars.push('\0');
        Scanner { source: chars, start: 0, current: 0, line: 1 }
    }

    /// The next token, or the error for the next lexeme. At the end of the
    /// source every call yields the end-of-file token.
    pub fn scan_token(&mut self) -> (r: Result<Token, ScanError>)
        requires
            old(self).wf(),
        ensures
            final(self).wf(),
            final(self).text() == old(self).text(),
            ({
                let x = scan_next(old(self).text(), old(self).position(), old(self).spec_line());
                &&& final(self).position() == x.next
                &&& final(self).spec_line() == x.line
                &&& match (r, x.outcome) {
                    (Ok(t), Ok(u)) => t == u,
                    (Err(e), Err((u, m))) => e.spec_token() == u && e.spec_message() == m,
                    _ => false,
                }
            }),
            old(self).position() <= final(self).position(),
            old(self).spec_line() <= final(self).spec_line(),
            (r is Err || r->Ok_0.kind != TokenType::EoF) ==> old(self).position() < final(self).position(),
            r matches Ok(t) ==> (t.kind == TokenType::String ==> t.length >= 2),
    {
        let ghost src = self.source@;
        let ghost pos = self.current as int;
        let ghost line = self.line as int;
        self.skip_whitespace();
        self.start = self.current;
        proof {
            assert(skip_space(src, pos, line) == (self.current as int, self.line as int));
            self.lemma_in_bounds();
            lemma_scan_progress(src, pos, line);
        }

        if self.is_end() {
            return Ok(self.make_token(TokenType::EoF));
        }

        let c = self.advance();
        if c == '(' { Ok(self.make_token(TokenType::LeftParen)) }
        else if c == ')' { Ok(self.make_token(TokenType::RightParen)) }
        else if c == '{' { Ok(self.make_token(TokenType::LeftBrace)) }
        else if c == '}' { Ok(self.make_token(TokenType::RightBrace)) }
        else if c == ';' { Ok(self.make_token(TokenType::Semicolon)) }
        else if c == ',' { Ok(self.make_token(TokenType::Comma)) }
        else if c == '.' { Ok(self.make_token(TokenType::Dot)) }
        else if c == '-' { Ok(self.make_token(TokenType::Minus)) }
        else if c == '+' { Ok(self.make_token(TokenType::Plus)) }
        else if c == '/' { Ok(self.make_token(TokenType::Slash)) }
        else if c == '*' { Ok(self.make_token(TokenType::Star)) }
        else if c == '!' {
            if self.complete('=') { Ok(self.make_token(TokenType::BangEqual)) } else { Ok(self.make_token(TokenType::Bang)) }
        } else if c == '=' {
            if self.complete('=') { Ok(self.make_token(TokenType::EqualEqual)) } else { Ok(self.make_token(TokenType::Equal)) }
        } else if c == '<' {
            if self.complete('=') { Ok(self.make_token(TokenType::LessEqual)) } else { Ok(self.make_token(TokenType::Less)) }
        } else if c == '>' {
            if self.complete('=') { Ok(self.make_token(TokenType::GreaterEqual)) } else { Ok(self.make_token(TokenType::Greater)) }
        } else if c == '"' {
            self.string()
        } else if digit(c) {
            Ok(self.number())
        } else if alpha(c) {
            Ok(self.identifier())
        } else {
            Err(self.error_token("Unexpected character."))
        }
    }

    /// The text `length` characters long from `begin`, cut at the end of the source.
    pub fn lexeme(&self, begin: usize, length: usize) -> (s: String)
        requires
            self.wf(),
        ensures
            ({
                let len = self.text().len() as int;
                let b = if begin < len { begin as int } else { len };
                let e = if begin + length < len { begin + length } else { len };
                s@ == self.text().subrange(b, e)
            }),
    {
        let len = self.source.len();
        let b = if begin < len { begin } else { len };
        let e = if length <= len - b { b + length } else { len };
        string_of(&self.source, b, e)
    }

    fn make_token(&self, kind: TokenType) -> (t: Token)
        requires
            self.wf(),
        ensures
            t == span(kind, self.start as int, self.current as int, self.line as int),
    {
        Token::new(kind, self.start, self.current - self.start, self.line)
    }

    fn error_token(&self, message: &'static str) -> (e: ScanError)
        requires
            self.wf(),
        ensures
            e.spec_token() == span(TokenType::Error, self.start as int, self.current as int, self.line as int),
            e.spec_message() == message@,
    {
        ScanError::new(message, self.make_token(TokenType::Error))
    }

    fn advance(&mut self) -> (c: char)
        requires
            old(self).wf(),
            old(self).source@[old(self).current as int] != '\0',
            old(self).current < old(self).source@.len(),
        ensures
            final(self).wf(),
            c == old(self).source@[old(self).current as int],
            final(self).current == old(self).current + 1,
            final(self).source@ == old(self).source@,
            final(self).start == old(self).start,
            final(self).line == old(self).line,
    {
        self.current = self.current + 1;
        self.source[self.current - 1]
    }

    /// Consumes the next character if it is `expected`.
    fn complete(&mut self, expected: char) -> (b: bool)
        requires
            old(self).wf(),
            expected != '\0',
        ensures
            final(self).wf(),
            b == (old(self).source@[old(self).current as int] == expected),
            final(self).current == old(self).current + if b { 1usize } else { 0usize },
            final(self).source@ == old(self).source@,
            final(self).start == old(self).start,
            final(self).line == old(self).line,
    {
        proof { self.lemma_in_bounds(); }
        if self.is_end() {
            return false;
        }
        if self.source[self.current] != expected {
            return false;
        }
        self.current = self.current + 1;
        true
    }

    proof fn lemma_in_bounds(&self)
        requires
            self.wf(),
        ensures
            self.current < self.source@.len(),
    {
        if self.current >= self.source@.len() {
            assert(self.source@[self.source@.len() - 1] != '\0');
        }
    }

    fn string(&mut self) -> (r: Result<Token, ScanError>)
        requires
            old(self).wf(),
            old(self).current == old(self).start + 1,
            old(self).line <= old(self).current,
            old(self).source@[old(self).start as int] == '"',
        ensures
            final(self).wf(),
            final(self).source@ == old(self).source@,
            ({
                let n = old(self).current as int;
                let src = old(self).source@;
                let s = old(self).start as int;
                let e = find_stop(src, n, '"');
                let l2 = old(self).line + newlines(src, n, e);
                &&& final(self).line == l2
                &&& if src[e] == '\0' {
                    &&& final(self).current == e
                    &&& r matches Err(err) && err.spec_token() == span(TokenType::Error, s, e, l2)
                        && err.spec_message() == "Unterminated string."@
                } else {
                    &&& final(self).current == e + 1
                    &&& r matches Ok(t) && t == span(TokenType::String, s, e + 1, l2)
                }
            }),
    {
        let ghost src = self.source@;
        let ghost n = self.current as int;
        proof {
            self.lemma_in_bounds();
            lemma_find_stop(src, n, '"');
        }
        while self.peek() != '"' && !self.is_end()
            invariant
                self.wf(),
                self.source@ == src,
                self.start == old(self).start,
                n <= self.current,
                self.line == old(self).line + newlines(src, n, self.current as int),
                self.line <= self.current,
                find_stop(src, self.current as int, '"') == find_stop(src, n, '"'),
            decreases self.source@.len() - self.current,
        {
            proof {
                self.lemma_in_bounds();
                crate::lexer::scanner::lemma_newlines_bound(src, n, self.current as int + 1);
            }
            let nl = self.peek() == '\n';
            self.advance();
            if nl {
                self.line = self.line + 1;
            }
        }
        proof { self.lemma_in_bounds(); }

        if self.is_end() {
            return Err(self.error_token("Unterminated string."));
        }

        // The closing quote.
        self.advance();
        Ok(self.make_token(TokenType::String))
    }

    fn is_digit(&self, c: char) -> (b: bool)
        ensures
            b == is_digit(c),
    {
        digit(c)
    }

    fn number(&mut self) -> (t: Token)
        requires
            old(self).wf(),
            old(self).current == old(self).start + 1,
        ensures
            final(self).wf(),
            final(self).source@ == old(self).source@,
            final(self).line == old(self).line,
            final(self).current == number_end(old(self).source@, old(self).current as int),
            t == span(TokenType::Number, old(self).start as int,
                number_end(old(self).source@, old(self).current as int), old(self).line as int),
    {
        let ghost src = self.source@;
        let ghost n = self.current as int;
        proof { self.lemma_in_bounds(); }
        while self.is_digit(self.peek())
            invariant
                self.wf(),
                self.source@ == src,
                self.start == old(self).start,
                self.line == old(self).line,
                n <= self.current,
                digits_end(src, self.current as int) == digits_end(src, n),
            decreases self.source@.len() - self.current,
        {
            proof { self.lemma_in_bounds(); }
            self.advance();
        }
        proof { self.lemma_in_bounds(); }

        // Look for a fractional part.
        if self.peek() == '.' && self.is_digit(self.peek_next()) {
            // Consume the ".".
            self.advance();
            let ghost m = self.current as int;
            proof { self.lemma_in_bounds(); }
            while self.is_digit(self.peek())
                invariant
                    self.wf(),
                    self.source@ == src,
                    self.start == old(self).start,
                    self.line == old(self).line,
                    m <= self.current,
                    digits_end(src, self.current as int) == digits_end(src, m),
                decreases self.source@.len() - self.current,
            {
                proof { self.lemma_in_bounds(); }
                self.advance();
            }
        }

        self.make_token(TokenType::Number)
    }

    fn is_alpha(&self, c: char) -> (b: bool)
        ensures
            b == is_alpha(c),
    {
        alpha(c)
    }

    fn identifier(&mut self) -> (t: Token)
        requires
            old(self).wf(),
            old(self).current == old(self).start + 1,
            is_alpha(old(self).source@[old(self).start as int]),
        ensures
            final(self).wf(),
            final(self).source@ == old(self).source@,
            final(self).line == old(self).line,
            final(self).current == word_end(old(self).source@, old(self).current as int),
            t == span(word_type(old(self).source@.subrange(old(self).start as int,
                word_end(old(self).source@, old(self).current as int))), old(self).start as int,
                word_end(old(self).source@, old(self).current as int), old(self).line as int),
    {
        let ghost src = self.source@;
        let ghost n = self.current as int;
        proof { self.lemma_in_bounds(); }
        while self.is_alpha(self.peek()) || self.is_digit(self.peek())
            invariant
                self.wf(),
                self.source@ == src,
                self.start == old(self).start,
                self.line == old(self).line,
                n <= self.current,
                word_end(src, self.current as int) == word_end(src, n),
            decreases self.source@.len() - self.current,
        {
            proof { self.lemma_in_bounds(); }
            self.advance();
        }
        proof { self.lemma_in_bounds(); }
        let kind = self.identifier_type();
        self.make_token(kind)
    }

    /// The kind of the word just scanned, found by walking a trie of the reserved words.
    fn identifier_type(&self) -> (t: TokenType)
        requires
            self.wf(),
            self.start < self.current,
            self.current < self.source@.len(),
        ensures
            t == word_type(self.source@.subrange(self.start as int, self.current as int)),
    {
        let ghost w = self.source@.subrange(self.start as int, self.current as int);
        let c = self.source[self.start];
        assert(w[0] == c);
        let len = self.current - self.start;
        let t = if c == 'a' {
            { let r: [char; 2] = ['n', 'd']; assert(r@ =~= seq!['n', 'd']); self.check_keyword(1, 2, &r, TokenType::And) }
        } else if c == 'c' {
            { let r: [char; 4] = ['l', 'a', 's', 's']; assert(r@ =~= seq!['l', 'a', 's', 's']); self.check_keyword(1, 4, &r, TokenType::Class) }
        } else if c == 'e' {
            { let r: [char; 3] = ['l', 's', 'e']; assert(r@ =~= seq!['l', 's', 'e']); self.check_keyword(1, 3, &r, TokenType::Else) }
        } else if c == 'f' {
            if len > 1 {
                let d = self.source[self.start + 1];
                assert(w[1] == d);
                if d == 'a' {
                    { let r: [char; 3] = ['l', 's', 'e']; assert(r@ =~= seq!['l', 's', 'e']); self.check_keyword(2, 3, &r, TokenType::False) }
                } else if d == 'o' {
                    { let r: [char; 1] = ['r']; assert(r@ =~= seq!['r']); self.check_keyword(2, 1, &r, TokenType::For) }
                } else if d == 'u' {
                    { let r: [char; 1] = ['n']; assert(r@ =~= seq!['n']); self.check_keyword(2, 1, &r, TokenType::Fun) }
                } else {
                    TokenType::Identifier
                }
            } else {
                TokenType::Identifier
            }
        } else if c == 'i' {
            { let r: [char; 1] = ['f']; assert(r@ =~= seq!['f']); self.check_keyword(1, 1, &r, TokenType::If) }
        } else if c == 'n' {
            { let r: [char; 2] = ['i', 'l']; assert(r@ =~= seq!['i', 'l']); self.check_keyword(1, 2, &r, TokenType::Nil) }
        } else if c == 'o' {
            { let r: [char; 1] = ['r']; assert(r@ =~= seq!['r']); self.check_keyword(1, 1, &r, TokenType::Or) }
        } else if c == 'p' {
            { let r: [char; 4] = ['r', 'i', 'n', 't']; assert(r@ =~= seq!['r', 'i', 'n', 't']); self.check_keyword(1, 4, &r, TokenType::Print) }
        } else if c == 'r' {
            { let r: [char; 5] = ['e', 't', 'u', 'r', 'n']; assert(r@ =~= seq!['e', 't', 'u', 'r', 'n']); self.check_keyword(1, 5, &r, TokenType::Return) }
        } else if c == 's' {
            { let r: [char; 4] = ['u', 'p', 'e', 'r']; assert(r@ =~= seq!['u', 'p', 'e', 'r']); self.check_keyword(1, 4, &r, TokenType::Super) }
        } else if c == 't' {
            if len > 1 {
                let d = self.source[self.start + 1];
                assert(w[1] == d);
                if d == 'h' {
                    { let r: [char; 2] = ['i', 's']; assert(r@ =~= seq!['i', 's']); self.check_keyword(2, 2, &r, TokenType::This) }
                } else if d == 'r' {
                    { let r: [char; 2] = ['u', 'e']; assert(r@ =~= seq!['u', 'e']); self.check_keyword(2, 2, &r, TokenType::True) }
                } else {
                    TokenType::Identifier
                }
            } else {
                TokenType::Identifier
            }
        } else if c == 'v' {
            { let r: [char; 2] = ['a', 'r']; assert(r@ =~= seq!['a', 'r']); self.check_keyword(1, 2, &r, TokenType::Var) }
        } else if c == 'w' {
            { let r: [char; 4] = ['h', 'i', 'l', 'e']; assert(r@ =~= seq!['h', 'i', 'l', 'e']); self.check_keyword(1, 4, &r, TokenType::While) }
        } else {
            TokenType::Identifier
        };
        proof { lemma_trie_is_keyword_table(w); }
        assert(t == trie_type(w));
        t
    }

    /// `kind` when the word is `start + length` long and continues from
    /// position `start` with `rest`; otherwise `Identifier`.
    fn check_keyword(&self, start: usize, length: usize, rest: &[char], kind: TokenType) -> (t: TokenType)
        requires
            self.wf(),
            self.start < self.current < self.source@.len(),
            rest@.len() == length,
            start + length < 16,
        ensures
            ({
                let w = self.source@.subrange(self.start as int, self.current as int);
                t == if w.len() == start + length && w.subrange(start as int, w.len() as int) == rest@ {
                    kind
                } else {
                    TokenType::Identifier
                }
            }),
    {
        let ghost w = self.source@.subrange(self.start as int, self.current as int);
        if self.current - self.start == start + length && self.compare(self.start + start, rest, length) {
            assert(w.subrange(start as int, w.len() as int) =~= rest@);
            return kind;
        }
        proof {
            if w.len() == start + length && w.subrange(start as int, w.len() as int) == rest@ {
                assert(self.source@.subrange((self.start + start) as int, (self.start + start + length) as int)
                    =~= w.subrange(start as int, w.len() as int));
            }
        }
        TokenType::Identifier
    }

    /// Whether the `length` characters from `start` are `rest`.
    fn compare(&self, start: usize, rest: &[char], length: usize) -> (b: bool)
        requires
            self.wf(),
            start + length <= self.source@.len(),
            rest@.len() == length,
        ensures
            b == (self.source@.subrange(start as int, (start + length) as int) == rest@),
    {
        crate::lexer::keywords::spells(&self.source, start, start + length, rest)
    }

    fn is_end(&self) -> (b: bool)
        requires
            self.wf(),
        ensures
            b == (self.source@[self.current as int] == '\0'),
    {
        proof { self.lemma_in_bounds(); }
        self.source[self.current] == '\0'
    }

    fn skip_whitespace(&mut self)
        requires
            old(self).wf(),
        ensures
            final(self).wf(),
            final(self).source@ == old(self).source@,
            (final(self).current as int, final(self).line as int)
                == skip_space(old(self).source@, old(self).current as int, old(self).line as int),
    {
        let ghost src = self.source@;
        loop
            invariant
                self.wf(),
                self.source@ == src,
                skip_space(src, self.current as int, self.line as int)
                    == skip_space(src, old(self).current as int, old(self).line as int),
            ensures
                self.wf(),
                self.source@ == src,
                skip_space(src, self.current as int, self.line as int)
                    == (self.current as int, self.line as int),
                skip_space(src, self.current as int, self.line as int)
                    == skip_space(src, old(self).current as int, old(self).line as int),
            decreases self.source@.len() - self.current,
        {
            proof { self.lemma_in_bounds(); }
            let c = self.peek();
            if c == ' ' || c == '\r' || c == '\t' {
                self.advance();
            } else if c == '\n' {
                self.advance();
                self.line = self.line + 1;
            } else if c == '/' {
                if self.peek_next() == '/' {
                    // A comment goes until the end of the line.
                    let ghost from = self.current as int;
                    proof { lemma_find_stop(src, from, '\n'); }
                    while self.peek() != '\n' && !self.is_end()
                        invariant
                            self.wf(),
                            self.source@ == src,
                            self.line == old(self).line || true,
                            from <= self.current,
                            find_stop(src, self.current as int, '\n') == find_stop(src, from, '\n'),
                            skip_space(src, find_stop(src, from, '\n'), self.line as int)
                                == skip_space(src, old(self).current as int, old(self).line as int),
                        decreases self.source@.len() - self.current,
                    {
                        proof { self.lemma_in_bounds(); }
                        self.advance();
                    }
                } else {
                    break;
                }
            } else {
                break;
            }
        }
    }

    /// The next character.
    fn peek(&self) -> (c: char)
        requires
            self.wf(),
        ensures
            c == self.source@[self.current as int],
    {
        proof { self.lemma_in_bounds(); }
        self.source[self.current]
    }

    /// The character after the next one, or `'\0'` at the end.
    fn peek_next(&self) -> (c: char)
        requires
            self.wf(),
        ensures
            c == if self.source@[self.current as int] == '\0' { '\0' } else { self.source@[self.current + 1] },
    {
        proof { self.lemma_in_bounds(); }
        if self.is_end() {
            return '\0';
        }
        proof {
            if self.current + 1 >= self.source@.len() {
                assert(self.source@[self.current as int] == self.source@.last());
            }
        }
        self.source[self.current + 1]
    }
}

/// The kind `kind` when `w` is `start + rest.len()` long and ends with `rest`
/// from position `start`; otherwise `Identifier`.
pub open spec fn trie_rest(w: Seq<char>, start: int, rest: Seq<char>, kind: TokenType) -> TokenType {
    if w.len() == start + rest.len() && w.subrange(start, w.len() as int) == rest {
        kind
    } else {
        TokenType::Identifier
    }
}

/// The kind of a word found by walking a trie of the reserved words on its letters.
pub open spec fn trie_type(w: Seq<char>) -> TokenType {
    let c = w[0];
    if c == 'a' { trie_rest(w, 1, seq!['n', 'd'], TokenType::And) }
    else if c == 'c' { trie_rest(w, 1, seq!['l', 'a', 's', 's'], TokenType::Class) }
    else if c == 'e' { trie_rest(w, 1, seq!['l', 's', 'e'], TokenType::Else) }
    else if c == 'f' {
        if w.len() > 1 {
            if w[1] == 'a' { trie_rest(w, 2, seq!['l', 's', 'e'], TokenType::False) }
            else if w[1] == 'o' { trie_rest(w, 2, seq!['r'], TokenType::For) }
            else if w[1] == 'u' { trie_rest(w, 2, seq!['n'], TokenType::Fun) }
            else { TokenType::Identifier }
        } else { TokenType::Identifier }
    }
    else if c == 'i' { trie_rest(w, 1, seq!['f'], TokenType::If) }
    else if c == 'n' { trie_rest(w, 1, seq!['i', 'l'], TokenType::Nil) }
    else if c == 'o' { trie_rest(w, 1, seq!['r'], TokenType::Or) }
    else if c == 'p' { trie_rest(w, 1, seq!['r', 'i', 'n', 't'], TokenType::Print) }
    else if c == 'r' { trie_rest(w, 1, seq!['e', 't', 'u', 'r', 'n'], TokenType::Return) }
    else if c == 's' { trie_rest(w, 1, seq!['u', 'p', 'e', 'r'], TokenType::Super) }
    else if c == 't' {
        if w.len() > 1 {
            if w[1] == 'h' { trie_rest(w, 2, seq!['i', 's'], TokenType::This) }
            else if w[1] == 'r' { trie_rest(w, 2, seq!['u', 'e'], TokenType::True) }
            else { TokenType::Identifier }
        } else { TokenType::Identifier }
    }
    else if c == 'v' { trie_rest(w, 1, seq!['a', 'r'], TokenType::Var) }
    else if c == 'w' { trie_rest(w, 1, seq!['h', 'i', 'l', 'e'], TokenType::While) }
    else { TokenType::Identifier }
}

proof fn lemma_spelled(w: Seq<char>, start: int, word: Seq<char>)
    requires
        0 < start <= word.len(),
        w.len() >= start,
        forall|i: int| 0 <= i < start ==> w[i] == word[i],
    ensures
        (w == word) <==> (w.len() == word.len() && w.subrange(start, w.len() as int) == word.subrange(start, word.len() as int)),
{
    if w.len() == word.len() && w.subrange(start, w.len() as int) == word.subrange(start, word.len() as int) {
        assert forall|i: int| 0 <= i < w.len() implies w[i] == word[i] by {
            if i >= start {
                assert(w[i] == w.subrange(start, w.len() as int)[i - start]);
            }
        }
        assert(w =~= word);
    }
}

/// The trie of reserved words finds exactly the reserved words of the table.
pub proof fn lemma_trie_is_keyword_table(w: Seq<char>)
    requires
        w.len() >= 1,
    ensures
        trie_type(w) == word_type(w),
{
    let c = w[0];
    let p1 = w.subrange(0, 1);
    assert(p1 =~= seq![c]);
    let kws: Seq<Seq<char>> = seq![
        seq!['a', 'n', 'd'], seq!['c', 'l', 'a', 's', 's'], seq!['e', 'l', 's', 'e'],
        seq!['f', 'a', 'l', 's', 'e'], seq!['f', 'o', 'r'], seq!['f', 'u', 'n'], seq!['i', 'f'],
        seq!['n', 'i', 'l'], seq!['o', 'r'], seq!['p', 'r', 'i', 'n', 't'],
        seq!['r', 'e', 't', 'u', 'r', 'n'], seq!['s', 'u', 'p', 'e', 'r'], seq!['t', 'h', 'i', 's'],
        seq!['t', 'r', 'u', 'e'], seq!['v', 'a', 'r'], seq!['w', 'h', 'i', 'l', 'e']];
    // A word differing from a reserved word in its first letter is not that word.
    assert forall|k: int| 0 <= k < kws.len() && kws[k][0] != c implies w != #[trigger] kws[k] by {}
    if w.len() > 1 {
        let d = w[1];
        let p2 = w.subrange(0, 2);
        assert(p2 =~= seq![c, d]);
        assert forall|k: int| 0 <= k < kws.len() && kws[k].len() > 1 && kws[k][1] != d implies w != #[trigger] kws[k] by {}
    }
    if c == 'a' { lemma_spelled(w, 1, kws[0]); assert(kws[0].subrange(1, 3) =~= seq!['n', 'd']); }
    else if c == 'c' { lemma_spelled(w, 1, kws[1]); assert(kws[1].subrange(1, 5) =~= seq!['l', 'a', 's', 's']); }
    else if c == 'e' { lemma_spelled(w, 1, kws[2]); assert(kws[2].subrange(1, 4) =~= seq!['l', 's', 'e']); }
    else if c == 'f' {
        if w.len() > 1 {
            let d = w[1];
            if d == 'a' { lemma_spelled(w, 2, kws[3]); assert(kws[3].subrange(2, 5) =~= seq!['l', 's', 'e']); }
            else if d == 'o' { lemma_spelled(w, 2, kws[4]); assert(kws[4].subrange(2, 3) =~= seq!['r']); }
            else if d == 'u' { lemma_spelled(w, 2, kws[5]); assert(kws[5].subrange(2, 3) =~= seq!['n']); }
        }
    }
    else if c == 'i' { lemma_spelled(w, 1, kws[6]); assert(kws[6].subrange(1, 2) =~= seq!['f']); }
    else if c == 'n' { lemma_spelled(w, 1, kws[7]); assert(kws[7].subrange(1, 3) =~= seq!['i', 'l']); }
    else if c == 'o' { lemma_spelled(w, 1, kws[8]); assert(kws[8].subrange(1, 2) =~= seq!['r']); }
    else if c == 'p' { lemma_spelled(w, 1, kws[9]); assert(kws[9].subrange(1, 5) =~= seq!['r', 'i', 'n', 't']); }
    else if c == 'r' { lemma_spelled(w, 1, kws[10]); assert(kws[10].subrange(1, 6) =~= seq!['e', 't', 'u', 'r', 'n']); }
    else if c == 's' { lemma_spelled(w, 1, kws[11]); assert(kws[11].subrange(1, 5) =~= seq!['u', 'p', 'e', 'r']); }
    else if c == 't' {
        if w.len() > 1 {
            let d = w[1];
            if d == 'h' { lemma_spelled(w, 2, kws[12]); assert(kws[12].subrange(2, 4) =~= seq!['i', 's']); }
            else if d == 'r' { lemma_spelled(w, 2, kws[13]); assert(kws[13].subrange(2, 4) =~= seq!['u', 'e']); }
        }
    }
    else if c == 'v' { lemma_spelled(w, 1, kws[14]); assert(kws[14].subrange(1, 3) =~= seq!['a', 'r']); }
    else if c == 'w' { lemma_spelled(w, 1, kws[15]); assert(kws[15].subrange(1, 5) =~= seq!['h', 'i', 'l', 'e']); }
}

/// Line breaks in `[a, c)` are those in `[a, b)` and those in `[b, c)`.
proof fn lemma_newlines_split(src: Seq<char>, a: int, b: int, c: int)
    requires
        a <= b <= c,
    ensures
        newlines(src, a, c) == newlines(src, a, b) + newlines(src, b, c),
    decreases c - b,
{
    if b < c {
        lemma_newlines_split(src, a, b, c - 1);
    }
}

/// One character counts one line break when it is one.
proof fn lemma_newlines_one(src: Seq<char>, i: int)
    ensures
        newlines(src, i, i + 1) == if src[i] == '\n' { 1nat } else { 0nat },
{
    reveal_with_fuel(newlines, 2);
}

/// A stretch with no line break counts none.
proof fn lemma_newlines_none(src: Seq<char>, i: int, j: int)
    requires
        forall|k: int| i <= k < j ==> #[trigger] src[k] != '\n',
    ensures
        newlines(src, i, j) == 0,
    decreases j - i,
{
    if i < j {
        lemma_newlines_none(src, i, j - 1);
    }
}

proof fn lemma_digits_plain(src: Seq<char>, i: int)
    requires
        0 <= i,
    ensures
        forall|k: int| i <= k < digits_end(src, i) ==> #[trigger] is_digit(src[k]),
        i <= src.len() ==> digits_end(src, i) <= src.len(),
    decreases src.len() - i,
{
    if 0 <= i < src.len() && is_digit(src[i]) {
        lemma_digits_plain(src, i + 1);
    }
}

proof fn lemma_word_plain(src: Seq<char>, i: int)
    requires
        0 <= i,
    ensures
        forall|k: int| i <= k < word_end(src, i) ==> #[trigger] is_alphanum(src[k]),
        i <= src.len() ==> word_end(src, i) <= src.len(),
    decreases src.len() - i,
{
    if 0 <= i < src.len() && is_alphanum(src[i]) {
        lemma_word_plain(src, i + 1);
    }
}

/// Skipping spaces and comments counts the line breaks it passes, and stops
/// at no line break.
proof fn lemma_skip_space_lines(src: Seq<char>, i: int, line: int)
    requires
        0 <= i,
    ensures
        skip_space(src, i, line).1 == line + newlines(src, i, skip_space(src, i, line).0),
        skip_space(src, i, line).0 < src.len() ==> src[skip_space(src, i, line).0] != '\n',
    decreases src.len() - i,
{
    lemma_skip_space_ge(src, i, line);
    if 0 <= i < src.len() {
        let c = src[i];
        let e = skip_space(src, i, line).0;
        lemma_newlines_one(src, i);
        if c == ' ' || c == '\r' || c == '\t' {
            lemma_skip_space_lines(src, i + 1, line);
            lemma_skip_space_ge(src, i + 1, line);
            lemma_newlines_split(src, i, i + 1, e);
        } else if c == '\n' {
            lemma_skip_space_lines(src, i + 1, line + 1);
            lemma_skip_space_ge(src, i + 1, line + 1);
            lemma_newlines_split(src, i, i + 1, e);
        } else if c == '/' && i + 1 < src.len() && src[i + 1] == '/' {
            let j = find_stop(src, i, '\n');
            lemma_find_stop(src, i, '\n');
            if i < j <= src.len() {
                lemma_skip_space_lines(src, j, line);
                lemma_skip_space_ge(src, j, line);
                lemma_newlines_none(src, i, j);
                lemma_newlines_split(src, i, j, e);
            }
        }
    }
}

/// One call of the scanner counts line breaks: where it stops, the line is
/// the line it started on plus the line breaks it passed; the token (or
/// error token) ends where the next call starts, and carries the line at its
/// end.
pub proof fn lemma_scan_lines(src: Seq<char>, pos: int, line: int)
    requires
        0 <= pos,
        src.len() > 0 && src.last() == '\0',
        1 <= line <= pos + 1,
        skip_space(src, pos, line).0 < src.len(),
        src.len() < isize::MAX,
    ensures
        scan_next(src, pos, line).line == line + newlines(src, pos, scan_next(src, pos, line).next),
        scan_next(src, pos, line).outcome matches Ok(t) ==> {
            &&& t.start + t.length == scan_next(src, pos, line).next
            &&& t.line == scan_next(src, pos, line).line
        },
        scan_next(src, pos, line).outcome matches Err(et) ==> {
            &&& et.0.start + et.0.length == scan_next(src, pos, line).next
            &&& et.0.line == scan_next(src, pos, line).line
        },
{
    lemma_scan_progress(src, pos, line);
    lemma_skip_space_lines(src, pos, line);
    lemma_skip_space_ge(src, pos, line);
    let (s, l) = skip_space(src, pos, line);
    let n = s + 1;
    let r = scan_next(src, pos, line);
    lemma_newlines_bound(src, pos, s);
    lemma_newlines_one(src, s);
    let c = src[s];
    if c == '"' {
        let e = find_stop(src, n, '"');
        lemma_find_stop(src, n, '"');
        lemma_newlines_one(src, n - 1);
        lemma_newlines_split(src, s, n, r.next);
        lemma_newlines_bound(src, n, e);
        assert(e < src.len()) by {
            if e >= src.len() {
                assert(src[src.len() - 1] != '\0');
            }
        }
        if src[e] != '\0' {
            lemma_newlines_split(src, n, e, e + 1);
            lemma_newlines_one(src, e);
        }
    } else if is_digit(c) {
        let d = digits_end(src, n);
        lemma_digits_plain(src, n);
        lemma_digits_end_ge(src, n);
        if d + 1 < src.len() && src[d] == '.' && is_digit(src[d + 1]) {
            lemma_digits_plain(src, d + 1);
            lemma_digits_end_ge(src, d + 1);
        }
        assert forall|k: int| s <= k < r.next implies #[trigger] src[k] != '\n' by {
            if k >= n && k < d {
                assert(is_digit(src[k]));
            } else if k > d {
                assert(is_digit(src[k]));
            }
        }
        lemma_newlines_none(src, s, r.next);
    } else if is_alpha(c) {
        lemma_word_plain(src, n);
        lemma_word_end_ge(src, n);
        assert forall|k: int| s <= k < r.next implies #[trigger] src[k] != '\n' by {
            if k >= n {
                assert(is_alphanum(src[k]));
            }
        }
        lemma_newlines_none(src, s, r.next);
    } else {
        lemma_newlines_none(src, s, r.next);
    }
    assert(r.next >= s);
    assert(l == line + newlines(src, pos, s));
    lemma_newlines_split(src, pos, s, r.next);
    lemma_newlines_bound(src, pos, r.next);
    assert(r.line <= r.next + 1);
}

/// After the end of file, the scanner yields the end of file again, at the
/// same place and on the same line.
pub proof fn lemma_eof_repeats(src: Seq<char>, pos: int, line: int)
    requires
        0 <= pos,
        skip_space(src, pos, line).0 < src.len(),
        scan_next(src, pos, line).outcome matches Ok(t) && t.kind == TokenType::EoF,
    ensures
        scan_next(src, scan_next(src, pos, line).next, scan_next(src, pos, line).line)
            == scan_next(src, pos, line),
{
}

/// Counted from the start of the text: when a call starts on one plus the
/// line breaks before it, it stops on one plus the line breaks before where
/// it stops, and its token carries one plus the line breaks up to its end.
pub proof fn lemma_scan_lines_from_start(src: Seq<char>, pos: int, line: int)
    requires
        0 <= pos,
        src.len() > 0 && src.last() == '\0',
        skip_space(src, pos, line).0 < src.len(),
        src.len() < isize::MAX,
        line == 1 + newlines(src, 0, pos),
    ensures
        scan_next(src, pos, line).line == 1 + newlines(src, 0, scan_next(src, pos, line).next),
        scan_next(src, pos, line).outcome matches Ok(t) ==> t.line == 1 + newlines(src, 0, t.start + t.length),
        scan_next(src, pos, line).outcome matches Err(et) ==> et.0.line == 1 + newlines(src, 0, et.0.start + et.0.length),
{
    lemma_skip_space_ge(src, pos, line);
    lemma_newlines_bound(src, 0, pos);
    lemma_scan_lines(src, pos, line);
    lemma_scan_progress(src, pos, line);
    lemma_newlines_split(src, 0, pos, scan_next(src, pos, line).next);
}

} // verus!
