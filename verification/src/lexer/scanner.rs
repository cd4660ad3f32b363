//! The tree-walk scanner: turns source text into a list of tokens.
use vstd::prelude::*;
use crate::lexer::keywords::{keyword_in, keyword_of};
use crate::lexer::token::{
    keyword_token, keyword_type, Literal, LiteralView, Number, Token, TokenType, TokenView,
};
use crate::report::{report_text, Lox};
use crate::text::{all_ascii, is_alpha, is_alphanum, is_digit, string_of};

verus! {

/// Whether `c` is an ASCII decimal digit.
pub fn digit(c: char) -> (b: bool)
    ensures
        b == is_digit(c),
{
    '0' <= c && c <= '9'
}

/// Whether `c` is an ASCII letter or `_`.
pub fn alpha(c: char) -> (b: bool)
    ensures
        b == is_alpha(c),
{
    ('a' <= c && c <= 'z') || ('A' <= c && c <= 'Z') || c == '_'
}

/// The first position at or after `i` that does not hold a digit.
pub open spec fn digits_end(src: Seq<char>, i: int) -> int
    decreases src.len() - i,
{
    if 0 <= i < src.len() && is_digit(src[i]) {
        digits_end(src, i + 1)
    } else {
        i
    }
}

/// The first position at or after `i` that does not hold a letter, digit or `_`.
pub open spec fn word_end(src: Seq<char>, i: int) -> int
    decreases src.len() - i,
{
    if 0 <= i < src.len() && is_alphanum(src[i]) {
        word_end(src, i + 1)
    } else {
        i
    }
}

/// The first position at or after `i` holding `c`, or the end of `src`.
pub open spec fn find_char(src: Seq<char>, i: int, c: char) -> int
    decreases src.len() - i,
{
    if 0 <= i < src.len() && src[i] != c {
        find_char(src, i + 1, c)
    } else {
        i
    }
}

/// The number of line breaks in `src[i..j]`.
pub open spec fn newlines(src: Seq<char>, i: int, j: int) -> nat
    decreases j - i,
{
    if j <= i {
        0
    } else {
        newlines(src, i, j - 1) + if src[j - 1] == '\n' { 1nat } else { 0nat }
    }
}

/// The end of a number literal whose first digit ends at `i`: more digits, then
/// optionally `.` followed by at least one digit and more digits.
pub open spec fn number_end(src: Seq<char>, i: int) -> int {
    let e = digits_end(src, i);
    if e + 1 < src.len() && src[e] == '.' && is_digit(src[e + 1]) {
        digits_end(src, e + 1)
    } else {
        e
    }
}

/// The token of kind `kind` spanning `src[start..end]`.
pub open spec fn token_at(src: Seq<char>, kind: TokenType, start: int, end: int, literal: LiteralView, line: nat) -> TokenView {
    TokenView { kind, lexeme: src.subrange(start, end), literal, line }
}

/// What scanning one lexeme does: where the next lexeme starts, the line there,
/// the token made (if any) and the error reported (if any).
pub struct ScanStep {
    pub next: int,
    pub line: nat,
    pub token: Option<TokenView>,
    pub error: Option<Seq<char>>,
}

/// One or two character token: `two` when `src[n]` is `=`, else `one`.
pub open spec fn with_equal(src: Seq<char>, s: int, line: nat, one: TokenType, two: TokenType) -> ScanStep {
    let n = s + 1;
    if n < src.len() && src[n] == '=' {
        ScanStep { next: n + 1, line, token: Some(token_at(src, two, s, n + 1, LiteralView::Nil, line)), error: None }
    } else {
        ScanStep { next: n, line, token: Some(token_at(src, one, s, n, LiteralView::Nil, line)), error: None }
    }
}

/// A single character token.
pub open spec fn single(src: Seq<char>, s: int, line: nat, kind: TokenType) -> ScanStep {
    ScanStep { next: s + 1, line, token: Some(token_at(src, kind, s, s + 1, LiteralView::Nil, line)), error: None }
}

/// The kind of the word `src[s..e]`: its reserved word, or `Identifier`.
pub open spec fn word_kind(word: Seq<char>) -> TokenType {
    match keyword_of(word) {
        Some(k) => keyword_token(k),
        None => TokenType::Identifier,
    }
}

/// Scanning the lexeme that starts at `s` (`s < src.len()`) on line `line`.
pub open spec fn scan_step(src: Seq<char>, s: int, line: nat) -> ScanStep {
    let c = src[s];
    let n = s + 1;
    if c == '(' { single(src, s, line, TokenType::LeftParen) }
    else if c == ')' { single(src, s, line, TokenType::RightParen) }
    else if c == '{' { single(src, s, line, TokenType::LeftBrace) }
    else if c == '}' { single(src, s, line, TokenType::RightBrace) }
    else if c == ',' { single(src, s, line, TokenType::Comma) }
    else if c == '.' { single(src, s, line, TokenType::Dot) }
    else if c == '-' { single(src, s, line, TokenType::Minus) }
    else if c == '+' { single(src, s, line, TokenType::Plus) }
    else if c == ';' { single(src, s, line, TokenType::Semicolon) }
    else if c == '*' { single(src, s, line, TokenType::Star) }
    else if c == '!' { with_equal(src, s, line, TokenType::Bang, TokenType::BangEqual) }
    else if c == '=' { with_equal(src, s, line, TokenType::Equal, TokenType::EqualEqual) }
    else if c == '<' { with_equal(src, s, line, TokenType::Less, TokenType::LessEqual) }
    else if c == '>' { with_equal(src, s, line, TokenType::Greater, TokenType::GreaterEqual) }
    else if c == '/' {
        if n < src.len() && src[n] == '/' {
            ScanStep { next: find_char(src, n + 1, '\n'), line, token: None, error: None }
        } else {
            single(src, s, line, TokenType::Slash)
        }
    }
    else if c == ' ' || c == '\r' || c == '\t' { ScanStep { next: n, line, token: None, error: None } }
    else if c == '\n' { ScanStep { next: n, line: line + 1, token: None, error: None } }
    else if c == '"' {
        let e = find_char(src, n, '"');
        let l = line + newlines(src, n, e);
        if e >= src.len() {
            ScanStep { next: e, line: l, token: None, error: Some("Unterminated string!"@) }
        } else {
            ScanStep {
                next: e + 1,
                line: l,
                token: Some(token_at(src, TokenType::String, s, e + 1, LiteralView::Str(src.subrange(n, e)), l)),
                error: None,
            }
        }
    }
    else if is_digit(c) {
        let e = number_end(src, n);
        ScanStep {
            next: e,
            line,
            token: Some(token_at(src, TokenType::Number, s, e, LiteralView::Number(src.subrange(s, e)), line)),
            error: None,
        }
    }
    else if is_alpha(c) {
        let e = word_end(src, n);
        ScanStep {
            next: e,
            line,
            token: Some(token_at(src, word_kind(src.subrange(s, e)), s, e, LiteralView::Nil, line)),
            error: None,
        }
    }
    else { ScanStep { next: n, line, token: None, error: Some("Unexpected character!"@) } }
}

/// The tokens made and the reports raised by scanning, and the final line.
pub struct Scanned {
    pub tokens: Seq<TokenView>,
    pub reports: Seq<Seq<char>>,
    pub line: nat,
}

/// The token made by a step, as a sequence of zero or one tokens.
pub open spec fn step_tokens(st: ScanStep) -> Seq<TokenView> {
    match st.token {
        Some(t) => seq![t],
        None => Seq::empty(),
    }
}

/// The report raised by a step, as a sequence of zero or one reports.
pub open spec fn step_reports(st: ScanStep) -> Seq<Seq<char>> {
    match st.error {
        Some(m) => seq![report_text(st.line, Seq::empty(), m)],
        None => Seq::empty(),
    }
}

/// Scanning `src` from position `pos` on line `line` to its end.
pub open spec fn scan_from(src: Seq<char>, pos: int, line: nat) -> Scanned
    decreases src.len() - pos,
{
    if pos < 0 || pos >= src.len() {
        Scanned { tokens: Seq::empty(), reports: Seq::empty(), line }
    } else {
        let st = scan_step(src, pos, line);
        if st.next <= pos || st.next > src.len() {
            Scanned { tokens: Seq::empty(), reports: Seq::empty(), line }
        } else {
            let rest = scan_from(src, st.next, st.line);
            Scanned {
                tokens: step_tokens(st) + rest.tokens,
                reports: step_reports(st) + rest.reports,
                line: rest.line,
            }
        }
    }
}

/// The end-of-file token for `line`.
pub open spec fn eof_token(line: nat) -> TokenView {
    TokenView { kind: TokenType::Eof, lexeme: Seq::empty(), literal: LiteralView::Nil, line }
}

/// The tokens of the source text `src`, ending with the end-of-file token.
pub open spec fn tokens_of(src: Seq<char>) -> Seq<TokenView> {
    let r = scan_from(src, 0, 1);
    r.tokens.push(eof_token(r.line))
}

/// The reports raised while scanning `src`.
pub open spec fn scan_reports(src: Seq<char>) -> Seq<Seq<char>> {
    scan_from(src, 0, 1).reports
}

proof fn lemma_digits_end(src: Seq<char>, i: int)
    requires
        0 <= i <= src.len(),
    ensures
        i <= digits_end(src, i) <= src.len(),
        forall|k: int| i <= k < digits_end(src, i) ==> is_digit(#[trigger] src[k]),
    decreases src.len() - i,
{
    if i < src.len() && is_digit(src[i]) {
        lemma_digits_end(src, i + 1);
    }
}

proof fn lemma_word_end(src: Seq<char>, i: int)
    requires
        0 <= i <= src.len(),
    ensures
        i <= word_end(src, i) <= src.len(),
    decreases src.len() - i,
{
    if i < src.len() && is_alphanum(src[i]) {
        lemma_word_end(src, i + 1);
    }
}

proof fn lemma_find_char(src: Seq<char>, i: int, c: char)
    requires
        0 <= i <= src.len(),
    ensures
        i <= find_char(src, i, c) <= src.len(),
        find_char(src, i, c) < src.len() ==> src[find_char(src, i, c)] == c,
    decreases src.len() - i,
{
    if i < src.len() && src[i] != c {
        lemma_find_char(src, i + 1, c);
    }
}

pub proof fn lemma_newlines_bound(src: Seq<char>, i: int, j: int)
    requires
        i <= j,
    ensures
        newlines(src, i, j) <= j - i,
    decreases j - i,
{
    if i < j {
        lemma_newlines_bound(src, i, j - 1);
    }
}

proof fn lemma_step_advances(src: Seq<char>, s: int, line: nat)
    requires
        0 <= s < src.len(),
    ensures
        s < scan_step(src, s, line).next <= src.len(),
{
    let n = s + 1;
    lemma_digits_end(src, n);
    lemma_word_end(src, n);
    lemma_find_char(src, n, '"');
    if n < src.len() {
        lemma_find_char(src, n + 1, '\n');
    }
    let e = digits_end(src, n);
    if e + 1 < src.len() {
        lemma_digits_end(src, e + 1);
    }
}

/// The fixed spelling of a token kind: its punctuation or its reserved
/// word; none for names, strings, numbers and the end of file.
pub open spec fn spelling(k: TokenType) -> Option<Seq<char>> {
    match k {
        TokenType::LeftParen => Some(seq!['(']),
        TokenType::RightParen => Some(seq![')']),
        TokenType::LeftBrace => Some(seq!['{']),
        TokenType::RightBrace => Some(seq!['}']),
        TokenType::Comma => Some(seq![',']),
        TokenType::Dot => Some(seq!['.']),
        TokenType::Minus => Some(seq!['-']),
        TokenType::Plus => Some(seq!['+']),
        TokenType::Semicolon => Some(seq![';']),
        TokenType::Slash => Some(seq!['/']),
        TokenType::Star => Some(seq!['*']),
        TokenType::Bang => Some(seq!['!']),
        TokenType::BangEqual => Some(seq!['!', '=']),
        TokenType::Equal => Some(seq!['=']),
        TokenType::EqualEqual => Some(seq!['=', '=']),
        TokenType::Greater => Some(seq!['>']),
        TokenType::GreaterEqual => Some(seq!['>', '=']),
        TokenType::Less => Some(seq!['<']),
        TokenType::LessEqual => Some(seq!['<', '=']),
        TokenType::And => Some(seq!['a', 'n', 'd']),
        TokenType::Class => Some(seq!['c', 'l', 'a', 's', 's']),
        TokenType::Else => Some(seq!['e', 'l', 's', 'e']),
        TokenType::False => Some(seq!['f', 'a', 'l', 's', 'e']),
        TokenType::Fun => Some(seq!['f', 'u', 'n']),
        TokenType::For => Some(seq!['f', 'o', 'r']),
        TokenType::If => Some(seq!['i', 'f']),
        TokenType::Nil => Some(seq!['n', 'i', 'l']),
        TokenType::Or => Some(seq!['o', 'r']),
        TokenType::Print => Some(seq!['p', 'r', 'i', 'n', 't']),
        TokenType::Return => Some(seq!['r', 'e', 't', 'u', 'r', 'n']),
        TokenType::Super => Some(seq!['s', 'u', 'p', 'e', 'r']),
        TokenType::This => Some(seq!['t', 'h', 'i', 's']),
        TokenType::True => Some(seq!['t', 'r', 'u', 'e']),
        TokenType::Var => Some(seq!['v', 'a', 'r']),
        TokenType::While => Some(seq!['w', 'h', 'i', 'l', 'e']),
        _ => None,
    }
}

/// A token's kind and lexeme agree: a kind with a fixed spelling has it as
/// its lexeme, and a lexeme that is the spelling of a kind has that kind.
pub open spec fn token_spelled(t: TokenView) -> bool {
    &&& (spelling(t.kind) matches Some(x) ==> t.lexeme == x)
    &&& forall|k: TokenType| #[trigger] spelling(k) == Some(t.lexeme) ==> t.kind == k
}

/// A token's literal agrees with its lexeme: a string holds its lexeme
/// without the quotes around it, a number its lexeme, which is made of
/// digits, and every other token no value.
pub open spec fn token_literal_ok(t: TokenView) -> bool {
    if t.kind == TokenType::String {
        &&& t.lexeme.len() >= 2
        &&& t.lexeme[0] == '"'
        &&& t.lexeme[t.lexeme.len() - 1] == '"'
        &&& t.literal == LiteralView::Str(t.lexeme.subrange(1, t.lexeme.len() - 1))
    } else if t.kind == TokenType::Number {
        &&& t.lexeme.len() >= 1
        &&& is_digit(t.lexeme[0])
        &&& is_digit(t.lexeme[t.lexeme.len() - 1])
        &&& t.literal == LiteralView::Number(t.lexeme)
    } else {
        t.literal == LiteralView::Nil
    }
}

/// The kind that a lexeme of fixed spelling has.
spec fn spelled_kind(x: Seq<char>) -> TokenType {
    if x.len() == 1 && x[0] == '(' { TokenType::LeftParen }
    else if x.len() == 1 && x[0] == ')' { TokenType::RightParen }
    else if x.len() == 1 && x[0] == '{' { TokenType::LeftBrace }
    else if x.len() == 1 && x[0] == '}' { TokenType::RightBrace }
    else if x.len() == 1 && x[0] == ',' { TokenType::Comma }
    else if x.len() == 1 && x[0] == '.' { TokenType::Dot }
    else if x.len() == 1 && x[0] == '-' { TokenType::Minus }
    else if x.len() == 1 && x[0] == '+' { TokenType::Plus }
    else if x.len() == 1 && x[0] == ';' { TokenType::Semicolon }
    else if x.len() == 1 && x[0] == '/' { TokenType::Slash }
    else if x.len() == 1 && x[0] == '*' { TokenType::Star }
    else if x.len() == 1 && x[0] == '!' { TokenType::Bang }
    else if x.len() == 1 && x[0] == '=' { TokenType::Equal }
    else if x.len() == 1 && x[0] == '>' { TokenType::Greater }
    else if x.len() == 1 && x[0] == '<' { TokenType::Less }
    else if x.len() == 2 && x[0] == '!' && x[1] == '=' { TokenType::BangEqual }
    else if x.len() == 2 && x[0] == '=' && x[1] == '=' { TokenType::EqualEqual }
    else if x.len() == 2 && x[0] == '>' && x[1] == '=' { TokenType::GreaterEqual }
    else if x.len() == 2 && x[0] == '<' && x[1] == '=' { TokenType::LessEqual }
    else { word_kind(x) }
}

proof fn lemma_spelling_decodes(k: TokenType)
    ensures
        spelling(k) matches Some(x) ==> {
            &&& spelled_kind(x) == k
            &&& x.len() >= 1
            &&& x[0] != '"'
            &&& !is_digit(x[0])
        },
{
}

proof fn lemma_word_chars(src: Seq<char>, i: int)
    requires
        0 <= i <= src.len(),
    ensures
        forall|k: int| i <= k < word_end(src, i) ==> is_alphanum(#[trigger] src[k]),
    decreases src.len() - i,
{
    if i < src.len() && is_alphanum(src[i]) {
        lemma_word_chars(src, i + 1);
    }
}

proof fn lemma_step_spelled(src: Seq<char>, s: int, line: nat)
    requires
        0 <= s < src.len(),
    ensures
        scan_step(src, s, line).token matches Some(t) ==> token_spelled(t) && token_literal_ok(t),
{
    lemma_step_advances(src, s, line);
    let n = s + 1;
    lemma_word_end(src, n);
    lemma_word_chars(src, n);
    lemma_digits_end(src, n);
    lemma_find_char(src, n, '"');
    let st = scan_step(src, s, line);
    if let Some(t) = st.token {
        assert(t.lexeme[0] == src[s]);
        let c = src[s];
        if c == '"' {
            let e = find_char(src, n, '"');
            assert(t.lexeme.subrange(1, t.lexeme.len() - 1) =~= src.subrange(n, e));
        }
        if is_digit(c) && !(c == '"') {
            let e = number_end(src, n);
            let d = digits_end(src, n);
            if d + 1 < src.len() && src[d] == '.' && is_digit(src[d + 1]) {
                lemma_digits_end(src, d + 1);
                lemma_digits_end(src, d + 2);
                assert(digits_end(src, d + 1) == digits_end(src, d + 2));
                assert(e == digits_end(src, d + 1));
                assert(e >= d + 2);
                assert(is_digit(src[e - 1]));
            } else if d > n {
                assert(e == d);
                assert(is_digit(src[d - 1]));
            } else {
                assert(e == n);
            }
            assert(t.lexeme == src.subrange(s, e));
            assert(t.lexeme[t.lexeme.len() - 1] == src[e - 1]);
        }
        if c == '"' || is_digit(c) {
            assert forall|k: TokenType| #[trigger] spelling(k) == Some(t.lexeme) implies t.kind == k by {
                lemma_spelling_decodes(k);
            }
        } else {
            if is_alpha(c) && !(c == '(' || c == ')') {
                let e = word_end(src, n);
                assert(t.lexeme == src.subrange(s, e));
                if t.lexeme.len() >= 2 {
                    assert(is_alphanum(src[s + 1]));
                }
                assert(spelled_kind(t.lexeme) == t.kind);
            } else {
                assert(spelled_kind(t.lexeme) == t.kind);
            }
            assert forall|k: TokenType| #[trigger] spelling(k) == Some(t.lexeme) implies t.kind == k by {
                lemma_spelling_decodes(k);
            }
            if let Some(x) = spelling(t.kind) {
                assert(t.lexeme =~= x);
            }
        }
    }
}

proof fn lemma_scan_from_spelled(src: Seq<char>, pos: int, line: nat)
    ensures
        forall|i: int| 0 <= i < scan_from(src, pos, line).tokens.len()
            ==> token_spelled(#[trigger] scan_from(src, pos, line).tokens[i])
                && token_literal_ok(scan_from(src, pos, line).tokens[i]),
    decreases src.len() - pos,
{
    if !(pos < 0 || pos >= src.len()) {
        let st = scan_step(src, pos, line);
        if !(st.next <= pos || st.next > src.len()) {
            lemma_step_spelled(src, pos, line);
            lemma_scan_from_spelled(src, st.next, st.line);
            let r = scan_from(src, pos, line);
            let rest = scan_from(src, st.next, st.line);
            assert forall|i: int| 0 <= i < r.tokens.len() implies token_spelled(#[trigger] r.tokens[i]) && token_literal_ok(r.tokens[i]) by {
                if i < step_tokens(st).len() {
                    assert(r.tokens[i] == st.token->0);
                } else {
                    assert(r.tokens[i] == rest.tokens[i - step_tokens(st).len()]);
                }
            }
        }
    }
}

/// Every token the scanner makes has the lexeme its kind is spelled with,
/// and a lexeme spelled like a kind makes a token of that kind: `==` is
/// always `EqualEqual` and `=` always `Equal`, `and` always the reserved
/// word `and`; names, strings and numbers are never spelled like punctuation
/// or a reserved word. A string token holds its text without the quotes,
/// a number token its digits, and no other token a value.
pub proof fn law_tokens_spelled(src: Seq<char>)
    ensures
        forall|i: int| 0 <= i < tokens_of(src).len()
            ==> token_spelled(#[trigger] tokens_of(src)[i]) && token_literal_ok(tokens_of(src)[i]),
{
    lemma_scan_from_spelled(src, 0, 1);
    let r = scan_from(src, 0, 1);
    assert forall|i: int| 0 <= i < tokens_of(src).len() implies token_spelled(#[trigger] tokens_of(src)[i]) && token_literal_ok(tokens_of(src)[i]) by {
        if i < r.tokens.len() {
            assert(tokens_of(src)[i] == r.tokens[i]);
        } else {
            assert(tokens_of(src)[i] == eof_token(r.line));
            assert forall|k: TokenType| #[trigger] spelling(k) == Some(tokens_of(src)[i].lexeme) implies tokens_of(src)[i].kind == k by {
                lemma_spelling_decodes(k);
            }
        }
    }
}

/// A scanner over a source text, collecting tokens.
pub struct Scanner {
    source: Vec<char>,
    tokens: Vec<Token>,
    start: usize,
    current: usize,
    line: usize,
}

impl Scanner {
    /// The source text.
    pub closed spec fn source_text(&self) -> Seq<char> {
        self.source@
    }

    /// The position of the next character to read.
    pub closed spec fn position(&self) -> nat {
        self.current as nat
    }

    /// The line of the next character to read.
    pub closed spec fn spec_line(&self) -> nat {
        self.line as nat
    }

    /// The tokens collected so far.
    pub closed spec fn token_views(&self) -> Seq<TokenView> {
        self.tokens@.map_values(|t: Token| t@)
    }

    /// The scanner's bookkeeping is consistent.
    pub closed spec fn wf(&self) -> bool {
        &&& self.start <= self.current <= self.source@.len()
        &&& self.line <= self.current + 1
        &&& self.source@.len() < usize::MAX
    }

    /// A scanner at the start of `source`, on line 1, with no token.
    pub fn new(source: &str) -> (s: Scanner)
        requires
            source@.len() < usize::MAX,
        ensures
            s.wf(),
            s.source_text() == source@,
            s.position() == 0,
            s.spec_line() == 1,
            s.token_views() == Seq::<TokenView>::empty(),
    {
        let s = Scanner {
            source: crate::text::chars_of(source),
            tokens: Vec::new(),
            start: 0,
            current: 0,
            line: 1,
        };
        assert(s.token_views() =~= Seq::<TokenView>::empty());
        s
    }

    /// The tokens collected so far.
    pub fn tokens(&self) -> (t: &Vec<Token>)
        ensures
            t@.map_values(|t: Token| t@) == self.token_views(),
    {
        &self.tokens
    }

    /// Scans the rest of the source, adding its tokens and then the
    /// end-of-file token; scanning errors are reported to `interpreter`.
    pub fn scan_tokens(&mut self, interpreter: &mut Lox)
        requires
            old(self).wf(),
            all_ascii(old(self).source_text()),
        ensures
            final(self).wf(),
            final(self).source_text() == old(self).source_text(),
            final(self).position() == old(self).source_text().len(),
            ({
                let r = scan_from(old(self).source_text(), old(self).position() as int, old(self).spec_line());
                &&& final(self).token_views() == old(self).token_views() + r.tokens.push(eof_token(r.line))
                &&& final(interpreter).reports() == old(interpreter).reports() + r.reports
                &&& final(interpreter).spec_had_error() == (old(interpreter).spec_had_error() || r.reports.len() > 0)
                &&& final(self).spec_line() == r.line
            }),
            final(interpreter).spec_had_runtime_error() == old(interpreter).spec_had_runtime_error(),
    {
        let ghost src = self.source@;
        let ghost r0 = scan_from(src, self.current as int, self.line as nat);
        while !self.is_end()
            invariant
                self.wf(),
                self.source@ == src,
                ({
                    let r = scan_from(src, self.current as int, self.line as nat);
                    &&& old(self).token_views() + r0.tokens == self.token_views() + r.tokens
                    &&& old(interpreter).reports() + r0.reports == interpreter.reports() + r.reports
                    &&& (interpreter.spec_had_error() || r.reports.len() > 0)
                        == (old(interpreter).spec_had_error() || r0.reports.len() > 0)
                    &&& r.line == r0.line
                }),
                interpreter.spec_had_runtime_error() == old(interpreter).spec_had_runtime_error(),
            decreases self.source@.len() - self.current,
        {
            // We are at the beginning of the next lexeme.
            self.start = self.current;
            let ghost before = *self;
            let ghost lox_before = *interpreter;
            let ghost st = scan_step(src, self.current as int, self.line as nat);
            let ghost rest = scan_from(src, st.next, st.line);
            proof { lemma_step_advances(src, self.current as int, self.line as nat); }
            self.scan_token(interpreter);
            proof {
                assert(before.token_views() + (step_tokens(st) + rest.tokens)
                    =~= self.token_views() + rest.tokens);
                assert(lox_before.reports() + (step_reports(st) + rest.reports)
                    =~= interpreter.reports() + rest.reports);
            }
        }
        let ghost before = self.token_views();
        proof {
            reveal_strlit("");
            let r = scan_from(src, self.current as int, self.line as nat);
            assert(r.line == self.line);
            assert(""@ =~= Seq::<char>::empty());
        }
        let eof = Token::new(TokenType::Eof, "", Literal::Nil, self.line);
        assert(eof@ == eof_token(r0.line));
        self.tokens.push(eof);
        proof {
            let r = scan_from(src, self.current as int, self.line as nat);
            assert(r.tokens =~= Seq::<TokenView>::empty());
            assert(r.reports =~= Seq::<Seq<char>>::empty());
            assert(self.token_views() =~= before.push(eof_token(r0.line)));
            assert(old(self).token_views() + r0.tokens.push(eof_token(r0.line))
                =~= (old(self).token_views() + r0.tokens).push(eof_token(r0.line)));
            assert(old(interpreter).reports() + r0.reports =~= interpreter.reports() + r.reports);
            assert(interpreter.reports() + r.reports =~= interpreter.reports());
        }
    }

    /// Scans the lexeme starting at the current position.
    fn scan_token(&mut self, interpreter: &mut Lox)
        requires
            old(self).wf(),
            old(self).start == old(self).current < old(self).source@.len(),
        ensures
            final(self).wf(),
            final(self).source@ == old(self).source@,
            final(self).start == old(self).start,
            ({
                let st = scan_step(old(self).source@, old(self).current as int, old(self).line as nat);
                &&& final(self).current == st.next
                &&& final(self).line == st.line
                &&& final(self).token_views() == old(self).token_views() + step_tokens(st)
                &&& final(interpreter).reports() == old(interpreter).reports() + step_reports(st)
                &&& final(interpreter).spec_had_error() == (old(interpreter).spec_had_error() || st.error is Some)
            }),
            final(interpreter).spec_had_runtime_error() == old(interpreter).spec_had_runtime_error(),
    {
        let ghost src = self.source@;
        let ghost s = self.current as int;
        let ghost toks = self.token_views();
        let c = self.advance();
        if c == '(' { self.add_token(TokenType::LeftParen); }
        else if c == ')' { self.add_token(TokenType::RightParen); }
        else if c == '{' { self.add_token(TokenType::LeftBrace); }
        else if c == '}' { self.add_token(TokenType::RightBrace); }
        else if c == ',' { self.add_token(TokenType::Comma); }
        else if c == '.' { self.add_token(TokenType::Dot); }
        else if c == '-' { self.add_token(TokenType::Minus); }
        else if c == '+' { self.add_token(TokenType::Plus); }
        else if c == ';' { self.add_token(TokenType::Semicolon); }
        else if c == '*' { self.add_token(TokenType::Star); }
        else if c == '!' {
            if self.peek('=') { self.add_token(TokenType::BangEqual) } else { self.add_token(TokenType::Bang) }
        } else if c == '=' {
            if self.peek('=') { self.add_token(TokenType::EqualEqual) } else { self.add_token(TokenType::Equal) }
        } else if c == '<' {
            if self.peek('=') { self.add_token(TokenType::LessEqual) } else { self.add_token(TokenType::Less) }
        } else if c == '>' {
            if self.peek('=') { self.add_token(TokenType::GreaterEqual) } else { self.add_token(TokenType::Greater) }
        } else if c == '/' {
            if self.peek('/') {
                // A comment goes until the end of the line.
                let ghost from = self.current as int;
                while self.look_ahead() != '\n' && !self.is_end()
                    invariant
                        self.wf(),
                        self.source@ == src,
                        self.token_views() == toks,
                        self.start == s,
                        self.line == old(self).line,
                        from <= self.current,
                        find_char(src, self.current as int, '\n') == find_char(src, from, '\n'),
                    decreases self.source@.len() - self.current,
                {
                    self.advance();
                }
                proof { assert(toks + step_tokens(scan_step(src, s, old(self).line as nat)) =~= toks); }
            } else {
                self.add_token(TokenType::Slash)
            }
        } else if c == ' ' || c == '\r' || c == '\t' {
            proof { assert(toks + Seq::<TokenView>::empty() =~= toks); }
        } else if c == '\n' {
            self.line = self.line + 1;
            proof { assert(toks + Seq::<TokenView>::empty() =~= toks); }
        } else if c == '"' {
            self.consume_string(interpreter);
        } else if digit(c) {
            self.consume_number();
        } else if alpha(c) {
            self.identifier();
        } else {
            proof { assert(toks + Seq::<TokenView>::empty() =~= toks); }
            interpreter.lex_error(self.line, "Unexpected character!");
        }
        proof {
            let st = scan_step(src, s, old(self).line as nat);
            if st.error is None {
                assert(old(interpreter).reports() + step_reports(st) =~= old(interpreter).reports());
            } else {
                assert(old(interpreter).reports() + step_reports(st)
                    =~= old(interpreter).reports().push(report_text(st.line, Seq::empty(), st.error->0)));
            }
        }
    }

    fn advance(&mut self) -> (c: char)
        requires
            old(self).wf(),
            old(self).current < old(self).source@.len(),
        ensures
            final(self).wf(),
            c == old(self).source@[old(self).current as int],
            final(self).current == old(self).current + 1,
            final(self).source == old(self).source,
            final(self).tokens == old(self).tokens,
            final(self).start == old(self).start,
            final(self).line == old(self).line,
    {
        let c = self.source[self.current];
        self.current = self.current + 1;
        c
    }

    /// Consumes the next character if it is `expected`.
    fn peek(&mut self, expected: char) -> (b: bool)
        requires
            old(self).wf(),
        ensures
            final(self).wf(),
            b == (old(self).current < old(self).source@.len() && old(self).source@[old(self).current as int] == expected),
            final(self).current == old(self).current + if b { 1usize } else { 0usize },
            final(self).source == old(self).source,
            final(self).tokens == old(self).tokens,
            final(self).start == old(self).start,
            final(self).line == old(self).line,
    {
        if self.is_end() {
            return false;
        }
        let next_char = self.source[self.current];
        if next_char != expected {
            return false;
        }
        self.current = self.current + 1;
        true
    }

    /// The next character, or `'\0'` at the end.
    fn look_ahead(&self) -> (c: char)
        requires
            self.wf(),
        ensures
            c == if self.current < self.source@.len() { self.source@[self.current as int] } else { '\0' },
    {
        if self.is_end() {
            return '\0';
        }
        self.source[self.current]
    }

    /// The character after the next one, or `'\0'` past the end.
    fn look_ahead_next(&self) -> (c: char)
        requires
            self.wf(),
        ensures
            c == if self.current + 1 < self.source@.len() { self.source@[self.current + 1] } else { '\0' },
    {
        if self.current + 1 >= self.source.len() {
            return '\0';
        }
        self.source[self.current + 1]
    }

    fn add_token(&mut self, tok_type: TokenType)
        requires
            old(self).wf(),
        ensures
            final(self).wf(),
            final(self).source == old(self).source,
            final(self).current == old(self).current,
            final(self).start == old(self).start,
            final(self).line == old(self).line,
            final(self).token_views() == old(self).token_views().push(
                token_at(old(self).source@, tok_type, old(self).start as int, old(self).current as int, LiteralView::Nil, old(self).line as nat)),
    {
        self.add_token_literal(tok_type, Literal::Nil)
    }

    fn add_token_literal(&mut self, tok_type: TokenType, literal: Literal)
        requires
            old(self).wf(),
        ensures
            final(self).wf(),
            final(self).source == old(self).source,
            final(self).current == old(self).current,
            final(self).start == old(self).start,
            final(self).line == old(self).line,
            final(self).token_views() == old(self).token_views().push(
                token_at(old(self).source@, tok_type, old(self).start as int, old(self).current as int, literal@, old(self).line as nat)),
    {
        let text = string_of(&self.source, self.start, self.current);
        let ghost before = self.token_views();
        self.tokens.push(Token::new(tok_type, text.as_str(), literal, self.line));
        assert(self.token_views() =~= before.push(
            token_at(self.source@, tok_type, self.start as int, self.current as int, literal@, self.line as nat)));
    }

    fn consume_string(&mut self, interpreter: &mut Lox)
        requires
            old(self).wf(),
            old(self).current == old(self).start + 1,
            old(self).line <= old(self).current,
            old(self).source@[old(self).start as int] == '"',
        ensures
            final(self).wf(),
            final(self).source@ == old(self).source@,
            final(self).start == old(self).start,
            ({
                let st = scan_step(old(self).source@, old(self).start as int, old(self).line as nat);
                &&& final(self).current == st.next
                &&& final(self).line == st.line
                &&& final(self).token_views() == old(self).token_views() + step_tokens(st)
                &&& final(interpreter).reports() == old(interpreter).reports() + step_reports(st)
                &&& final(interpreter).spec_had_error() == (old(interpreter).spec_had_error() || st.error is Some)
            }),
            final(interpreter).spec_had_runtime_error() == old(interpreter).spec_had_runtime_error(),
    {
        let ghost src = self.source@;
        let ghost n = self.current as int;
        let ghost toks = self.token_views();
        proof { lemma_find_char(src, n, '"'); }
        while self.look_ahead() != '"' && !self.is_end()
            invariant
                self.wf(),
                self.source@ == src,
                self.token_views() == toks,
                self.start == old(self).start,
                n <= self.current,
                self.line == old(self).line + newlines(src, n, self.current as int),
                self.line <= self.current,
                find_char(src, self.current as int, '"') == find_char(src, n, '"'),
            decreases self.source@.len() - self.current,
        {
            proof { lemma_newlines_bound(src, n, self.current as int + 1); }
            if self.look_ahead() == '\n' {
                self.line = self.line + 1;
            }
            self.advance();
        }

        if self.is_end() {
            proof { assert(toks + Seq::<TokenView>::empty() =~= toks); }
            interpreter.lex_error(self.line, "Unterminated string!");
            proof {
                assert(old(interpreter).reports() + step_reports(scan_step(src, old(self).start as int, old(self).line as nat))
                    =~= interpreter.reports());
            }
            return;
        }

        // The closing ".
        self.advance();

        // Trim the surrounding quotes.
        let value = string_of(&self.source, self.start + 1, self.current - 1);
        self.add_token_literal(TokenType::String, Literal::String(value));
        proof {
            assert(toks + step_tokens(scan_step(src, old(self).start as int, old(self).line as nat))
                =~= self.token_views());
            assert(old(interpreter).reports() + Seq::<Seq<char>>::empty() =~= old(interpreter).reports());
        }
    }

    fn consume_number(&mut self)
        requires
            old(self).wf(),
            old(self).current == old(self).start + 1,
            is_digit(old(self).source@[old(self).start as int]),
        ensures
            final(self).wf(),
            final(self).source@ == old(self).source@,
            final(self).start == old(self).start,
            ({
                let st = scan_step(old(self).source@, old(self).start as int, old(self).line as nat);
                &&& final(self).current == st.next
                &&& final(self).line == st.line
                &&& final(self).token_views() == old(self).token_views() + step_tokens(st)
                &&& st.error is None
            }),
    {
        let ghost src = self.source@;
        let ghost n = self.current as int;
        let ghost toks = self.token_views();
        proof { lemma_digits_end(src, n); }
        while digit(self.look_ahead())
            invariant
                self.wf(),
                self.source@ == src,
                self.token_views() == toks,
                self.start == old(self).start,
                self.line == old(self).line,
                n <= self.current,
                digits_end(src, self.current as int) == digits_end(src, n),
            decreases self.source@.len() - self.current,
        {
            self.advance();
        }

        // Look for a fractional part.
        if self.look_ahead() == '.' && digit(self.look_ahead_next()) {
            // Consume the "."
            self.advance();
            let ghost m = self.current as int;
            proof { lemma_digits_end(src, m); }
            while digit(self.look_ahead())
                invariant
                    self.wf(),
                    self.source@ == src,
                    self.token_views() == toks,
                    self.start == old(self).start,
                    self.line == old(self).line,
                    m <= self.current,
                    digits_end(src, self.current as int) == digits_end(src, m),
                decreases self.source@.len() - self.current,
            {
                self.advance();
            }
        }

        let text = string_of(&self.source, self.start, self.current);
        proof {
            let e = self.current as int;
            let st = old(self).start as int;
            lemma_digits_end(src, n);
            assert(text@ == src.subrange(st, e));
            assert forall|i: int| 0 <= i < text@.len() implies is_digit(#[trigger] text@[i]) || {
                &&& text@[i] == '.'
                &&& 0 < i < text@.len() - 1
                &&& forall|j: int| 0 <= j < text@.len() && j != i ==> is_digit(text@[j])
            } by {
                let d = digits_end(src, n);
                if st + i > d - 1 && st + i < e && !is_digit(text@[i]) {
                    lemma_digits_end(src, d + 1);
                    assert(st + i == d);
                    assert forall|j: int| 0 <= j < text@.len() && j != i implies is_digit(text@[j]) by {
                        assert(text@[j] == src[st + j]);
                    }
                }
            }
        }
        let number = Number::from_text(text.as_str());
        match number {
            Some(num) => self.add_token_literal(TokenType::Number, Literal::Number(num)),
            None => { proof { assert(false); } }
        }
        proof {
            assert(toks + step_tokens(scan_step(src, old(self).start as int, old(self).line as nat))
                =~= self.token_views());
        }
    }

    fn identifier(&mut self)
        requires
            old(self).wf(),
            old(self).current == old(self).start + 1,
            is_alpha(old(self).source@[old(self).start as int]),
        ensures
            final(self).wf(),
            final(self).source@ == old(self).source@,
            final(self).start == old(self).start,
            ({
                let st = scan_step(old(self).source@, old(self).start as int, old(self).line as nat);
                &&& final(self).current == st.next
                &&& final(self).line == st.line
                &&& final(self).token_views() == old(self).token_views() + step_tokens(st)
                &&& st.error is None
            }),
    {
        let ghost src = self.source@;
        let ghost n = self.current as int;
        let ghost toks = self.token_views();
        while self.is_alphanum(self.look_ahead())
            invariant
                self.wf(),
                self.source@ == src,
                self.token_views() == toks,
                self.start == old(self).start,
                self.line == old(self).line,
                n <= self.current,
                word_end(src, self.current as int) == word_end(src, n),
            decreases self.source@.len() - self.current,
        {
            self.advance();
        }

        let tok_type = match keyword_in(&self.source, self.start, self.current) {
            Some(k) => keyword_type(k),
            None => TokenType::Identifier,
        };
        self.add_token(tok_type);
        proof {
            assert(toks + step_tokens(scan_step(src, old(self).start as int, old(self).line as nat))
                =~= self.token_views());
        }
    }

    fn is_end(&self) -> (b: bool)
        requires
            self.wf(),
        ensures
            b == (self.current >= self.source@.len()),
    {
        self.current >= self.source.len()
    }

    fn is_digit(&self, c: char) -> (b: bool)
        ensures
            b == is_digit(c),
    {
        digit(c)
    }

    fn is_alphanum(&self, c: char) -> (b: bool)
        ensures
            b == is_alphanum(c),
    {
        alpha(c) || digit(c)
    }
}

} // verus!
