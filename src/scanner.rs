use vstd::prelude::*;
use vstd::string::StringSliceAdditionalSpecFns;

verus! {

/// The closed set of token kinds.
#[derive(Clone, Copy, Debug, PartialEq, Eq, Structural)]
pub enum TokenKind {
    // Single-character tokens.
    LeftParen,
    RightParen,
    LeftBrace,
    RightBrace,
    Comma,
    Dot,
    Minus,
    Plus,
    Semicolon,
    Slash,
    Star,
    // One or two character tokens.
    Bang,
    BangEqual,
    Equal,
    EqualEqual,
    Greater,
    GreaterEqual,
    Less,
    LessEqual,
    // Literals.
    Identifier,
    String,
    Number,
    // Keywords.
    And,
    Class,
    Else,
    False,
    For,
    Fun,
    If,
    Nil,
    Or,
    Print,
    Return,
    Super,
    This,
    True,
    Var,
    While,
    Error,
    Eof,
}

/// What went wrong in an `Error` token.
#[derive(Clone, Copy, Debug, PartialEq, Eq, Structural)]
pub enum LexError {
    UnterminatedString,
    UnexpectedCharacter,
}

impl LexError {
    /// The message reported for this error.
    pub fn message(&self) -> (r: &'static str)
        ensures
            *self == LexError::UnterminatedString ==> r@ == "Unterminated string"@,
            *self == LexError::UnexpectedCharacter ==> r@ == "Unexpected character."@,
    {
        match self {
            LexError::UnterminatedString => "Unterminated string",
            LexError::UnexpectedCharacter => "Unexpected character.",
        }
    }
}

/// A token: its kind and the byte range `[start, start + length)` of the source
/// that it covers, with the line it ends on. An `Error` token also says what went wrong.
#[derive(Clone, Copy, Debug)]
pub struct Token<'a> {
    pub kind: TokenKind,
    pub start: usize,
    pub length: usize,
    pub line: usize,
    pub source: &'a str,
    pub error: Option<LexError>,
}

/// The mathematical content of a token.
pub struct Lexed {
    pub kind: TokenKind,
    pub start: int,
    pub length: int,
    pub line: int,
    pub error: Option<LexError>,
}

impl<'a> View for Token<'a> {
    type V = Lexed;

    open spec fn view(&self) -> Lexed {
        Lexed {
            kind: self.kind,
            start: self.start as int,
            length: self.length as int,
            line: self.line as int,
            error: self.error,
        }
    }
}

// ---------------------------------------------------------------------------
// The lexical grammar, on the bytes of the source.
// ---------------------------------------------------------------------------

/// The byte at `i`, or 0 past either end.
pub open spec fn byte_at(s: Seq<u8>, i: int) -> u8 {
    if 0 <= i < s.len() {
        s[i]
    } else {
        0
    }
}

pub open spec fn is_digit(c: u8) -> bool {
    '0' as u8 <= c <= '9' as u8
}

pub open spec fn is_alpha(c: u8) -> bool {
    ('a' as u8 <= c <= 'z' as u8) || ('A' as u8 <= c <= 'Z' as u8) || c == '_' as u8
}

pub open spec fn is_alnum(c: u8) -> bool {
    is_alpha(c) || is_digit(c)
}

/// Index of the line break (or end of input) that ends a comment running through `i`.
pub open spec fn comment_end(s: Seq<u8>, i: int) -> int
    decreases s.len() - i,
{
    if 0 <= i < s.len() && s[i] != '\n' as u8 {
        comment_end(s, i + 1)
    } else {
        i
    }
}

/// Position and line after skipping whitespace, line breaks and `//` comments.
pub open spec fn skip_ws(s: Seq<u8>, pos: int, line: int) -> (int, int)
    decreases s.len() - pos,
{
    if 0 <= pos < s.len() {
        let c = s[pos];
        if c == ' ' as u8 || c == '\r' as u8 || c == '\t' as u8 {
            skip_ws(s, pos + 1, line)
        } else if c == '\n' as u8 {
            skip_ws(s, pos + 1, line + 1)
        } else if c == '/' as u8 && byte_at(s, pos + 1) == '/' as u8 {
            proof {
                lemma_comment_end_bounds(s, pos + 1);
            }
            skip_ws(s, comment_end(s, pos + 1), line)
        } else {
            (pos, line)
        }
    } else {
        (pos, line)
    }
}

/// End of the run of digits starting at `i`.
pub open spec fn digits_end(s: Seq<u8>, i: int) -> int
    decreases s.len() - i,
{
    if 0 <= i < s.len() && is_digit(s[i]) {
        digits_end(s, i + 1)
    } else {
        i
    }
}

/// End of the run of letters, digits and underscores starting at `i`.
pub open spec fn ident_end(s: Seq<u8>, i: int) -> int
    decreases s.len() - i,
{
    if 0 <= i < s.len() && is_alnum(s[i]) {
        ident_end(s, i + 1)
    } else {
        i
    }
}

/// End of a number literal whose first digit precedes `i`: more digits, then
/// optionally a `.` that is followed by at least one digit, and those digits.
pub open spec fn number_end(s: Seq<u8>, i: int) -> int {
    let e = digits_end(s, i);
    if byte_at(s, e) == '.' as u8 && is_digit(byte_at(s, e + 1)) {
        digits_end(s, e + 1)
    } else {
        e
    }
}

/// Position of the closing quote (or end of input) of a string body starting
/// at `i`, and the line reached, counting the line breaks inside.
pub open spec fn string_end(s: Seq<u8>, i: int, line: int) -> (int, int)
    decreases s.len() - i,
{
    if 0 <= i < s.len() && s[i] != '"' as u8 {
        string_end(s, i + 1, if s[i] == '\n' as u8 { line + 1 } else { line })
    } else {
        (i, line)
    }
}

/// The keyword that `w` spells, or `Identifier`.
pub open spec fn keyword_kind(w: Seq<u8>) -> TokenKind {
    if w == seq!['a' as u8, 'n' as u8, 'd' as u8] {
        TokenKind::And
    } else if w == seq!['c' as u8, 'l' as u8, 'a' as u8, 's' as u8, 's' as u8] {
        TokenKind::Class
    } else if w == seq!['e' as u8, 'l' as u8, 's' as u8, 'e' as u8] {
        TokenKind::Else
    } else if w == seq!['f' as u8, 'a' as u8, 'l' as u8, 's' as u8, 'e' as u8] {
        TokenKind::False
    } else if w == seq!['f' as u8, 'o' as u8, 'r' as u8] {
        TokenKind::For
    } else if w == seq!['f' as u8, 'u' as u8, 'n' as u8] {
        TokenKind::Fun
    } else if w == seq!['i' as u8, 'f' as u8] {
        TokenKind::If
    } else if w == seq!['n' as u8, 'i' as u8, 'l' as u8] {
        TokenKind::Nil
    } else if w == seq!['o' as u8, 'r' as u8] {
        TokenKind::Or
    } else if w == seq!['p' as u8, 'r' as u8, 'i' as u8, 'n' as u8, 't' as u8] {
        TokenKind::Print
    } else if w == seq!['r' as u8, 'e' as u8, 't' as u8, 'u' as u8, 'r' as u8, 'n' as u8] {
        TokenKind::Return
    } else if w == seq!['s' as u8, 'u' as u8, 'p' as u8, 'e' as u8, 'r' as u8] {
        TokenKind::Super
    } else if w == seq!['t' as u8, 'h' as u8, 'i' as u8, 's' as u8] {
        TokenKind::This
    } else if w == seq!['t' as u8, 'r' as u8, 'u' as u8, 'e' as u8] {
        TokenKind::True
    } else if w == seq!['v' as u8, 'a' as u8, 'r' as u8] {
        TokenKind::Var
    } else if w == seq!['w' as u8, 'h' as u8, 'i' as u8, 'l' as u8, 'e' as u8] {
        TokenKind::While
    } else {
        TokenKind::Identifier
    }
}

/// The kind of a one-byte punctuation token.
pub open spec fn single_kind(c: u8) -> Option<TokenKind> {
    if c == '(' as u8 {
        Some(TokenKind::LeftParen)
    } else if c == ')' as u8 {
        Some(TokenKind::RightParen)
    } else if c == '{' as u8 {
        Some(TokenKind::LeftBrace)
    } else if c == '}' as u8 {
        Some(TokenKind::RightBrace)
    } else if c == ';' as u8 {
        Some(TokenKind::Semicolon)
    } else if c == ',' as u8 {
        Some(TokenKind::Comma)
    } else if c == '.' as u8 {
        Some(TokenKind::Dot)
    } else if c == '-' as u8 {
        Some(TokenKind::Minus)
    } else if c == '+' as u8 {
        Some(TokenKind::Plus)
    } else if c == '/' as u8 {
        Some(TokenKind::Slash)
    } else if c == '*' as u8 {
        Some(TokenKind::Star)
    } else {
        None
    }
}

/// The kinds of an operator that may be followed by `=`: alone, and with the `=`.
pub open spec fn pair_kinds(c: u8) -> Option<(TokenKind, TokenKind)> {
    if c == '!' as u8 {
        Some((TokenKind::Bang, TokenKind::BangEqual))
    } else if c == '=' as u8 {
        Some((TokenKind::Equal, TokenKind::EqualEqual))
    } else if c == '<' as u8 {
        Some((TokenKind::Less, TokenKind::LessEqual))
    } else if c == '>' as u8 {
        Some((TokenKind::Greater, TokenKind::GreaterEqual))
    } else {
        None
    }
}

pub open spec fn lexed(kind: TokenKind, start: int, end: int, line: int) -> Lexed {
    Lexed { kind, start, length: end - start, line, error: None }
}

pub open spec fn lex_error(err: LexError, start: int, end: int, line: int) -> Lexed {
    Lexed { kind: TokenKind::Error, start, length: end - start, line, error: Some(err) }
}

/// The token that starts at `p` on `line` (no whitespace before it), with the
/// position and line after it.
pub open spec fn token_at(s: Seq<u8>, p: int, line: int) -> (Lexed, int, int) {
    if p >= s.len() {
        (lexed(TokenKind::Eof, p, p, line), p, line)
    } else {
        let c = s[p];
        if is_digit(c) {
            let e = number_end(s, p + 1);
            (lexed(TokenKind::Number, p, e, line), e, line)
        } else if is_alpha(c) {
            let e = ident_end(s, p + 1);
            (lexed(keyword_kind(s.subrange(p, e)), p, e, line), e, line)
        } else if single_kind(c).is_some() {
            (lexed(single_kind(c).unwrap(), p, p + 1, line), p + 1, line)
        } else if pair_kinds(c).is_some() {
            if byte_at(s, p + 1) == '=' as u8 {
                (lexed(pair_kinds(c).unwrap().1, p, p + 2, line), p + 2, line)
            } else {
                (lexed(pair_kinds(c).unwrap().0, p, p + 1, line), p + 1, line)
            }
        } else if c == '"' as u8 {
            let (e, l) = string_end(s, p + 1, line);
            if e < s.len() {
                (lexed(TokenKind::String, p, e + 1, l), e + 1, l)
            } else {
                (lex_error(LexError::UnterminatedString, p, e, l), e, l)
            }
        } else {
            (lex_error(LexError::UnexpectedCharacter, p, p + 1, line), p + 1, line)
        }
    }
}

/// The next token from `pos` on `line`, with the position and line after it.
pub open spec fn scan(s: Seq<u8>, pos: int, line: int) -> (Lexed, int, int) {
    let (p, l) = skip_ws(s, pos, line);
    token_at(s, p, l)
}

// ---------------------------------------------------------------------------
// Facts about the grammar.
// ---------------------------------------------------------------------------

pub proof fn lemma_comment_end_bounds(s: Seq<u8>, i: int)
    requires
        0 <= i <= s.len(),
    ensures
        i <= comment_end(s, i) <= s.len(),
    decreases s.len() - i,
{
    if 0 <= i < s.len() && s[i] != '\n' as u8 {
        lemma_comment_end_bounds(s, i + 1);
    }
}

pub proof fn lemma_skip_ws_bounds(s: Seq<u8>, pos: int, line: int)
    requires
        0 <= pos <= s.len(),
    ensures
        pos <= skip_ws(s, pos, line).0 <= s.len(),
        line <= skip_ws(s, pos, line).1,
        skip_ws(s, pos, line).1 - skip_ws(s, pos, line).0 <= line - pos,
    decreases s.len() - pos,
{
    if 0 <= pos < s.len() {
        let c = s[pos];
        if c == ' ' as u8 || c == '\r' as u8 || c == '\t' as u8 || c == '\n' as u8 {
            lemma_skip_ws_bounds(s, pos + 1, if c == '\n' as u8 { line + 1 } else { line });
        } else if c == '/' as u8 && byte_at(s, pos + 1) == '/' as u8 {
            lemma_comment_end_bounds(s, pos + 1);
            lemma_skip_ws_bounds(s, comment_end(s, pos + 1), line);
        }
    }
}

pub proof fn lemma_digits_end_bounds(s: Seq<u8>, i: int)
    requires
        0 <= i <= s.len(),
    ensures
        i <= digits_end(s, i) <= s.len(),
    decreases s.len() - i,
{
    if 0 <= i < s.len() && is_digit(s[i]) {
        lemma_digits_end_bounds(s, i + 1);
    }
}

pub proof fn lemma_ident_end_bounds(s: Seq<u8>, i: int)
    requires
        0 <= i <= s.len(),
    ensures
        i <= ident_end(s, i) <= s.len(),
    decreases s.len() - i,
{
    if 0 <= i < s.len() && is_alnum(s[i]) {
        lemma_ident_end_bounds(s, i + 1);
    }
}

pub proof fn lemma_string_end_bounds(s: Seq<u8>, i: int, line: int)
    requires
        0 <= i <= s.len(),
    ensures
        i <= string_end(s, i, line).0 <= s.len(),
        line <= string_end(s, i, line).1,
        string_end(s, i, line).1 - string_end(s, i, line).0 <= line - i,
        string_end(s, i, line).0 < s.len() ==> s[string_end(s, i, line).0] == '"' as u8,
    decreases s.len() - i,
{
    if 0 <= i < s.len() && s[i] != '"' as u8 {
        lemma_string_end_bounds(s, i + 1, if s[i] == '\n' as u8 { line + 1 } else { line });
    }
}

/// Scanning never moves backwards, stays within the input, counts at most one
/// line per byte, and makes progress on every token but `Eof`.
pub proof fn lemma_scan_bounds(s: Seq<u8>, pos: int, line: int)
    requires
        0 <= pos <= s.len(),
    ensures
        ({
            let (t, p, l) = scan(s, pos, line);
            &&& pos <= t.start <= p <= s.len()
            &&& t.start + t.length == p
            &&& line <= t.line == l
            &&& l - p <= line - pos
            &&& (t.kind == TokenKind::Eof <==> p == t.start)
            &&& (t.kind == TokenKind::Eof ==> p == s.len())
            &&& (t.kind == TokenKind::Error <==> t.error.is_some())
        }),
{
    lemma_skip_ws_bounds(s, pos, line);
    let (p, l) = skip_ws(s, pos, line);
    if p < s.len() {
        lemma_digits_end_bounds(s, p + 1);
        lemma_ident_end_bounds(s, p + 1);
        lemma_string_end_bounds(s, p + 1, l);
        let e = digits_end(s, p + 1);
        if byte_at(s, e) == '.' as u8 && is_digit(byte_at(s, e + 1)) {
            lemma_digits_end_bounds(s, e + 1);
        }
    }
}

/// A word equals a keyword exactly when they agree on their first `n` bytes and on the rest.
pub proof fn lemma_split_eq(w: Seq<u8>, k: Seq<u8>, n: int)
    requires
        0 <= n <= k.len(),
        n <= w.len(),
    ensures
        w == k <==> (w.subrange(0, n) == k.subrange(0, n) && w.subrange(n, w.len() as int)
            == k.subrange(n, k.len() as int)),
{
    if w.subrange(0, n) == k.subrange(0, n) && w.subrange(n, w.len() as int) == k.subrange(
        n,
        k.len() as int,
    ) {
        assert(w =~= w.subrange(0, n) + w.subrange(n, w.len() as int));
        assert(k =~= k.subrange(0, n) + k.subrange(n, k.len() as int));
    }
}

/// `kind` when the rest of a word is `k`, else `Identifier`.
pub open spec fn pick_keyword(rest: Seq<u8>, k: Seq<u8>, kind: TokenKind) -> TokenKind {
    if rest =~= k {
        kind
    } else {
        TokenKind::Identifier
    }
}

/// How a keyword is recognised from its first byte (and, for `f` and `t`, its second).
pub open spec fn keyword_by_prefix(w: Seq<u8>) -> TokenKind {
    let rest1 = w.subrange(1, w.len() as int);
    let rest2 = w.subrange(2, w.len() as int);
    if w[0] == 'a' as u8 {
        pick_keyword(rest1, seq!['n' as u8, 'd' as u8], TokenKind::And)
    } else if w[0] == 'c' as u8 {
        pick_keyword(rest1, seq!['l' as u8, 'a' as u8, 's' as u8, 's' as u8], TokenKind::Class)
    } else if w[0] == 'e' as u8 {
        pick_keyword(rest1, seq!['l' as u8, 's' as u8, 'e' as u8], TokenKind::Else)
    } else if w[0] == 'f' as u8 {
        if w.len() > 1 && w[1] == 'a' as u8 {
            pick_keyword(rest2, seq!['l' as u8, 's' as u8, 'e' as u8], TokenKind::False)
        } else if w.len() > 1 && w[1] == 'o' as u8 {
            pick_keyword(rest2, seq!['r' as u8], TokenKind::For)
        } else if w.len() > 1 && w[1] == 'u' as u8 {
            pick_keyword(rest2, seq!['n' as u8], TokenKind::Fun)
        } else {
            TokenKind::Identifier
        }
    } else if w[0] == 't' as u8 {
        if w.len() > 1 && w[1] == 'h' as u8 {
            pick_keyword(rest2, seq!['i' as u8, 's' as u8], TokenKind::This)
        } else if w.len() > 1 && w[1] == 'r' as u8 {
            pick_keyword(rest2, seq!['u' as u8, 'e' as u8], TokenKind::True)
        } else {
            TokenKind::Identifier
        }
    } else if w[0] == 'i' as u8 {
        pick_keyword(rest1, seq!['f' as u8], TokenKind::If)
    } else if w[0] == 'n' as u8 {
        pick_keyword(rest1, seq!['i' as u8, 'l' as u8], TokenKind::Nil)
    } else if w[0] == 'o' as u8 {
        pick_keyword(rest1, seq!['r' as u8], TokenKind::Or)
    } else if w[0] == 'p' as u8 {
        pick_keyword(rest1, seq!['r' as u8, 'i' as u8, 'n' as u8, 't' as u8], TokenKind::Print)
    } else if w[0] == 'r' as u8 {
        pick_keyword(rest1, seq!['e' as u8, 't' as u8, 'u' as u8, 'r' as u8, 'n' as u8], TokenKind::Return)
    } else if w[0] == 's' as u8 {
        pick_keyword(rest1, seq!['u' as u8, 'p' as u8, 'e' as u8, 'r' as u8], TokenKind::Super)
    } else if w[0] == 'v' as u8 {
        pick_keyword(rest1, seq!['a' as u8, 'r' as u8], TokenKind::Var)
    } else if w[0] == 'w' as u8 {
        pick_keyword(rest1, seq!['h' as u8, 'i' as u8, 'l' as u8, 'e' as u8], TokenKind::While)
    } else {
        TokenKind::Identifier
    }
}

proof fn lemma_kw(w: Seq<u8>, k: Seq<u8>)
    requires
        w.len() >= 1,
        k.len() >= 2,
    ensures
        (w == k) == (w[0] == k[0] && w.subrange(1, w.len() as int) == k.subrange(1, k.len() as int)),
        w.len() >= 2 ==> ((w == k) == (w[0] == k[0] && w[1] == k[1] && w.subrange(2, w.len() as int)
            == k.subrange(2, k.len() as int))),
{
    lemma_split_eq(w, k, 1);
    if w[0] == k[0] {
        assert(w.subrange(0, 1) =~= k.subrange(0, 1));
    }
    if w.len() >= 2 {
        lemma_split_eq(w, k, 2);
        if w[0] == k[0] && w[1] == k[1] {
            assert(w.subrange(0, 2) =~= k.subrange(0, 2));
        }
    }
}

/// The first-byte dispatch recognises exactly the keyword table.
pub proof fn lemma_keyword_kind_by_prefix(w: Seq<u8>)
    requires
        w.len() >= 1,
    ensures
        keyword_kind(w) == keyword_by_prefix(w),
{
    let k_and = seq!['a' as u8, 'n' as u8, 'd' as u8];
    let k_class = seq!['c' as u8, 'l' as u8, 'a' as u8, 's' as u8, 's' as u8];
    let k_else = seq!['e' as u8, 'l' as u8, 's' as u8, 'e' as u8];
    let k_false = seq!['f' as u8, 'a' as u8, 'l' as u8, 's' as u8, 'e' as u8];
    let k_for = seq!['f' as u8, 'o' as u8, 'r' as u8];
    let k_fun = seq!['f' as u8, 'u' as u8, 'n' as u8];
    let k_if = seq!['i' as u8, 'f' as u8];
    let k_nil = seq!['n' as u8, 'i' as u8, 'l' as u8];
    let k_or = seq!['o' as u8, 'r' as u8];
    let k_print = seq!['p' as u8, 'r' as u8, 'i' as u8, 'n' as u8, 't' as u8];
    let k_return = seq!['r' as u8, 'e' as u8, 't' as u8, 'u' as u8, 'r' as u8, 'n' as u8];
    let k_super = seq!['s' as u8, 'u' as u8, 'p' as u8, 'e' as u8, 'r' as u8];
    let k_this = seq!['t' as u8, 'h' as u8, 'i' as u8, 's' as u8];
    let k_true = seq!['t' as u8, 'r' as u8, 'u' as u8, 'e' as u8];
    let k_var = seq!['v' as u8, 'a' as u8, 'r' as u8];
    let k_while = seq!['w' as u8, 'h' as u8, 'i' as u8, 'l' as u8, 'e' as u8];
    lemma_kw(w, k_and);
    lemma_kw(w, k_class);
    lemma_kw(w, k_else);
    lemma_kw(w, k_false);
    lemma_kw(w, k_for);
    lemma_kw(w, k_fun);
    lemma_kw(w, k_if);
    lemma_kw(w, k_nil);
    lemma_kw(w, k_or);
    lemma_kw(w, k_print);
    lemma_kw(w, k_return);
    lemma_kw(w, k_super);
    lemma_kw(w, k_this);
    lemma_kw(w, k_true);
    lemma_kw(w, k_var);
    lemma_kw(w, k_while);
    assert(k_and.subrange(1, 3) =~= seq!['n' as u8, 'd' as u8]);
    assert(k_class.subrange(1, 5) =~= seq!['l' as u8, 'a' as u8, 's' as u8, 's' as u8]);
    assert(k_else.subrange(1, 4) =~= seq!['l' as u8, 's' as u8, 'e' as u8]);
    assert(k_false.subrange(2, 5) =~= seq!['l' as u8, 's' as u8, 'e' as u8]);
    assert(k_for.subrange(2, 3) =~= seq!['r' as u8]);
    assert(k_fun.subrange(2, 3) =~= seq!['n' as u8]);
    assert(k_if.subrange(1, 2) =~= seq!['f' as u8]);
    assert(k_nil.subrange(1, 3) =~= seq!['i' as u8, 'l' as u8]);
    assert(k_or.subrange(1, 2) =~= seq!['r' as u8]);
    assert(k_print.subrange(1, 5) =~= seq!['r' as u8, 'i' as u8, 'n' as u8, 't' as u8]);
    assert(k_return.subrange(1, 6) =~= seq!['e' as u8, 't' as u8, 'u' as u8, 'r' as u8, 'n' as u8]);
    assert(k_super.subrange(1, 5) =~= seq!['u' as u8, 'p' as u8, 'e' as u8, 'r' as u8]);
    assert(k_this.subrange(2, 4) =~= seq!['i' as u8, 's' as u8]);
    assert(k_true.subrange(2, 4) =~= seq!['u' as u8, 'e' as u8]);
    assert(k_var.subrange(1, 3) =~= seq!['a' as u8, 'r' as u8]);
    assert(k_while.subrange(1, 5) =~= seq!['h' as u8, 'i' as u8, 'l' as u8, 'e' as u8]);
    if w.len() == 1 {
        assert(w.subrange(1, 1) =~= Seq::<u8>::empty());
    }
}

// ---------------------------------------------------------------------------
// Tokens.
// ---------------------------------------------------------------------------

impl<'a> Token<'a> {
    /// The bytes of the source that the token covers.
    pub fn lexeme(&self) -> (r: &'a [u8])
        requires
            self.start + self.length <= self.source.spec_bytes().len(),
        ensures
            r@ == self.source.spec_bytes().subrange(
                self.start as int,
                self.start + self.length,
            ),
    {
        let bytes = self.source.as_bytes();
        let _n = bytes.len();
        &bytes[self.start..self.start + self.length]
    }

    pub fn new(tty: TokenKind, start: usize, length: usize, line: usize, source: &'a str) -> (r:
        Self)
        ensures
            r@ == (Lexed { kind: tty, start: start as int, length: length as int, line: line as int, error: None }),
            r.source == source,
    {
        Self { kind: tty, start, length, line, source, error: None }
    }

    /// A placeholder `Eof` token over the empty text.
    pub fn dummy() -> (r: Self)
        ensures
            r@ == (Lexed { kind: TokenKind::Eof, start: 0, length: 0, line: 0, error: None }),
    {
        Token::new(TokenKind::Eof, 0, 0, 0, "")
    }
}


// ---------------------------------------------------------------------------
// The scanner.
// ---------------------------------------------------------------------------

pub fn digit(c: u8) -> (r: bool)
    ensures
        r == is_digit(c),
{
    '0' as u8 <= c && c <= '9' as u8
}

pub fn alpha(c: u8) -> (r: bool)
    ensures
        r == is_alpha(c),
{
    ('a' as u8 <= c && c <= 'z' as u8) || ('A' as u8 <= c && c <= 'Z' as u8) || c == '_' as u8
}

/// A tokenizer over a borrowed source. `start` is where the token being
/// scanned begins, `current` the next byte to read, `line` the current line.
pub struct Scanner<'a> {
    pub current: usize,
    pub line: usize,
    pub source: &'a str,
    pub start: usize,
}

impl<'a> Scanner<'a> {
    pub open spec fn bytes(&self) -> Seq<u8> {
        self.source.spec_bytes()
    }

    pub open spec fn wf(&self) -> bool {
        &&& self.bytes().len() < usize::MAX
        &&& self.start <= self.current <= self.bytes().len()
        &&& self.line <= self.current + 1
    }

    /// A scanner at the start of `source`, on line 1.
    pub fn new(source: &'a str) -> (r: Self)
        requires
            source.spec_bytes().len() < usize::MAX,
        ensures
            r.wf(),
            r.source == source,
            r.current == 0,
            r.start == 0,
            r.line == 1,
    {
        Self { current: 0, line: 1, start: 0, source }
    }

    pub fn skip_whitespace(&mut self)
        requires
            old(self).wf(),
        ensures
            final(self).wf(),
            final(self).source == old(self).source,
            final(self).start == old(self).start,
            (final(self).current as int, final(self).line as int) == skip_ws(
                old(self).bytes(),
                old(self).current as int,
                old(self).line as int,
            ),
    {
        let ghost s = self.bytes();
        loop
            invariant
                self.wf(),
                self.source == old(self).source,
                self.start == old(self).start,
                s == self.bytes(),
                skip_ws(s, self.current as int, self.line as int) == skip_ws(
                    s,
                    old(self).current as int,
                    old(self).line as int,
                ),
            decreases s.len() - self.current,
        {
            let c: u8 = self.peek();
            if c == ' ' as u8 || c == '\r' as u8 || c == '\t' as u8 {
                self.advance();
            } else if c == '\n' as u8 {
                self.advance();
                self.line += 1;
            } else if c == '/' as u8 {
                if self.peek_offset(1) == '/' as u8 {
                    let ghost p = self.current as int;
                    proof {
                        lemma_comment_end_bounds(s, p + 1);
                    }
                    while self.peek() != '\n' as u8 && !self.is_at_end()
                        invariant
                            self.wf(),
                            self.source == old(self).source,
                            self.start == old(self).start,
                            s == self.bytes(),
                            p <= self.current,
                            comment_end(s, self.current as int) == comment_end(s, p + 1),
                            skip_ws(s, p, self.line as int) == skip_ws(
                                s,
                                old(self).current as int,
                                old(self).line as int,
                            ),
                        decreases s.len() - self.current,
                    {
                        self.advance();
                    }
                } else {
                    return;
                }
            } else {
                return;
            }
        }
    }

    /// Scans the next token; at the end of the input, an `Eof` token (again on every call).
    pub fn scan_token(&mut self) -> (r: Token<'a>)
        requires
            old(self).wf(),
        ensures
            final(self).wf(),
            final(self).source == old(self).source,
            r.source == old(self).source,
            final(self).start == r.start,
            (r@, final(self).current as int, final(self).line as int) == scan(
                old(self).bytes(),
                old(self).current as int,
                old(self).line as int,
            ),
    {
        let ghost s = self.bytes();
        self.skip_whitespace();
        self.start = self.current;
        if self.is_at_end() {
            return self.make_token(TokenKind::Eof);
        }
        let c = self.advance();
        proof {
            lemma_digits_end_bounds(s, self.current as int);
            lemma_ident_end_bounds(s, self.current as int);
        }

        if digit(c) {
            return self.number();
        } else if alpha(c) {
            return self.identifer();
        }

        if c == '(' as u8 {
            self.make_token(TokenKind::LeftParen)
        } else if c == ')' as u8 {
            self.make_token(TokenKind::RightParen)
        } else if c == '{' as u8 {
            self.make_token(TokenKind::LeftBrace)
        } else if c == '}' as u8 {
            self.make_token(TokenKind::RightBrace)
        } else if c == ';' as u8 {
            self.make_token(TokenKind::Semicolon)
        } else if c == ',' as u8 {
            self.make_token(TokenKind::Comma)
        } else if c == '.' as u8 {
            self.make_token(TokenKind::Dot)
        } else if c == '-' as u8 {
            self.make_token(TokenKind::Minus)
        } else if c == '+' as u8 {
            self.make_token(TokenKind::Plus)
        } else if c == '/' as u8 {
            self.make_token(TokenKind::Slash)
        } else if c == '*' as u8 {
            self.make_token(TokenKind::Star)
        } else if c == '!' as u8 {
            if self.match_char('=' as u8) {
                self.make_token(TokenKind::BangEqual)
            } else {
                self.make_token(TokenKind::Bang)
            }
        } else if c == '=' as u8 {
            if self.match_char('=' as u8) {
                self.make_token(TokenKind::EqualEqual)
            } else {
                self.make_token(TokenKind::Equal)
            }
        } else if c == '<' as u8 {
            if self.match_char('=' as u8) {
                self.make_token(TokenKind::LessEqual)
            } else {
                self.make_token(TokenKind::Less)
            }
        } else if c == '>' as u8 {
            if self.match_char('=' as u8) {
                self.make_token(TokenKind::GreaterEqual)
            } else {
                self.make_token(TokenKind::Greater)
            }
        } else if c == '"' as u8 {
            self.string()
        } else {
            self.error_token(LexError::UnexpectedCharacter)
        }
    }

    /// Consumes the next byte and returns it.
    pub fn advance(&mut self) -> (r: u8)
        requires
            old(self).wf(),
            old(self).current < old(self).bytes().len(),
        ensures
            final(self).wf(),
            *final(self) == (Scanner { current: (old(self).current + 1) as usize, ..*old(self) }),
            r == old(self).bytes()[old(self).current as int],
    {
        let c = self.peek();
        self.current += 1;
        c
    }

    /// The byte `idx` places ahead, or 0 past the end.
    pub fn peek_offset(&self, idx: usize) -> (r: u8)
        requires
            self.wf(),
        ensures
            r == byte_at(self.bytes(), self.current + idx),
    {
        let bytes = self.source.as_bytes();
        if idx < bytes.len() - self.current {
            bytes[self.current + idx]
        } else {
            0
        }
    }

    pub fn peek(&self) -> (r: u8)
        requires
            self.wf(),
        ensures
            r == byte_at(self.bytes(), self.current as int),
    {
        self.peek_offset(0)
    }

    /// Consumes the next byte if it is `expected`.
    pub fn match_char(&mut self, expected: u8) -> (r: bool)
        requires
            old(self).wf(),
        ensures
            final(self).wf(),
            r == (old(self).current < old(self).bytes().len() && old(self).bytes()[old(
                self,
            ).current as int] == expected),
            *final(self) == (Scanner {
                current: if r {
                    (old(self).current + 1) as usize
                } else {
                    old(self).current
                },
                ..*old(self)
            }),
    {
        if self.is_at_end() || self.peek() != expected {
            false
        } else {
            self.current += 1;
            true
        }
    }

    /// The input is exhausted.
    pub fn is_at_end(&self) -> (r: bool)
        requires
            self.wf(),
        ensures
            r == (self.current >= self.bytes().len()),
    {
        self.current >= self.source.len()
    }

    /// A token of the given kind over `[start, current)`.
    pub fn make_token(&self, tty: TokenKind) -> (r: Token<'a>)
        requires
            self.wf(),
        ensures
            r@ == lexed(tty, self.start as int, self.current as int, self.line as int),
            r.source == self.source,
    {
        Token::new(tty, self.start, self.current - self.start, self.line, self.source)
    }

    /// An `Error` token over `[start, current)`.
    pub fn error_token(&self, error: LexError) -> (r: Token<'a>)
        requires
            self.wf(),
        ensures
            r@ == lex_error(error, self.start as int, self.current as int, self.line as int),
            r.source == self.source,
    {
        Token {
            kind: TokenKind::Error,
            start: self.start,
            length: self.current - self.start,
            line: self.line,
            source: self.source,
            error: Some(error),
        }
    }

    /// Scans the rest of a string literal whose opening quote was just consumed.
    pub fn string(&mut self) -> (r: Token<'a>)
        requires
            old(self).wf(),
            old(self).current == old(self).start + 1,
            old(self).bytes()[old(self).start as int] == '"' as u8,
        ensures
            final(self).wf(),
            final(self).source == old(self).source,
            final(self).start == old(self).start,
            r.source == old(self).source,
            (r@, final(self).current as int, final(self).line as int) == token_at(
                old(self).bytes(),
                old(self).start as int,
                old(self).line as int,
            ),
    {
        let ghost s = self.bytes();
        proof {
            lemma_string_end_bounds(s, self.current as int, self.line as int);
        }
        while self.peek() != '"' as u8 && !self.is_at_end()
            invariant
                self.wf(),
                self.source == old(self).source,
                self.start == old(self).start,
                s == self.bytes(),
                old(self).current <= self.current,
                string_end(s, self.current as int, self.line as int) == string_end(
                    s,
                    old(self).current as int,
                    old(self).line as int,
                ),
            decreases s.len() - self.current,
        {
            if self.advance() == '\n' as u8 {
                self.line += 1;
            }
        }
        if self.peek() != '"' as u8 {
            self.error_token(LexError::UnterminatedString)
        } else {
            self.advance();
            self.make_token(TokenKind::String)
        }
    }

    /// Scans the rest of a number literal whose first digit was just consumed.
    pub fn number(&mut self) -> (r: Token<'a>)
        requires
            old(self).wf(),
        ensures
            final(self).wf(),
            final(self).source == old(self).source,
            final(self).start == old(self).start,
            final(self).line == old(self).line,
            final(self).current == number_end(old(self).bytes(), old(self).current as int),
            r@ == lexed(
                TokenKind::Number,
                old(self).start as int,
                final(self).current as int,
                old(self).line as int,
            ),
            r.source == old(self).source,
    {
        let ghost s = self.bytes();
        while digit(self.peek())
            invariant
                self.wf(),
                *self == (Scanner { current: self.current, ..*old(self) }),
                s == self.bytes(),
                digits_end(s, self.current as int) == digits_end(s, old(self).current as int),
            decreases s.len() - self.current,
        {
            self.advance();
        }
        if self.peek() == '.' as u8 && digit(self.peek_offset(1)) {
            let ghost e = self.current as int;
            self.advance();
            while digit(self.peek())
                invariant
                    self.wf(),
                    *self == (Scanner { current: self.current, ..*old(self) }),
                    s == self.bytes(),
                    digits_end(s, self.current as int) == digits_end(s, e + 1),
                decreases s.len() - self.current,
            {
                self.advance();
            }
        }
        self.make_token(TokenKind::Number)
    }

    /// Scans the rest of an identifier or keyword whose first letter was just consumed.
    pub fn identifer(&mut self) -> (r: Token<'a>)
        requires
            old(self).wf(),
            old(self).start < old(self).current,
        ensures
            final(self).wf(),
            final(self).source == old(self).source,
            final(self).start == old(self).start,
            final(self).line == old(self).line,
            final(self).current == ident_end(old(self).bytes(), old(self).current as int),
            r@ == lexed(
                keyword_kind(old(self).bytes().subrange(old(self).start as int, final(self).current as int)),
                old(self).start as int,
                final(self).current as int,
                old(self).line as int,
            ),
            r.source == old(self).source,
    {
        let ghost s = self.bytes();
        while alpha(self.peek()) || digit(self.peek())
            invariant
                self.wf(),
                *self == (Scanner { current: self.current, ..*old(self) }),
                old(self).current <= self.current,
                s == self.bytes(),
                ident_end(s, self.current as int) == ident_end(s, old(self).current as int),
            decreases s.len() - self.current,
        {
            self.advance();
        }
        let kind = self.identifer_type();
        self.make_token(kind)
    }

    /// The keyword spelled by `[start, current)`, or `Identifier`.
    pub fn identifer_type(&self) -> (r: TokenKind)
        requires
            self.wf(),
            self.start < self.current,
        ensures
            r == keyword_kind(self.bytes().subrange(self.start as int, self.current as int)),
    {
        let ghost w = self.bytes().subrange(self.start as int, self.current as int);
        let bytes = self.source.as_bytes();
        let first = bytes[self.start];
        proof {
            assert(w.subrange(1, w.len() as int) =~= self.bytes().subrange(
                self.start + 1,
                self.current as int,
            ));
            if w.len() > 1 {
                assert(w.subrange(2, w.len() as int) =~= self.bytes().subrange(
                    self.start + 2,
                    self.current as int,
                ));
            }
        }
        let r = if first == 'a' as u8 {
            self.check_keyword(1, &['n' as u8, 'd' as u8], TokenKind::And)
        } else if first == 'c' as u8 {
            self.check_keyword(1, &['l' as u8, 'a' as u8, 's' as u8, 's' as u8], TokenKind::Class)
        } else if first == 'e' as u8 {
            self.check_keyword(1, &['l' as u8, 's' as u8, 'e' as u8], TokenKind::Else)
        } else if first == 'f' as u8 {
            if self.current - self.start > 1 {
                let second = bytes[self.start + 1];
                if second == 'a' as u8 {
                    self.check_keyword(2, &['l' as u8, 's' as u8, 'e' as u8], TokenKind::False)
                } else if second == 'o' as u8 {
                    self.check_keyword(2, &['r' as u8], TokenKind::For)
                } else if second == 'u' as u8 {
                    self.check_keyword(2, &['n' as u8], TokenKind::Fun)
                } else {
                    TokenKind::Identifier
                }
            } else {
                TokenKind::Identifier
            }
        } else if first == 't' as u8 {
            if self.current - self.start > 1 {
                let second = bytes[self.start + 1];
                if second == 'h' as u8 {
                    self.check_keyword(2, &['i' as u8, 's' as u8], TokenKind::This)
                } else if second == 'r' as u8 {
                    self.check_keyword(2, &['u' as u8, 'e' as u8], TokenKind::True)
                } else {
                    TokenKind::Identifier
                }
            } else {
                TokenKind::Identifier
            }
        } else if first == 'i' as u8 {
            self.check_keyword(1, &['f' as u8], TokenKind::If)
        } else if first == 'n' as u8 {
            self.check_keyword(1, &['i' as u8, 'l' as u8], TokenKind::Nil)
        } else if first == 'o' as u8 {
            self.check_keyword(1, &['r' as u8], TokenKind::Or)
        } else if first == 'p' as u8 {
            self.check_keyword(1, &['r' as u8, 'i' as u8, 'n' as u8, 't' as u8], TokenKind::Print)
        } else if first == 'r' as u8 {
            self.check_keyword(
                1,
                &['e' as u8, 't' as u8, 'u' as u8, 'r' as u8, 'n' as u8],
                TokenKind::Return,
            )
        } else if first == 's' as u8 {
            self.check_keyword(1, &['u' as u8, 'p' as u8, 'e' as u8, 'r' as u8], TokenKind::Super)
        } else if first == 'v' as u8 {
            self.check_keyword(1, &['a' as u8, 'r' as u8], TokenKind::Var)
        } else if first == 'w' as u8 {
            self.check_keyword(1, &['h' as u8, 'i' as u8, 'l' as u8, 'e' as u8], TokenKind::While)
        } else {
            TokenKind::Identifier
        };
        proof {
            lemma_keyword_kind_by_prefix(w);
            assert(w[0] == first);
            assert(w.len() > 1 ==> w[1] == self.bytes()[self.start + 1]);
        }
        r
    }

    /// `kind` when `[start, current)` is its first `offset` bytes followed by
    /// exactly `expected`; otherwise `Identifier`.
    pub fn check_keyword(&self, offset: usize, expected: &[u8], kind: TokenKind) -> (r: TokenKind)
        requires
            self.wf(),
            offset <= self.current - self.start,
        ensures
            self.bytes().subrange(self.start + offset, self.current as int) =~= expected@ ==> r
                == kind,
            !(self.bytes().subrange(self.start + offset, self.current as int) =~= expected@) ==> r
                == TokenKind::Identifier,
    {
        let ghost w = self.bytes().subrange(self.start + offset, self.current as int);
        let bytes = self.source.as_bytes();
        if self.current - self.start - offset != expected.len() {
            assert(w.len() != expected@.len());
            return TokenKind::Identifier;
        }
        let base = self.start + offset;
        let mut i: usize = 0;
        while i < expected.len()
            invariant
                self.wf(),
                0 <= i <= expected@.len(),
                base + expected@.len() == self.current,
                base == self.start + offset,
                w == self.bytes().subrange(base as int, self.current as int),
                bytes@ == self.bytes(),
                w.len() == expected@.len(),
                forall|j: int| 0 <= j < i ==> w[j] == expected@[j],
            decreases expected@.len() - i,
        {
            if bytes[base + i] != expected[i] {
                assert(w[i as int] != expected@[i as int]);
                assert(w != expected@);
                return TokenKind::Identifier;
            }
            i += 1;
        }
        assert(w =~= expected@);
        kind
    }
}

} // verus!
