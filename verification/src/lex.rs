//! Lexical analysis: source text to a token sequence, and the
//! reversible token cursor the parser reads from.
//!
//! The token grammar, longest match first: integer literals (an
//! optional leading minus directly followed by digits), identifiers
//! (letter or underscore, then letters, digits, underscore or hyphen),
//! keywords (an identifier spelled `let`, `set`, `if`, `else`,
//! `while`), string literals in double quotes with `\t` `\r` `\n` `\"`
//! escape pairs kept verbatim, three- and two-character operators
//! before their one-character prefixes, line comments `//` to the end
//! of the line and whitespace elided, and anything else an error
//! token. `sp_tokens` is the model; `Lex::new` is proved to produce
//! exactly it.

use vstd::prelude::*;

verus! {

/// One token.
#[derive(Debug)]
pub enum Tok {
    Lit(i64),
    Ident(String),
    Plus,
    Minus,
    Star,
    Slash,
    Rem,
    Bang,
    Amp,
    Tilde,
    Equals,
    Semicolon,
    EqEq,
    Less,
    LessUnsigned,
    Greater,
    Or,
    Xor,
    RShift,
    ARShift,
    LShift,
    Let,
    LParen,
    RParen,
    LBracket,
    RBracket,
    If,
    Else,
    While,
    Comma,
    String(String),
    SetKw,
    Error,
}

/// Mathematical view of `Tok`.
pub enum TokView {
    Lit(int),
    Ident(Seq<char>),
    Plus,
    Minus,
    Star,
    Slash,
    Rem,
    Bang,
    Amp,
    Tilde,
    Equals,
    Semicolon,
    EqEq,
    Less,
    LessUnsigned,
    Greater,
    Or,
    Xor,
    RShift,
    ARShift,
    LShift,
    Let,
    LParen,
    RParen,
    LBracket,
    RBracket,
    If,
    Else,
    While,
    Comma,
    String(Seq<char>),
    SetKw,
    Error,
}

impl View for Tok {
    type V = TokView;

    open spec fn view(&self) -> TokView {
        match self {
            Tok::Lit(n) => TokView::Lit(*n as int),
            Tok::Ident(s) => TokView::Ident(s@),
            Tok::Plus => TokView::Plus,
            Tok::Minus => TokView::Minus,
            Tok::Star => TokView::Star,
            Tok::Slash => TokView::Slash,
            Tok::Rem => TokView::Rem,
            Tok::Bang => TokView::Bang,
            Tok::Amp => TokView::Amp,
            Tok::Tilde => TokView::Tilde,
            Tok::Equals => TokView::Equals,
            Tok::Semicolon => TokView::Semicolon,
            Tok::EqEq => TokView::EqEq,
            Tok::Less => TokView::Less,
            Tok::LessUnsigned => TokView::LessUnsigned,
            Tok::Greater => TokView::Greater,
            Tok::Or => TokView::Or,
            Tok::Xor => TokView::Xor,
            Tok::RShift => TokView::RShift,
            Tok::ARShift => TokView::ARShift,
            Tok::LShift => TokView::LShift,
            Tok::Let => TokView::Let,
            Tok::LParen => TokView::LParen,
            Tok::RParen => TokView::RParen,
            Tok::LBracket => TokView::LBracket,
            Tok::RBracket => TokView::RBracket,
            Tok::If => TokView::If,
            Tok::Else => TokView::Else,
            Tok::While => TokView::While,
            Tok::Comma => TokView::Comma,
            Tok::String(s) => TokView::String(s@),
            Tok::SetKw => TokView::SetKw,
            Tok::Error => TokView::Error,
        }
    }
}

impl DeepView for Tok {
    type V = TokView;

    open spec fn deep_view(&self) -> TokView {
        self.view()
    }
}

impl Clone for Tok {
    fn clone(&self) -> (res: Self)
        ensures
            res == *self,
    {
        match self {
            Tok::Lit(n) => Tok::Lit(*n),
            Tok::Ident(s) => Tok::Ident(s.clone()),
            Tok::Plus => Tok::Plus,
            Tok::Minus => Tok::Minus,
            Tok::Star => Tok::Star,
            Tok::Slash => Tok::Slash,
            Tok::Rem => Tok::Rem,
            Tok::Bang => Tok::Bang,
            Tok::Amp => Tok::Amp,
            Tok::Tilde => Tok::Tilde,
            Tok::Equals => Tok::Equals,
            Tok::Semicolon => Tok::Semicolon,
            Tok::EqEq => Tok::EqEq,
            Tok::Less => Tok::Less,
            Tok::LessUnsigned => Tok::LessUnsigned,
            Tok::Greater => Tok::Greater,
            Tok::Or => Tok::Or,
            Tok::Xor => Tok::Xor,
            Tok::RShift => Tok::RShift,
            Tok::ARShift => Tok::ARShift,
            Tok::LShift => Tok::LShift,
            Tok::Let => Tok::Let,
            Tok::LParen => Tok::LParen,
            Tok::RParen => Tok::RParen,
            Tok::LBracket => Tok::LBracket,
            Tok::RBracket => Tok::RBracket,
            Tok::If => Tok::If,
            Tok::Else => Tok::Else,
            Tok::While => Tok::While,
            Tok::Comma => Tok::Comma,
            Tok::String(s) => Tok::String(s.clone()),
            Tok::SetKw => Tok::SetKw,
            Tok::Error => Tok::Error,
        }
    }
}

/// Whitespace elided between tokens: space, tab, newline, carriage
/// return, form feed.
pub open spec fn is_ws(ch: char) -> bool {
    ch == ' ' || ch == '\t' || ch == '\n' || ch == '\r' || ch == '\u{c}'
}

/// A decimal digit.
pub open spec fn is_digit(ch: char) -> bool {
    '0' <= ch <= '9'
}

/// A character that can begin an identifier.
pub open spec fn is_ident_start(ch: char) -> bool {
    ('a' <= ch <= 'z') || ('A' <= ch <= 'Z') || ch == '_'
}

/// A character that can continue an identifier (hyphens included).
pub open spec fn is_ident_cont(ch: char) -> bool {
    is_ident_start(ch) || is_digit(ch) || ch == '-'
}

/// A character allowed after a backslash in a string literal.
pub open spec fn is_escape(ch: char) -> bool {
    ch == 't' || ch == 'r' || ch == 'n' || ch == '"'
}

/// End of the identifier run beginning at `i`.
pub open spec fn ident_end(cs: Seq<char>, i: int) -> int
    decreases cs.len() - i,
{
    if 0 <= i < cs.len() && is_ident_cont(cs[i]) {
        ident_end(cs, i + 1)
    } else {
        i
    }
}

/// End of the digit run beginning at `i`.
pub open spec fn digits_end(cs: Seq<char>, i: int) -> int
    decreases cs.len() - i,
{
    if 0 <= i < cs.len() && is_digit(cs[i]) {
        digits_end(cs, i + 1)
    } else {
        i
    }
}

/// Numeric value of the digits `cs[i..j]`.
pub open spec fn digits_val(cs: Seq<char>, i: int, j: int) -> nat
    decreases j - i,
{
    if i >= j {
        0
    } else {
        (digits_val(cs, i, j - 1) * 10 + (cs[j - 1] as u32 - 48)) as nat
    }
}

/// Position one past the closing quote of a string body starting at
/// `k` (just after the opening quote), or nothing when the literal is
/// unterminated or holds a bad escape.
pub open spec fn str_scan(cs: Seq<char>, k: int) -> Option<int>
    decreases cs.len() - k,
{
    if k < 0 || k >= cs.len() {
        None
    } else if cs[k] == '"' {
        Some(k + 1)
    } else if cs[k] == '\\' {
        if k + 1 < cs.len() && is_escape(cs[k + 1]) {
            str_scan(cs, k + 2)
        } else {
            None
        }
    } else {
        str_scan(cs, k + 1)
    }
}

/// Position after a line comment that begins at `i` (past the `//`):
/// one past the next newline or carriage return, or the end of input.
pub open spec fn comment_end(cs: Seq<char>, i: int) -> int
    decreases cs.len() - i,
{
    if i < 0 || i >= cs.len() {
        cs.len() as int
    } else if cs[i] == '\n' || cs[i] == '\r' {
        i + 1
    } else {
        comment_end(cs, i + 1)
    }
}

/// The keyword token an identifier spelling matches, if any.
pub open spec fn keyword_tok(text: Seq<char>) -> Option<TokView> {
    if text.len() == 3 && text[0] == 'l' && text[1] == 'e' && text[2] == 't' {
        Some(TokView::Let)
    } else if text.len() == 3 && text[0] == 's' && text[1] == 'e' && text[2] == 't' {
        Some(TokView::SetKw)
    } else if text.len() == 2 && text[0] == 'i' && text[1] == 'f' {
        Some(TokView::If)
    } else if text.len() == 4 && text[0] == 'e' && text[1] == 'l' && text[2] == 's' && text[3]
        == 'e' {
        Some(TokView::Else)
    } else if text.len() == 5 && text[0] == 'w' && text[1] == 'h' && text[2] == 'i' && text[3]
        == 'l' && text[4] == 'e' {
        Some(TokView::While)
    } else {
        None
    }
}

/// One step of the lexer at position `i`: the token produced (or
/// nothing, for elided whitespace and comments) and the position of
/// the next step.
pub struct LexStep {
    pub tok: Option<TokView>,
    pub next: int,
}

/// The largest value a negative literal may reach (2^63, the magnitude
/// of `i64::MIN`).
pub open spec fn neg_limit() -> nat {
    0x8000_0000_0000_0000
}

/// The next token at position `i`.
pub open spec fn sp_next(cs: Seq<char>, i: int) -> LexStep
    recommends
        0 <= i < cs.len(),
{
    let ch = cs[i];
    if is_ws(ch) {
        LexStep { tok: None, next: i + 1 }
    } else if ch == '/' && i + 1 < cs.len() && cs[i + 1] == '/' {
        LexStep { tok: None, next: comment_end(cs, i + 2) }
    } else if is_ident_start(ch) {
        let j = ident_end(cs, i);
        let text = cs.subrange(i, j);
        match keyword_tok(text) {
            Some(kw) => LexStep { tok: Some(kw), next: j },
            None => LexStep { tok: Some(TokView::Ident(text)), next: j },
        }
    } else if is_digit(ch) {
        let j = digits_end(cs, i);
        let v = digits_val(cs, i, j);
        if v <= i64::MAX {
            LexStep { tok: Some(TokView::Lit(v as int)), next: j }
        } else {
            LexStep { tok: Some(TokView::Error), next: j }
        }
    } else if ch == '-' && i + 1 < cs.len() && is_digit(cs[i + 1]) {
        let j = digits_end(cs, i + 1);
        let v = digits_val(cs, i + 1, j);
        if v <= neg_limit() {
            LexStep { tok: Some(TokView::Lit(-(v as int))), next: j }
        } else {
            LexStep { tok: Some(TokView::Error), next: j }
        }
    } else if ch == '"' {
        match str_scan(cs, i + 1) {
            Some(end) => LexStep {
                tok: Some(TokView::String(cs.subrange(i + 1, end - 1))),
                next: end,
            },
            None => LexStep { tok: Some(TokView::Error), next: i + 1 },
        }
    } else if ch == '=' {
        if i + 1 < cs.len() && cs[i + 1] == '=' {
            LexStep { tok: Some(TokView::EqEq), next: i + 2 }
        } else {
            LexStep { tok: Some(TokView::Equals), next: i + 1 }
        }
    } else if ch == '<' {
        if i + 1 < cs.len() && cs[i + 1] == '<' {
            LexStep { tok: Some(TokView::LShift), next: i + 2 }
        } else if i + 1 < cs.len() && cs[i + 1] == '_' {
            LexStep { tok: Some(TokView::LessUnsigned), next: i + 2 }
        } else {
            LexStep { tok: Some(TokView::Less), next: i + 1 }
        }
    } else if ch == '>' {
        if i + 2 < cs.len() && cs[i + 1] == '>' && cs[i + 2] == '_' {
            LexStep { tok: Some(TokView::RShift), next: i + 3 }
        } else if i + 1 < cs.len() && cs[i + 1] == '>' {
            LexStep { tok: Some(TokView::ARShift), next: i + 2 }
        } else {
            LexStep { tok: Some(TokView::Greater), next: i + 1 }
        }
    } else if ch == '+' {
        LexStep { tok: Some(TokView::Plus), next: i + 1 }
    } else if ch == '-' {
        LexStep { tok: Some(TokView::Minus), next: i + 1 }
    } else if ch == '*' {
        LexStep { tok: Some(TokView::Star), next: i + 1 }
    } else if ch == '/' {
        LexStep { tok: Some(TokView::Slash), next: i + 1 }
    } else if ch == '%' {
        LexStep { tok: Some(TokView::Rem), next: i + 1 }
    } else if ch == '!' {
        LexStep { tok: Some(TokView::Bang), next: i + 1 }
    } else if ch == '&' {
        LexStep { tok: Some(TokView::Amp), next: i + 1 }
    } else if ch == '~' {
        LexStep { tok: Some(TokView::Tilde), next: i + 1 }
    } else if ch == ';' {
        LexStep { tok: Some(TokView::Semicolon), next: i + 1 }
    } else if ch == '|' {
        LexStep { tok: Some(TokView::Or), next: i + 1 }
    } else if ch == '^' {
        LexStep { tok: Some(TokView::Xor), next: i + 1 }
    } else if ch == '(' {
        LexStep { tok: Some(TokView::LParen), next: i + 1 }
    } else if ch == ')' {
        LexStep { tok: Some(TokView::RParen), next: i + 1 }
    } else if ch == '{' {
        LexStep { tok: Some(TokView::LBracket), next: i + 1 }
    } else if ch == '}' {
        LexStep { tok: Some(TokView::RBracket), next: i + 1 }
    } else if ch == ',' {
        LexStep { tok: Some(TokView::Comma), next: i + 1 }
    } else {
        LexStep { tok: Some(TokView::Error), next: i + 1 }
    }
}

/// Bounds of the identifier run.
pub proof fn lemma_ident_end(cs: Seq<char>, i: int)
    requires
        0 <= i <= cs.len(),
    ensures
        i <= ident_end(cs, i) <= cs.len(),
    decreases cs.len() - i,
{
    if 0 <= i < cs.len() && is_ident_cont(cs[i]) {
        lemma_ident_end(cs, i + 1);
    }
}

/// Bounds of the digit run.
pub proof fn lemma_digits_end(cs: Seq<char>, i: int)
    requires
        0 <= i <= cs.len(),
    ensures
        i <= digits_end(cs, i) <= cs.len(),
    decreases cs.len() - i,
{
    if 0 <= i < cs.len() && is_digit(cs[i]) {
        lemma_digits_end(cs, i + 1);
    }
}

/// Bounds of the comment scan.
pub proof fn lemma_comment_end(cs: Seq<char>, i: int)
    requires
        0 <= i <= cs.len(),
    ensures
        i <= comment_end(cs, i) <= cs.len(),
    decreases cs.len() - i,
{
    if 0 <= i < cs.len() && !(cs[i] == '\n' || cs[i] == '\r') {
        lemma_comment_end(cs, i + 1);
    }
}

/// Bounds of the string scan.
pub proof fn lemma_str_scan(cs: Seq<char>, k: int)
    requires
        0 <= k <= cs.len(),
    ensures
        (str_scan(cs, k) matches Some(end) ==> k < end <= cs.len()),
    decreases cs.len() - k,
{
    if 0 <= k < cs.len() {
        if cs[k] == '"' {
        } else if cs[k] == '\\' {
            if k + 1 < cs.len() && is_escape(cs[k + 1]) {
                lemma_str_scan(cs, k + 2);
            }
        } else {
            lemma_str_scan(cs, k + 1);
        }
    }
}

/// Every lexer step advances.
pub proof fn lemma_next_advances(cs: Seq<char>, i: int)
    requires
        0 <= i < cs.len(),
    ensures
        i < sp_next(cs, i).next <= cs.len(),
{
    let ch = cs[i];
    if is_ws(ch) {
    } else if ch == '/' && i + 1 < cs.len() && cs[i + 1] == '/' {
        lemma_comment_end(cs, i + 2);
    } else if is_ident_start(ch) {
        lemma_ident_end(cs, i + 1);
    } else if is_digit(ch) {
        lemma_digits_end(cs, i + 1);
    } else if ch == '-' && i + 1 < cs.len() && is_digit(cs[i + 1]) {
        lemma_digits_end(cs, i + 2);
    } else if ch == '"' {
        lemma_str_scan(cs, i + 1);
    } else {
    }
}

/// All tokens from position `i` on.
pub open spec fn sp_tokens_from(cs: Seq<char>, i: int) -> Seq<TokView>
    decreases cs.len() - i,
{
    if i < 0 || i >= cs.len() {
        Seq::empty()
    } else {
        let st = sp_next(cs, i);
        let rest = if i < st.next <= cs.len() {
            sp_tokens_from(cs, st.next)
        } else {
            Seq::empty()
        };
        match st.tok {
            Some(t) => seq![t] + rest,
            None => rest,
        }
    }
}

/// The token sequence of a whole input.
pub open spec fn sp_tokens(cs: Seq<char>) -> Seq<TokView> {
    sp_tokens_from(cs, 0)
}

/// Every character of a digit run is a digit.
pub proof fn lemma_digits_run(cs: Seq<char>, i: int)
    requires
        0 <= i <= cs.len(),
    ensures
        forall|k: int| i <= k < digits_end(cs, i) ==> is_digit(#[trigger] cs[k]),
        digits_end(cs, i) <= cs.len(),
    decreases cs.len() - i,
{
    if 0 <= i < cs.len() && is_digit(cs[i]) {
        lemma_digits_run(cs, i + 1);
    }
}

fn ch_is_ws(ch: char) -> (b: bool)
    ensures
        b == is_ws(ch),
{
    ch == ' ' || ch == '\t' || ch == '\n' || ch == '\r' || ch == '\u{c}'
}

fn ch_is_digit(ch: char) -> (b: bool)
    ensures
        b == is_digit(ch),
{
    let c = ch as u32;
    48 <= c && c <= 57
}

fn ch_is_ident_start(ch: char) -> (b: bool)
    ensures
        b == is_ident_start(ch),
{
    let c = ch as u32;
    (97 <= c && c <= 122) || (65 <= c && c <= 90) || c == 95
}

fn ch_is_ident_cont(ch: char) -> (b: bool)
    ensures
        b == is_ident_cont(ch),
{
    ch_is_ident_start(ch) || ch_is_digit(ch) || ch == '-'
}

fn ch_is_escape(ch: char) -> (b: bool)
    ensures
        b == is_escape(ch),
{
    ch == 't' || ch == 'r' || ch == 'n' || ch == '"'
}

/// Walk to the end of an identifier run.
fn scan_ident(s: &str, start: usize, len: usize) -> (j: usize)
    requires
        len as nat == s@.len(),
        start <= len,
    ensures
        j as int == ident_end(s@, start as int),
        start <= j <= len,
    decreases s@.len() - start,
{
    let mut j = start;
    loop
        invariant
            start <= j <= len,
            len as nat == s@.len(),
            ident_end(s@, start as int) == ident_end(s@, j as int),
        ensures
            start <= j <= len,
            j as int == ident_end(s@, start as int),
        decreases len - j,
    {
        if j >= len {
            break ;
        }
        let ch = s.get_char(j);
        if !ch_is_ident_cont(ch) {
            break ;
        }
        j = j + 1;
    }
    j
}

/// Walk to the end of a digit run.
fn scan_digits(s: &str, start: usize, len: usize) -> (j: usize)
    requires
        len as nat == s@.len(),
        start <= len,
    ensures
        j as int == digits_end(s@, start as int),
        start <= j <= len,
{
    let mut j = start;
    loop
        invariant
            start <= j <= len,
            len as nat == s@.len(),
            digits_end(s@, start as int) == digits_end(s@, j as int),
        ensures
            start <= j <= len,
            j as int == digits_end(s@, start as int),
        decreases len - j,
    {
        if j >= len {
            break ;
        }
        let ch = s.get_char(j);
        if !ch_is_digit(ch) {
            break ;
        }
        j = j + 1;
    }
    j
}

/// Walk past the end of a line comment.
fn scan_comment(s: &str, start: usize, len: usize) -> (j: usize)
    requires
        len as nat == s@.len(),
        start <= len,
    ensures
        j as int == comment_end(s@, start as int),
        start <= j <= len,
{
    let mut j = start;
    loop
        invariant_except_break
            comment_end(s@, start as int) == comment_end(s@, j as int),
        invariant
            start <= j <= len,
            len as nat == s@.len(),
        ensures
            start <= j <= len,
            j as int == comment_end(s@, start as int),
        decreases len - j,
    {
        if j >= len {
            break ;
        }
        let ch = s.get_char(j);
        if ch == '\n' || ch == '\r' {
            j = j + 1;
            break ;
        }
        j = j + 1;
    }
    j
}

/// Walk a string literal body; the result is one past the closing
/// quote.
fn scan_str(s: &str, start: usize, len: usize) -> (r: Option<usize>)
    requires
        len as nat == s@.len(),
        start <= len,
    ensures
        (match r {
            Some(end) => str_scan(s@, start as int) == Some(end as int) && start < end <= len,
            None => str_scan(s@, start as int) is None,
        }),
{
    let mut k = start;
    loop
        invariant
            start <= k <= len,
            len as nat == s@.len(),
            str_scan(s@, start as int) == str_scan(s@, k as int),
        decreases len - k,
    {
        if k >= len {
            return None;
        }
        let ch = s.get_char(k);
        if ch == '"' {
            proof {
                lemma_str_scan(s@, start as int);
            }
            return Some(k + 1);
        } else if ch == '\\' {
            if k + 1 < len && ch_is_escape(s.get_char(k + 1)) {
                k = k + 2;
            } else {
                return None;
            }
        } else {
            k = k + 1;
        }
    }
}

/// Accumulate the value of the digit run `s[start..j]`; the flag
/// reports a value too large for 64 bits.
fn digits_value(s: &str, start: usize, j: usize, len: usize) -> (r: (bool, u64))
    requires
        len as nat == s@.len(),
        start <= j <= len,
        forall|k: int| start <= k < j ==> is_digit(#[trigger] s@[k]),
    ensures
        r.0 <==> digits_val(s@, start as int, j as int) > u64::MAX,
        !r.0 ==> r.1 as nat == digits_val(s@, start as int, j as int),
{
    let mut acc: u64 = 0;
    let mut ovf = false;
    let mut k = start;
    while k < j
        invariant
            start <= k <= j <= len,
            len as nat == s@.len(),
            forall|m: int| start <= m < j ==> is_digit(#[trigger] s@[m]),
            ovf <==> digits_val(s@, start as int, k as int) > u64::MAX,
            !ovf ==> acc as nat == digits_val(s@, start as int, k as int),
        decreases j - k,
    {
        let ch = s.get_char(k);
        let d = (ch as u32 - 48) as u64;
        proof {
            assert(is_digit(s@[k as int]));
            assert(d <= 9);
        }
        let ghost prev = digits_val(s@, start as int, k as int);
        let ghost next = digits_val(s@, start as int, k + 1);
        let ghost dd = (s@[k as int] as u32 - 48) as int;
        proof {
            assert(next == prev * 10 + dd);
            assert(0 <= dd <= 9);
        }
        if ovf {
            proof {
                assert(prev > u64::MAX && 0 <= dd && next == prev * 10 + dd ==> next > u64::MAX)
                    by (nonlinear_arith);
            }
        } else {
            if acc > (u64::MAX - d) / 10 {
                proof {
                    assert(d as int == dd);
                    assert(0 <= dd <= 9 && acc as int > (u64::MAX - dd) / 10 ==> acc as int * 10
                        + dd > u64::MAX) by (nonlinear_arith);
                    assert(acc * 10 + dd > u64::MAX);
                }
                ovf = true;
            } else {
                proof {
                    assert(d as int == dd);
                    assert(0 <= dd <= 9 && 0 <= acc as int <= (u64::MAX - dd) / 10 ==> acc as int
                        * 10 + dd <= u64::MAX) by (nonlinear_arith);
                    assert(acc * 10 + dd <= u64::MAX);
                }
                acc = acc * 10 + d;
            }
        }
        k = k + 1;
    }
    (ovf, acc)
}

/// The keyword a scanned identifier spells, if any.
fn keyword_of(s: &str, i: usize, j: usize, len: usize) -> (r: Option<Tok>)
    requires
        len as nat == s@.len(),
        i <= j <= len,
    ensures
        (match r {
            Some(t) => keyword_tok(s@.subrange(i as int, j as int)) == Some(t@),
            None => keyword_tok(s@.subrange(i as int, j as int)) is None,
        }),
{
    let n = j - i;
    let ghost text = s@.subrange(i as int, j as int);
    if n == 3 && s.get_char(i) == 'l' && s.get_char(i + 1) == 'e' && s.get_char(i + 2) == 't' {
        Some(Tok::Let)
    } else if n == 3 && s.get_char(i) == 's' && s.get_char(i + 1) == 'e' && s.get_char(i + 2)
        == 't' {
        Some(Tok::SetKw)
    } else if n == 2 && s.get_char(i) == 'i' && s.get_char(i + 1) == 'f' {
        Some(Tok::If)
    } else if n == 4 && s.get_char(i) == 'e' && s.get_char(i + 1) == 'l' && s.get_char(i + 2)
        == 's' && s.get_char(i + 3) == 'e' {
        Some(Tok::Else)
    } else if n == 5 && s.get_char(i) == 'w' && s.get_char(i + 1) == 'h' && s.get_char(i + 2)
        == 'i' && s.get_char(i + 3) == 'l' && s.get_char(i + 4) == 'e' {
        Some(Tok::While)
    } else {
        None
    }
}

/// Produce the token at position `i` and the position after it,
/// exactly as `sp_next` prescribes; no token for elided whitespace and
/// comments.
#[verifier::rlimit(100)]
fn next_token(s: &str, i: usize, len: usize) -> (r: (Option<Tok>, usize))
    requires
        len as nat == s@.len(),
        i < len,
    ensures
        ({
            let st = sp_next(s@, i as int);
            &&& r.0.deep_view() == st.tok
            &&& r.1 as int == st.next
            &&& i < r.1 <= len
        }),
{
    proof {
        lemma_next_advances(s@, i as int);
    }
    let ch = s.get_char(i);
    if ch_is_ws(ch) {
        (None, i + 1)
    } else if ch == '/' && i + 1 < len && s.get_char(i + 1) == '/' {
        let j = scan_comment(s, i + 2, len);
        (None, j)
    } else if ch_is_ident_start(ch) {
        let j = scan_ident(s, i, len);
        proof {
            lemma_ident_end(s@, i as int);
        }
        match keyword_of(s, i, j, len) {
            Some(kw) => (Some(kw), j),
            None => {
                let text = String::from_str(s.substring_char(i, j));
                (Some(Tok::Ident(text)), j)
            },
        }
    } else if ch_is_digit(ch) {
        let j = scan_digits(s, i, len);
        proof {
            lemma_digits_run(s@, i as int);
        }
        let (ovf, val) = digits_value(s, i, j, len);
        if ovf || val > 9223372036854775807u64 {
            (Some(Tok::Error), j)
        } else {
            (Some(Tok::Lit(val as i64)), j)
        }
    } else if ch == '-' && i + 1 < len && ch_is_digit(s.get_char(i + 1)) {
        let j = scan_digits(s, i + 1, len);
        proof {
            lemma_digits_run(s@, i + 1);
        }
        let (ovf, val) = digits_value(s, i + 1, j, len);
        if ovf || val > 9223372036854775808u64 {
            (Some(Tok::Error), j)
        } else {
            let lit: i64 = if val >= 9223372036854775808u64 {
                i64::MIN
            } else {
                -(val as i64)
            };
            (Some(Tok::Lit(lit)), j)
        }
    } else if ch == '"' {
        match scan_str(s, i + 1, len) {
            Some(end) => {
                proof {
                    lemma_str_scan(s@, i + 1);
                }
                let contents = String::from_str(s.substring_char(i + 1, end - 1));
                (Some(Tok::String(contents)), end)
            },
            None => (Some(Tok::Error), i + 1),
        }
    } else if ch == '=' {
        if i + 1 < len && s.get_char(i + 1) == '=' {
            (Some(Tok::EqEq), i + 2)
        } else {
            (Some(Tok::Equals), i + 1)
        }
    } else if ch == '<' {
        if i + 1 < len && s.get_char(i + 1) == '<' {
            (Some(Tok::LShift), i + 2)
        } else if i + 1 < len && s.get_char(i + 1) == '_' {
            (Some(Tok::LessUnsigned), i + 2)
        } else {
            (Some(Tok::Less), i + 1)
        }
    } else if ch == '>' {
        if i + 1 < len && s.get_char(i + 1) == '>' && i + 2 < len && s.get_char(i + 2) == '_' {
            (Some(Tok::RShift), i + 3)
        } else if i + 1 < len && s.get_char(i + 1) == '>' {
            (Some(Tok::ARShift), i + 2)
        } else {
            (Some(Tok::Greater), i + 1)
        }
    } else if ch == '+' {
        (Some(Tok::Plus), i + 1)
    } else if ch == '-' {
        (Some(Tok::Minus), i + 1)
    } else if ch == '*' {
        (Some(Tok::Star), i + 1)
    } else if ch == '/' {
        (Some(Tok::Slash), i + 1)
    } else if ch == '%' {
        (Some(Tok::Rem), i + 1)
    } else if ch == '!' {
        (Some(Tok::Bang), i + 1)
    } else if ch == '&' {
        (Some(Tok::Amp), i + 1)
    } else if ch == '~' {
        (Some(Tok::Tilde), i + 1)
    } else if ch == ';' {
        (Some(Tok::Semicolon), i + 1)
    } else if ch == '|' {
        (Some(Tok::Or), i + 1)
    } else if ch == '^' {
        (Some(Tok::Xor), i + 1)
    } else if ch == '(' {
        (Some(Tok::LParen), i + 1)
    } else if ch == ')' {
        (Some(Tok::RParen), i + 1)
    } else if ch == '{' {
        (Some(Tok::LBracket), i + 1)
    } else if ch == '}' {
        (Some(Tok::RBracket), i + 1)
    } else if ch == ',' {
        (Some(Tok::Comma), i + 1)
    } else {
        (Some(Tok::Error), i + 1)
    }
}

/// A diagnostic reported while lexing or parsing: unrecognized text,
/// or a missing piece of a statement. These are the lexical and
/// syntactic errors of the parse, recovered at statement granularity;
/// the semantic errors of code generation live in `codegen::Diag`.
#[derive(Copy, Clone, Debug, PartialEq, Eq, Structural)]
pub enum ParseDiag {
    /// Unrecognized text, skipped while consuming tokens.
    UnrecognizedToken,
    /// Unrecognized text met at a parsing decision point; fatal for
    /// the compilation.
    FatalUnrecognizedToken,
    /// `let` not followed by an identifier.
    ExpectedDeclIdent,
    /// A declaration initializer that is not a single integer or
    /// string literal.
    ExpectedDeclValue,
    /// A declaration missing its semicolon.
    ExpectedDeclSemicolon,
    /// `set` not followed by an identifier.
    ExpectedAssignIdent,
    /// An assignment missing its `=`.
    ExpectedAssignEquals,
    /// An assignment missing its right-hand expression.
    ExpectedAssignExpr,
    /// An assignment missing its semicolon.
    ExpectedAssignSemicolon,
    /// An expression statement missing its semicolon.
    ExpectedExprStmtSemicolon,
    /// `if` without `{` after its condition.
    ExpectedIfOpenBrace,
    /// An if statement without `}` after its true block.
    ExpectedIfCloseBrace,
    /// `else` without `{`.
    ExpectedElseOpenBrace,
    /// An else block without `}`.
    ExpectedElseCloseBrace,
    /// `while` without `{` after its condition.
    ExpectedWhileOpenBrace,
    /// A while statement without `}` after its body.
    ExpectedWhileCloseBrace,
    /// A parenthesized expression without `)`.
    ExpectedCloseParen,
    /// A call argument not followed by `,` or `)`.
    ExpectedCallComma,
    /// A call with `(` but neither `)` nor a first argument.
    ExpectedCallArgument,
}

/// Mathematical view of the token cursor: the tokens still to be read,
/// front first, whether a fatal lexical error was met at a decision
/// point, and the diagnostics reported so far.
#[verifier::ext_equal]
pub struct LexView {
    pub toks: Seq<TokView>,
    pub fatal: bool,
    pub diags: Seq<ParseDiag>,
}

/// A diagnostic is recorded by appending it.
pub open spec fn sp_note(lv: LexView, d: ParseDiag) -> LexView {
    LexView { toks: lv.toks, fatal: lv.fatal, diags: lv.diags.push(d) }
}

/// What `Lex::pop` returns: the first token, skipping error tokens on
/// the way; each skipped one is reported as unrecognized text.
pub open spec fn sp_pop(lv: LexView) -> (Option<TokView>, LexView)
    decreases lv.toks.len(),
{
    if lv.toks.len() == 0 {
        (None, lv)
    } else if lv.toks[0] is Error {
        sp_pop(
            LexView {
                toks: lv.toks.subrange(1, lv.toks.len() as int),
                fatal: lv.fatal,
                diags: lv.diags.push(ParseDiag::UnrecognizedToken),
            },
        )
    } else {
        (
            Some(lv.toks[0]),
            LexView {
                toks: lv.toks.subrange(1, lv.toks.len() as int),
                fatal: lv.fatal,
                diags: lv.diags,
            },
        )
    }
}

/// What `Lex::peek` returns: the first token without consuming it; an
/// error token at the front cannot be inspected and is a fatal
/// condition for the compilation.
pub open spec fn sp_peek(lv: LexView) -> (Option<TokView>, LexView) {
    if lv.toks.len() == 0 {
        (None, lv)
    } else if lv.toks[0] is Error {
        (
            None,
            LexView {
                toks: lv.toks,
                fatal: true,
                diags: lv.diags.push(ParseDiag::FatalUnrecognizedToken),
            },
        )
    } else {
        (Some(lv.toks[0]), lv)
    }
}

/// The reversible cursor over the token sequence: tokens are stored
/// reversed so that the next one is popped from the end, and a token
/// can be pushed back.
pub struct Lex {
    pub tokens: Vec<Tok>,
    pub fatal: bool,
    pub diags: Vec<ParseDiag>,
}

impl View for Lex {
    type V = LexView;

    open spec fn view(&self) -> LexView {
        LexView {
            toks: Seq::new(
                self.tokens@.len(),
                |k: int| self.tokens@[self.tokens@.len() - 1 - k]@,
            ),
            fatal: self.fatal,
            diags: self.diags@,
        }
    }
}

impl Lex {
    /// Lex the whole input.
    pub fn new(input: &str) -> (r: Lex)
        ensures
            r@.toks == sp_tokens(input@),
            !r@.fatal,
            r@.diags == Seq::<ParseDiag>::empty(),
    {
        let len = input.unicode_len();
        let mut forward: Vec<Tok> = Vec::new();
        let mut i: usize = 0;
        proof {
            assert(forward.deep_view() + sp_tokens_from(input@, 0) =~= sp_tokens(input@));
        }
        while i < len
            invariant
                i <= len,
                len as nat == input@.len(),
                forward.deep_view() + sp_tokens_from(input@, i as int) == sp_tokens(input@),
            decreases len - i,
        {
            let ghost pre = forward.deep_view();
            let (tok, next) = next_token(input, i, len);
            proof {
                lemma_next_advances(input@, i as int);
            }
            match tok {
                Some(t) => {
                    let ghost tv = t@;
                    forward.push(t);
                    proof {
                        assert(forward.deep_view() =~= pre.push(tv));
                        assert(sp_tokens_from(input@, i as int) =~= seq![tv] + sp_tokens_from(
                            input@,
                            next as int,
                        ));
                        assert(forward.deep_view() + sp_tokens_from(input@, next as int)
                            =~= sp_tokens(input@));
                    }
                },
                None => {
                    proof {
                        assert(sp_tokens_from(input@, i as int) == sp_tokens_from(
                            input@,
                            next as int,
                        ));
                    }
                },
            }
            i = next;
        }
        proof {
            assert(forward.deep_view() =~= sp_tokens(input@));
        }
        let ghost full = forward.deep_view();
        let mut tokens: Vec<Tok> = Vec::new();
        loop
            invariant
                tokens@.len() + forward@.len() == full.len(),
                forward.deep_view() == full.subrange(0, forward@.len() as int),
                forall|k: int|
                    0 <= k < tokens@.len() ==> (#[trigger] tokens@[k])@ == full[full.len() - 1 - k],
            ensures
                forward@.len() == 0,
                tokens@.len() == full.len(),
                forall|k: int|
                    0 <= k < tokens@.len() ==> (#[trigger] tokens@[k])@ == full[full.len() - 1 - k],
            decreases forward@.len(),
        {
            let ghost pre = forward.deep_view();
            match forward.pop() {
                Some(t) => {
                    proof {
                        assert(pre[pre.len() - 1] == t@);
                        assert(pre =~= full.subrange(0, pre.len() as int));
                        assert(t@ == full[pre.len() - 1]);
                        assert(forward.deep_view() =~= full.subrange(0, pre.len() - 1));
                    }
                    tokens.push(t);
                },
                None => {
                    break ;
                },
            }
        }
        let r = Lex { tokens, fatal: false, diags: Vec::new() };
        proof {
            assert(r@.toks =~= sp_tokens(input@));
            assert(r@.diags =~= Seq::<ParseDiag>::empty());
        }
        r
    }

    /// Take the next token; error tokens met on the way are skipped
    /// (they were already reported as unrecognized text).
    pub fn pop(&mut self) -> (r: Option<Tok>)
        ensures
            (r.deep_view(), final(self)@) == sp_pop(old(self)@),
    {
        loop
            invariant
                sp_pop(self@) == sp_pop(old(self)@),
                self.fatal == old(self).fatal,
            decreases self.tokens@.len(),
        {
            let ghost lv = self@;
            match self.tokens.pop() {
                None => {
                    return None;
                },
                Some(t) => {
                    proof {
                        assert(lv.toks[0] == t@);
                        assert(self@.toks =~= lv.toks.subrange(1, lv.toks.len() as int));
                    }
                    match t {
                        Tok::Error => {
                            self.diags.push(ParseDiag::UnrecognizedToken);
                            proof {
                                assert(self@.diags =~= lv.diags.push(
                                    ParseDiag::UnrecognizedToken,
                                ));
                            }
                        },
                        other => {
                            return Some(other);
                        },
                    }
                },
            }
        }
    }

    /// Look at the next token without consuming it. An error token at
    /// the front is fatal: the cursor is marked and nothing is
    /// returned, as no parsing decision can be made on unrecognized
    /// text.
    pub fn peek(&mut self) -> (r: Option<Tok>)
        ensures
            (r.deep_view(), final(self)@) == sp_peek(old(self)@),
    {
        if self.tokens.len() == 0 {
            return None;
        }
        let idx = self.tokens.len() - 1;
        let is_err = match &self.tokens[idx] {
            Tok::Error => true,
            _ => false,
        };
        if is_err {
            self.fatal = true;
            self.diags.push(ParseDiag::FatalUnrecognizedToken);
            proof {
                assert(self@.toks =~= old(self)@.toks);
                assert(self@.diags =~= old(self)@.diags.push(ParseDiag::FatalUnrecognizedToken));
            }
            None
        } else {
            let t = self.tokens[idx].clone();
            proof {
                assert(old(self)@.toks[0] == t@);
            }
            Some(t)
        }
    }

    /// Push one token back; it becomes the next token read.
    pub fn push(&mut self, t: Tok)
        ensures
            final(self)@.toks == seq![t@] + old(self)@.toks,
            final(self)@.fatal == old(self)@.fatal,
            final(self)@.diags == old(self)@.diags,
    {
        let ghost tv = t@;
        self.tokens.push(t);
        proof {
            assert(self@.toks =~= seq![tv] + old(self)@.toks);
        }
    }

    /// Record a diagnostic.
    pub fn note(&mut self, d: ParseDiag)
        ensures
            final(self)@ == sp_note(old(self)@, d),
    {
        self.diags.push(d);
        proof {
            assert(self@ =~= sp_note(old(self)@, d));
        }
    }
}

} // verus!
