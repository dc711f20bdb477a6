//! The tokenizer of the Thrift IDL.

use vstd::prelude::*;

verus! {

/// A token of the IDL, generic over how its text is held: `Token` holds
/// `String`s, and its view holds character sequences.
#[derive(Debug, Clone, PartialEq)]
pub enum TokenKind<S> {
    Keyword(S),
    Identifier(S),
    Number(i64),
    String(S),
    Symbol(char),
    Comma,
    Semicolon,
    LeftParen,
    RightParen,
    LeftBrace,
    RightBrace,
    LeftBracket,
    RightBracket,
    LessThan,
    GreaterThan,
    Colon,
    Equal,
    Dot,
    Asterisk,
}

pub type Token = TokenKind<String>;

/// A token as the specifications see it.
pub type SpecToken = TokenKind<Seq<char>>;

impl View for TokenKind<String> {
    type V = TokenKind<Seq<char>>;

    open spec fn view(&self) -> TokenKind<Seq<char>> {
        match self {
            TokenKind::Keyword(s) => TokenKind::Keyword(s@),
            TokenKind::Identifier(s) => TokenKind::Identifier(s@),
            TokenKind::Number(n) => TokenKind::Number(*n),
            TokenKind::String(s) => TokenKind::String(s@),
            TokenKind::Symbol(c) => TokenKind::Symbol(*c),
            TokenKind::Comma => TokenKind::Comma,
            TokenKind::Semicolon => TokenKind::Semicolon,
            TokenKind::LeftParen => TokenKind::LeftParen,
            TokenKind::RightParen => TokenKind::RightParen,
            TokenKind::LeftBrace => TokenKind::LeftBrace,
            TokenKind::RightBrace => TokenKind::RightBrace,
            TokenKind::LeftBracket => TokenKind::LeftBracket,
            TokenKind::RightBracket => TokenKind::RightBracket,
            TokenKind::LessThan => TokenKind::LessThan,
            TokenKind::GreaterThan => TokenKind::GreaterThan,
            TokenKind::Colon => TokenKind::Colon,
            TokenKind::Equal => TokenKind::Equal,
            TokenKind::Dot => TokenKind::Dot,
            TokenKind::Asterisk => TokenKind::Asterisk,
        }
    }
}

/// The views of a sequence of tokens.
pub open spec fn tokens_view(ts: Seq<Token>) -> Seq<SpecToken> {
    ts.map_values(|t: Token| t@)
}

/// A lexer function found nothing of what it looks for at the start of its input.
#[derive(Debug, Clone, Copy, PartialEq, Eq, Structural)]
pub enum LexError {
    NoMatch,
}

/// What a lexer function gives: what is left of the input, and what it read.
pub type LexResult<T> = Result<(String, T), LexError>;

// ─── Character classes ────────────────────────────────────────────────────────

pub open spec fn is_space_char(c: char) -> bool {
    c == ' ' || c == '\t' || c == '\r' || c == '\n'
}

pub open spec fn is_ascii_letter(c: char) -> bool {
    ('a' <= c && c <= 'z') || ('A' <= c && c <= 'Z')
}

pub open spec fn is_ascii_digit(c: char) -> bool {
    '0' <= c && c <= '9'
}

/// Whether `char::is_alphanumeric` of std holds of `c`: Unicode's
/// alphabetic or numeric characters.
pub uninterp spec fn unicode_alphanumeric(c: char) -> bool;

/// The characters that may follow the first one of an identifier: among
/// ASCII characters the letters, the digits and `_`; beyond ASCII the
/// alphanumeric characters of Unicode.
pub open spec fn is_word_char(c: char) -> bool {
    if (c as u32) < 128 {
        is_ascii_letter(c) || is_ascii_digit(c) || c == '_'
    } else {
        unicode_alphanumeric(c)
    }
}

/// `char::is_alphanumeric` of std: whether `c` is alphabetic or numeric in
/// Unicode's sense; among ASCII characters, exactly the letters and digits.
#[verifier::external_body]
fn char_is_alphanumeric(c: char) -> (r: bool)
    ensures
        r == unicode_alphanumeric(c),
        (c as u32) < 128 ==> (r <==> ('a' <= c <= 'z' || 'A' <= c <= 'Z' || '0' <= c <= '9')),
{
    c.is_alphanumeric()
}

/// The characters of a string slice (`str::chars`, collected).
#[verifier::external_body]
pub(crate) fn chars_of(s: &str) -> (r: Vec<char>)
    ensures
        r@ == s@,
{
    s.chars().collect()
}

/// The string of the characters `cs[start..end]` (collected from `chars`).
#[verifier::external_body]
pub(crate) fn string_of(cs: &Vec<char>, start: usize, end: usize) -> (r: String)
    requires
        start <= end <= cs@.len(),
    ensures
        r@ == cs@.subrange(start as int, end as int),
{
    cs[start..end].iter().collect()
}

// ─── Specifications of the pieces of a token, on text `s` from index `i` ─────

/// How many characters from `i` on are identifier characters, up to the first that is not.
pub open spec fn word_run(s: Seq<char>, i: int) -> nat
    decreases s.len() - i,
{
    if 0 <= i < s.len() && is_word_char(s[i]) { 1 + word_run(s, i + 1) } else { 0 }
}

/// How many characters from `i` on are ASCII digits, up to the first that is not.
pub open spec fn digit_run(s: Seq<char>, i: int) -> nat
    decreases s.len() - i,
{
    if 0 <= i < s.len() && is_ascii_digit(s[i]) { 1 + digit_run(s, i + 1) } else { 0 }
}

/// How many characters from `i` on are not line ends, up to the first that is.
pub open spec fn line_run(s: Seq<char>, i: int) -> nat
    decreases s.len() - i,
{
    if 0 <= i < s.len() && s[i] != '\n' { 1 + line_run(s, i + 1) } else { 0 }
}

/// How many characters from `i` on are not double quotes, up to the first that is.
pub open spec fn quote_run(s: Seq<char>, i: int) -> nat
    decreases s.len() - i,
{
    if 0 <= i < s.len() && s[i] != '"' { 1 + quote_run(s, i + 1) } else { 0 }
}

/// The first index from `i` on where `*/` starts, if any.
pub open spec fn block_close(s: Seq<char>, i: int) -> Option<int>
    decreases s.len() - i,
{
    if i < 0 || i + 1 >= s.len() {
        None
    } else if s[i] == '*' && s[i + 1] == '/' {
        Some(i)
    } else {
        block_close(s, i + 1)
    }
}

/// The length of an identifier at `i`: `_` or an ASCII letter, then
/// identifier characters.
pub open spec fn spec_identifier_len(s: Seq<char>, i: int) -> Option<nat> {
    if 0 <= i < s.len() && (s[i] == '_' || is_ascii_letter(s[i])) {
        Some(1 + word_run(s, i + 1))
    } else {
        None
    }
}

/// The length of a string literal at `i`: a double quote, anything but a
/// double quote, and a closing double quote.
pub open spec fn spec_string_len(s: Seq<char>, i: int) -> Option<nat> {
    if 0 <= i < s.len() && s[i] == '"' && i + 1 + quote_run(s, i + 1) < s.len() {
        Some(2 + quote_run(s, i + 1))
    } else {
        None
    }
}

/// The value of a sequence of decimal digits.
pub open spec fn digits_value(d: Seq<char>) -> nat
    decreases d.len(),
{
    if d.len() == 0 { 0 } else { digits_value(d.drop_last()) * 10 + (d.last() as nat - '0' as nat) as nat }
}

/// A number at `i`: an optional `-`, then ASCII digits, whose value must fit
/// a signed 64-bit integer. Gives the value and the length.
pub open spec fn spec_number(s: Seq<char>, i: int) -> Option<(i64, nat)> {
    let neg = 0 <= i < s.len() && s[i] == '-';
    let start = if neg { i + 1 } else { i };
    let d = digit_run(s, start);
    let magnitude = digits_value(s.subrange(start, start + d));
    let value = if neg { -magnitude } else { magnitude as int };
    if 0 <= i && d > 0 && i64::MIN <= value <= i64::MAX {
        Some((value as i64, (start - i + d) as nat))
    } else {
        None
    }
}

/// The length of a comment at `i`: `//` or `#` up to the end of the line
/// (not included), or `/*` through the first `*/`.
pub open spec fn spec_comment_len(s: Seq<char>, i: int) -> Option<nat> {
    if 0 <= i && i + 1 < s.len() && s[i] == '/' && s[i + 1] == '/' {
        Some(2 + line_run(s, i + 2))
    } else if 0 <= i && i + 1 < s.len() && s[i] == '/' && s[i + 1] == '*' {
        match block_close(s, i + 2) {
            Some(j) => Some((j + 2 - i) as nat),
            None => None,
        }
    } else if 0 <= i < s.len() && s[i] == '#' {
        Some(1 + line_run(s, i + 1))
    } else {
        None
    }
}

/// Where the whitespace and comments that start at `i` end.
pub open spec fn spec_ws_end(s: Seq<char>, i: int) -> int
    decreases s.len() - i,
{
    if 0 <= i < s.len() && is_space_char(s[i]) {
        spec_ws_end(s, i + 1)
    } else {
        match spec_comment_len(s, i) {
            Some(k) => if 0 <= i && 0 < k && i + k <= s.len() { spec_ws_end(s, i + k) } else { i },
            None => i,
        }
    }
}

/// The keywords of the IDL.
pub open spec fn keywords() -> Seq<Seq<char>> {
    seq![
        seq!['s', 't', 'r', 'u', 'c', 't'],
        seq!['s', 'e', 'r', 'v', 'i', 'c', 'e'],
        seq!['r', 'e', 'q', 'u', 'i', 'r', 'e', 'd'],
        seq!['o', 'p', 't', 'i', 'o', 'n', 'a', 'l'],
        seq!['o', 'n', 'e', 'w', 'a', 'y'],
        seq!['i', 'n', 'c', 'l', 'u', 'd', 'e'],
        seq!['n', 'a', 'm', 'e', 's', 'p', 'a', 'c', 'e'],
        seq!['t', 'y', 'p', 'e', 'd', 'e', 'f'],
        seq!['e', 'n', 'u', 'm'],
        seq!['c', 'o', 'n', 's', 't'],
        seq!['t', 'h', 'r', 'o', 'w', 's'],
        seq!['e', 'x', 'c', 'e', 'p', 't', 'i', 'o', 'n'],
        seq!['u', 'n', 'i', 'o', 'n'],
        seq!['e', 'x', 't', 'e', 'n', 'd', 's'],
    ]
}

/// A word is a keyword or an identifier.
pub open spec fn spec_word_token(w: Seq<char>) -> SpecToken {
    if keywords().contains(w) { TokenKind::Keyword(w) } else { TokenKind::Identifier(w) }
}

/// The one-character tokens.
pub open spec fn spec_symbol_token(c: char) -> Option<SpecToken> {
    if c == ',' { Some(TokenKind::Comma) }
    else if c == ';' { Some(TokenKind::Semicolon) }
    else if c == '(' { Some(TokenKind::LeftParen) }
    else if c == ')' { Some(TokenKind::RightParen) }
    else if c == '{' { Some(TokenKind::LeftBrace) }
    else if c == '}' { Some(TokenKind::RightBrace) }
    else if c == '[' { Some(TokenKind::LeftBracket) }
    else if c == ']' { Some(TokenKind::RightBracket) }
    else if c == '<' { Some(TokenKind::LessThan) }
    else if c == '>' { Some(TokenKind::GreaterThan) }
    else if c == ':' { Some(TokenKind::Colon) }
    else if c == '=' { Some(TokenKind::Equal) }
    else if c == '.' { Some(TokenKind::Dot) }
    else if c == '*' { Some(TokenKind::Asterisk) }
    else { None }
}

/// The token at `i` (no whitespace skipped), tried in this order: string
/// literal, number, word, one-character token. Gives the token and its length.
pub open spec fn spec_token_at(s: Seq<char>, i: int) -> Option<(SpecToken, nat)> {
    match spec_string_len(s, i) {
        Some(n) => Some((TokenKind::String(s.subrange(i + 1, i + n - 1)), n)),
        None => match spec_number(s, i) {
            Some((v, n)) => Some((TokenKind::Number(v), n)),
            None => match spec_identifier_len(s, i) {
                Some(n) => Some((spec_word_token(s.subrange(i, i + n)), n)),
                None => if 0 <= i < s.len() {
                    match spec_symbol_token(s[i]) {
                        Some(t) => Some((t, 1)),
                        None => None,
                    }
                } else {
                    None
                },
            },
        },
    }
}

/// The next token after the whitespace and comments at `i`, with where it ends.
pub open spec fn spec_next_token(s: Seq<char>, i: int) -> Option<(SpecToken, int)> {
    let w = spec_ws_end(s, i);
    match spec_token_at(s, w) {
        Some((t, n)) => Some((t, w + n)),
        None => None,
    }
}

/// The tokens from `i` on, as many as there are, and where the text that
/// follows the last of them starts.
pub open spec fn spec_tokenize(s: Seq<char>, i: int) -> (Seq<SpecToken>, int)
    decreases s.len() - i,
{
    match spec_next_token(s, i) {
        Some((t, e)) => if i < e <= s.len() {
            let (ts, r) = spec_tokenize(s, e);
            (seq![t] + ts, r)
        } else {
            (seq![], i)
        },
        None => (seq![], i),
    }
}

// ─── Scanning ─────────────────────────────────────────────────────────────────

fn scan_word_run(cs: &Vec<char>, i: usize) -> (n: usize)
    requires
        i <= cs@.len(),
    ensures
        n == word_run(cs@, i as int),
        i + n <= cs@.len(),
{
    let mut j = i;
    while j < cs.len() && (char_is_alphanumeric(cs[j]) || cs[j] == '_')
        invariant
            i <= j <= cs@.len(),
            word_run(cs@, i as int) == (j - i) + word_run(cs@, j as int),
        decreases cs@.len() - j,
    {
        j = j + 1;
    }
    j - i
}

fn scan_line_run(cs: &Vec<char>, i: usize) -> (n: usize)
    requires
        i <= cs@.len(),
    ensures
        n == line_run(cs@, i as int),
        i + n <= cs@.len(),
{
    let mut j = i;
    while j < cs.len() && cs[j] != '\n'
        invariant
            i <= j <= cs@.len(),
            line_run(cs@, i as int) == (j - i) + line_run(cs@, j as int),
        decreases cs@.len() - j,
    {
        j = j + 1;
    }
    j - i
}

fn scan_quote_run(cs: &Vec<char>, i: usize) -> (n: usize)
    requires
        i <= cs@.len(),
    ensures
        n == quote_run(cs@, i as int),
        i + n <= cs@.len(),
{
    let mut j = i;
    while j < cs.len() && cs[j] != '"'
        invariant
            i <= j <= cs@.len(),
            quote_run(cs@, i as int) == (j - i) + quote_run(cs@, j as int),
        decreases cs@.len() - j,
    {
        j = j + 1;
    }
    j - i
}

fn scan_block_close(cs: &Vec<char>, i: usize) -> (r: Option<usize>)
    requires
        i <= cs@.len(),
    ensures
        match block_close(cs@, i as int) {
            Some(j) => r == Some(j as usize) && i <= j && j + 2 <= cs@.len(),
            None => r is None,
        },
{
    let mut j = i;
    while cs.len() - j > 1
        invariant
            i <= j <= cs@.len(),
            block_close(cs@, i as int) == block_close(cs@, j as int),
        decreases cs@.len() - j,
    {
        if cs[j] == '*' && cs[j + 1] == '/' {
            return Some(j);
        }
        j = j + 1;
    }
    None
}

fn scan_identifier(cs: &Vec<char>, i: usize) -> (r: Option<usize>)
    requires
        i <= cs@.len(),
    ensures
        match spec_identifier_len(cs@, i as int) {
            Some(n) => r == Some(n as usize) && i + n <= cs@.len(),
            None => r is None,
        },
{
    if i < cs.len() && (cs[i] == '_' || ('a' <= cs[i] && cs[i] <= 'z') || ('A' <= cs[i] && cs[i] <= 'Z')) {
        Some(1 + scan_word_run(cs, i + 1))
    } else {
        None
    }
}

fn scan_string(cs: &Vec<char>, i: usize) -> (r: Option<usize>)
    requires
        i <= cs@.len(),
    ensures
        r is None <==> spec_string_len(cs@, i as int) is None,
        r matches Some(n) ==> spec_string_len(cs@, i as int) == Some(n as nat) && i + n <= cs@.len() && n >= 2,
{
    if i < cs.len() && cs[i] == '"' {
        let q = scan_quote_run(cs, i + 1);
        if i + 1 + q < cs.len() {
            return Some(2 + q);
        }
    }
    None
}

fn scan_number(cs: &Vec<char>, i: usize) -> (r: Option<(i64, usize)>)
    requires
        i <= cs@.len(),
    ensures
        match spec_number(cs@, i as int) {
            Some((v, n)) => r == Some((v, n as usize)) && i + n <= cs@.len(),
            None => r is None,
        },
{
    let ghost s = cs@;
    let neg = i < cs.len() && cs[i] == '-';
    let start = if neg { i + 1 } else { i };
    let mut j = start;
    let mut magnitude: u64 = 0;
    let mut too_big = false;
    let limit: u64 = 0x8000_0000_0000_0000;
    proof { assert(s.subrange(start as int, start as int) =~= Seq::<char>::empty()); }
    while j < cs.len() && '0' <= cs[j] && cs[j] <= '9'
        invariant
            start <= j <= s.len(),
            s == cs@,
            digit_run(s, start as int) == (j - start) + digit_run(s, j as int),
            !too_big ==> magnitude == digits_value(s.subrange(start as int, j as int)),
            !too_big ==> magnitude <= limit,
            too_big ==> digits_value(s.subrange(start as int, j as int)) > limit,
            limit == 0x8000_0000_0000_0000u64,
        decreases s.len() - j,
    {
        let d = (cs[j] as u32 - '0' as u32) as u64;
        proof {
            assert(s.subrange(start as int, j + 1).drop_last() =~= s.subrange(start as int, j as int));
            assert(s.subrange(start as int, j + 1).last() == cs[j as int]);
        }
        if !too_big {
            if magnitude > (limit - d) / 10 {
                too_big = true;
            } else {
                magnitude = magnitude * 10 + d;
            }
        }
        j = j + 1;
    }
    let d = j - start;
    if d == 0 {
        return None;
    }
    if too_big {
        return None;
    }
    if neg {
        Some(((-(magnitude as i128)) as i64, j - i))
    } else if magnitude > 0x7fff_ffff_ffff_ffffu64 {
        None
    } else {
        Some((magnitude as i64, j - i))
    }
}

fn scan_comment(cs: &Vec<char>, i: usize) -> (r: Option<usize>)
    requires
        i <= cs@.len(),
    ensures
        match spec_comment_len(cs@, i as int) {
            Some(n) => r == Some(n as usize) && i + n <= cs@.len() && n > 0,
            None => r is None,
        },
{
    if cs.len() - i > 1 && cs[i] == '/' && cs[i + 1] == '/' {
        Some(2 + scan_line_run(cs, i + 2))
    } else if cs.len() - i > 1 && cs[i] == '/' && cs[i + 1] == '*' {
        match scan_block_close(cs, i + 2) {
            Some(j) => Some(j + 2 - i),
            None => None,
        }
    } else if i < cs.len() && cs[i] == '#' {
        Some(1 + scan_line_run(cs, i + 1))
    } else {
        None
    }
}

fn scan_ws_end(cs: &Vec<char>, i: usize) -> (r: usize)
    requires
        i <= cs@.len(),
    ensures
        r == spec_ws_end(cs@, i as int),
        i <= r <= cs@.len(),
{
    let mut j = i;
    loop
        invariant
            i <= j <= cs@.len(),
            spec_ws_end(cs@, i as int) == spec_ws_end(cs@, j as int),
        decreases cs@.len() - j,
    {
        if j < cs.len() && (cs[j] == ' ' || cs[j] == '\t' || cs[j] == '\r' || cs[j] == '\n') {
            j = j + 1;
        } else {
            match scan_comment(cs, j) {
                Some(k) => {
                    j = j + k;
                },
                None => {
                    return j;
                },
            }
        }
    }
}

/// Whether `cs[start..end]` is the word `w`.
fn range_is(cs: &Vec<char>, start: usize, end: usize, w: &[char]) -> (r: bool)
    requires
        start <= end <= cs@.len(),
    ensures
        r == (cs@.subrange(start as int, end as int) == w@),
{
    if end - start != w.len() {
        return false;
    }
    let mut k: usize = 0;
    while k < w.len()
        invariant
            start <= end <= cs@.len(),
            end - start == w@.len(),
            k <= w@.len(),
            forall|m: int| 0 <= m < k ==> cs@[start + m] == w@[m],
        decreases w@.len() - k,
    {
        if cs[start + k] != w[k] {
            assert(cs@.subrange(start as int, end as int)[k as int] != w@[k as int]);
            return false;
        }
        k = k + 1;
    }
    assert(cs@.subrange(start as int, end as int) =~= w@);
    true
}

/// Whether `cs[start..end]` is a keyword.
fn is_keyword(cs: &Vec<char>, start: usize, end: usize) -> (r: bool)
    requires
        start <= end <= cs@.len(),
    ensures
        r == keywords().contains(cs@.subrange(start as int, end as int)),
{
    let ghost w = cs@.subrange(start as int, end as int);
    let words: [&[char]; 14] = [
        &['s', 't', 'r', 'u', 'c', 't'],
        &['s', 'e', 'r', 'v', 'i', 'c', 'e'],
        &['r', 'e', 'q', 'u', 'i', 'r', 'e', 'd'],
        &['o', 'p', 't', 'i', 'o', 'n', 'a', 'l'],
        &['o', 'n', 'e', 'w', 'a', 'y'],
        &['i', 'n', 'c', 'l', 'u', 'd', 'e'],
        &['n', 'a', 'm', 'e', 's', 'p', 'a', 'c', 'e'],
        &['t', 'y', 'p', 'e', 'd', 'e', 'f'],
        &['e', 'n', 'u', 'm'],
        &['c', 'o', 'n', 's', 't'],
        &['t', 'h', 'r', 'o', 'w', 's'],
        &['e', 'x', 'c', 'e', 'p', 't', 'i', 'o', 'n'],
        &['u', 'n', 'i', 'o', 'n'],
        &['e', 'x', 't', 'e', 'n', 'd', 's'],
    ];
    assert(forall|k: int| 0 <= k < 14 ==> (#[trigger] words@[k])@ =~= keywords()[k]);
    let mut k: usize = 0;
    while k < 14
        invariant
            k <= 14,
            w == cs@.subrange(start as int, end as int),
            start <= end <= cs@.len(),
            forall|m: int| 0 <= m < 14 ==> (#[trigger] words@[m])@ == keywords()[m],
            forall|m: int| 0 <= m < k ==> keywords()[m] != w,
        decreases 14 - k,
    {
        if range_is(cs, start, end, words[k]) {
            assert(keywords()[k as int] == w);
            return true;
        }
        k = k + 1;
    }
    assert(!keywords().contains(w)) by {
        assert(keywords().len() == 14);
    }
    false
}

fn symbol_token(c: char) -> (r: Option<Token>)
    ensures
        match spec_symbol_token(c) {
            Some(t) => r matches Some(x) && x@ == t,
            None => r is None,
        },
{
    match c {
        ',' => Some(TokenKind::Comma),
        ';' => Some(TokenKind::Semicolon),
        '(' => Some(TokenKind::LeftParen),
        ')' => Some(TokenKind::RightParen),
        '{' => Some(TokenKind::LeftBrace),
        '}' => Some(TokenKind::RightBrace),
        '[' => Some(TokenKind::LeftBracket),
        ']' => Some(TokenKind::RightBracket),
        '<' => Some(TokenKind::LessThan),
        '>' => Some(TokenKind::GreaterThan),
        ':' => Some(TokenKind::Colon),
        '=' => Some(TokenKind::Equal),
        '.' => Some(TokenKind::Dot),
        '*' => Some(TokenKind::Asterisk),
        _ => None,
    }
}

fn scan_token(cs: &Vec<char>, i: usize) -> (r: Option<(Token, usize)>)
    requires
        i <= cs@.len(),
    ensures
        match spec_token_at(cs@, i as int) {
            Some((t, n)) => r matches Some((x, m)) && x@ == t && m == n && i + n <= cs@.len(),
            None => r is None,
        },
{
    let total = cs.len();
    match scan_string(cs, i) {
        Some(n) => {
            return Some((TokenKind::String(string_of(cs, i + 1, i + n - 1)), n));
        },
        None => {},
    }
    match scan_number(cs, i) {
        Some((v, n)) => {
            let t: Token = TokenKind::Number(v);
            assert(t@ == TokenKind::<Seq<char>>::Number(v));
            return Some((t, n));
        },
        None => {},
    }
    match scan_identifier(cs, i) {
        Some(n) => {
            let text = string_of(cs, i, i + n);
            let t = if is_keyword(cs, i, i + n) { TokenKind::Keyword(text) } else { TokenKind::Identifier(text) };
            return Some((t, n));
        },
        None => {},
    }
    if i < cs.len() {
        match symbol_token(cs[i]) {
            Some(t) => Some((t, 1)),
            None => None,
        }
    } else {
        None
    }
}

fn scan_next_token(cs: &Vec<char>, i: usize) -> (r: Option<(Token, usize)>)
    requires
        i <= cs@.len(),
    ensures
        match spec_next_token(cs@, i as int) {
            Some((t, e)) => r matches Some((x, m)) && x@ == t && m == e && i < e <= cs@.len(),
            None => r is None,
        },
{
    let w = scan_ws_end(cs, i);
    let total = cs.len();
    match scan_token(cs, w) {
        Some((t, n)) => {
            proof { lemma_token_len_positive(cs@, w as int); }
            Some((t, w + n))
        },
        None => None,
    }
}

proof fn lemma_token_len_positive(s: Seq<char>, i: int)
    ensures
        spec_token_at(s, i) matches Some((_, n)) ==> n > 0,
{
}

fn scan_tokens(cs: &Vec<char>, i: usize) -> (r: (Vec<Token>, usize))
    requires
        i <= cs@.len(),
    ensures
        tokens_view(r.0@) == spec_tokenize(cs@, i as int).0,
        r.1 == spec_tokenize(cs@, i as int).1,
        i <= r.1 <= cs@.len(),
{
    let mut tokens: Vec<Token> = Vec::new();
    let mut j = i;
    assert(tokens_view(tokens@) =~= Seq::<SpecToken>::empty());
    loop
        invariant
            i <= j <= cs@.len(),
            spec_tokenize(cs@, i as int).0 == tokens_view(tokens@) + spec_tokenize(cs@, j as int).0,
            spec_tokenize(cs@, i as int).1 == spec_tokenize(cs@, j as int).1,
        decreases cs@.len() - j,
    {
        match scan_next_token(cs, j) {
            Some((t, e)) => {
                let ghost before = tokens@;
                let ghost tv = t@;
                tokens.push(t);
                proof {
                    assert(tokens_view(tokens@) =~= tokens_view(before) + seq![tv]);
                    let rest = spec_tokenize(cs@, e as int).0;
                    assert(spec_tokenize(cs@, j as int).0 == seq![tv] + rest);
                    assert(tokens_view(before) + (seq![tv] + rest) =~= tokens_view(tokens@) + rest);
                }
                j = e;
            },
            None => {
                proof { assert(spec_tokenize(cs@, j as int).0 =~= Seq::<SpecToken>::empty()); }
                assert(tokens_view(tokens@) + Seq::<SpecToken>::empty() =~= tokens_view(tokens@));
                return (tokens, j);
            },
        }
    }
}

/// The rest of `cs` from `end`, as a string.
fn rest_of(cs: &Vec<char>, end: usize) -> (r: String)
    requires
        end <= cs@.len(),
    ensures
        r@ == cs@.skip(end as int),
{
    let r = string_of(cs, end, cs.len());
    assert(r@ =~= cs@.skip(end as int));
    r
}

// ─── The lexer's entry points, on a whole input ───────────────────────────────

/// An identifier at the start of `input`.
pub fn parse_identifier(input: &str) -> (r: LexResult<String>)
    ensures
        match spec_identifier_len(input@, 0) {
            Some(n) => r matches Ok((rest, ident)) && ident@ == input@.subrange(0, n as int)
                && rest@ == input@.skip(n as int),
            None => r == Err::<(String, String), LexError>(LexError::NoMatch),
        },
{
    let cs = chars_of(input);
    match scan_identifier(&cs, 0) {
        Some(n) => Ok((rest_of(&cs, n), string_of(&cs, 0, n))),
        None => Err(LexError::NoMatch),
    }
}

/// A double-quoted string literal at the start of `input`; gives its contents.
pub fn parse_string(input: &str) -> (r: LexResult<String>)
    ensures
        match spec_string_len(input@, 0) {
            Some(n) => r matches Ok((rest, text)) && text@ == input@.subrange(1, n - 1)
                && rest@ == input@.skip(n as int),
            None => r == Err::<(String, String), LexError>(LexError::NoMatch),
        },
{
    let cs = chars_of(input);
    match scan_string(&cs, 0) {
        Some(n) => Ok((rest_of(&cs, n), string_of(&cs, 1, n - 1))),
        None => Err(LexError::NoMatch),
    }
}

/// A decimal number, optionally negative, at the start of `input`.
pub fn parse_number(input: &str) -> (r: LexResult<i64>)
    ensures
        match spec_number(input@, 0) {
            Some((v, n)) => r matches Ok((rest, x)) && x == v && rest@ == input@.skip(n as int),
            None => r == Err::<(String, i64), LexError>(LexError::NoMatch),
        },
{
    let cs = chars_of(input);
    match scan_number(&cs, 0) {
        Some((v, n)) => Ok((rest_of(&cs, n), v)),
        None => Err(LexError::NoMatch),
    }
}

/// A `//`, `/* */` or `#` comment at the start of `input`.
pub fn skip_comment(input: &str) -> (r: LexResult<()>)
    ensures
        match spec_comment_len(input@, 0) {
            Some(n) => r matches Ok((rest, _)) && rest@ == input@.skip(n as int),
            None => r == Err::<(String, ()), LexError>(LexError::NoMatch),
        },
{
    let cs = chars_of(input);
    match scan_comment(&cs, 0) {
        Some(n) => Ok((rest_of(&cs, n), ())),
        None => Err(LexError::NoMatch),
    }
}

/// Skips whitespace and comments at the start of `input`; never fails.
pub fn skip_whitespace_and_comments(input: &str) -> (r: LexResult<()>)
    ensures
        r matches Ok((rest, _)) && rest@ == input@.skip(spec_ws_end(input@, 0)),
{
    let cs = chars_of(input);
    let e = scan_ws_end(&cs, 0);
    Ok((rest_of(&cs, e), ()))
}

/// The next token of `input`, after whitespace and comments.
pub fn parse_token(input: &str) -> (r: LexResult<Token>)
    ensures
        match spec_next_token(input@, 0) {
            Some((t, e)) => r matches Ok((rest, x)) && x@ == t && rest@ == input@.skip(e),
            None => r is Err,
        },
{
    let cs = chars_of(input);
    match scan_next_token(&cs, 0) {
        Some((t, e)) => Ok((rest_of(&cs, e), t)),
        None => Err(LexError::NoMatch),
    }
}

/// All the tokens of `input`, as many as can be read from its start; the
/// rest of the input, from where no token could be read, is given back.
pub fn tokenize(input: &str) -> (r: LexResult<Vec<Token>>)
    ensures
        r matches Ok((rest, tokens)) && tokens_view(tokens@) == spec_tokenize(input@, 0).0
            && rest@ == input@.skip(spec_tokenize(input@, 0).1),
{
    let cs = chars_of(input);
    let (tokens, e) = scan_tokens(&cs, 0);
    Ok((rest_of(&cs, e), tokens))
}

} // verus!
