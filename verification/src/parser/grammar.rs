//! The parser of the Thrift IDL: from a sequence of tokens to a document.
//!
//! Each parsing step is specified by a spec function of the parser's view
//! that gives the step's outcome and the position at which it leaves the
//! parser; the executable steps are proved to follow those functions.

use vstd::prelude::*;
use vstd::utf8::encode_utf8;
use super::ast::{string_list_view, method_list_view, copy_methods, field_list_view, copy_fields, values_view, pairs_view, double_bits_of_int, i64_to_double_bits, ThriftType, ThriftValue, ThriftField, ThriftStruct, ThriftMethod, ThriftService, ThriftEnum, ThriftDocument, SpecType, SpecValue, SpecField, SpecStruct, SpecMethod, SpecService, SpecEnum, SpecDocument};
use super::lexer::{Token, TokenKind, SpecToken, tokens_view, chars_of, string_of, tokenize, spec_tokenize};
use super::names::{NameMap, str_eq, assoc_get, assoc_insert};

verus! {

/// Why parsing failed.
#[derive(Debug)]
pub enum ParseError {
    SyntaxError(String),
    UnexpectedToken(Token),
    EndOfInput,
}

/// A parse error as the specifications see it.
pub enum SpecParseError {
    Syntax(Seq<char>),
    Unexpected(SpecToken),
    EndOfInput,
}

impl View for ParseError {
    type V = SpecParseError;

    open spec fn view(&self) -> SpecParseError {
        match self {
            ParseError::SyntaxError(m) => SpecParseError::Syntax(m@),
            ParseError::UnexpectedToken(t) => SpecParseError::Unexpected(t@),
            ParseError::EndOfInput => SpecParseError::EndOfInput,
        }
    }
}

/// The outcome of a step, by views.
pub open spec fn res_view<T: View>(r: Result<T, ParseError>) -> Result<T::V, SpecParseError> {
    match r {
        Ok(x) => Ok(x@),
        Err(e) => Err(e@),
    }
}

/// A parser over the tokens of a document, with what it has learned so far:
/// the type aliases, the values of enums, and the structs and services
/// already parsed (the parents that `extends` may name).
pub struct Parser {
    tokens: Vec<Token>,
    position: usize,
    type_aliases: NameMap<ThriftType>,
    enum_values: NameMap<NameMap<i32>>,
    parsed_structs: NameMap<ThriftStruct>,
    parsed_services: NameMap<ThriftService>,
}

impl Parser {
    #[verifier::type_invariant]
    spec fn position_in_bounds(self) -> bool {
        self.position <= self.tokens.len()
    }
}

/// What the specifications see of a parser.
pub struct SpecParser {
    pub tokens: Seq<SpecToken>,
    pub pos: int,
    pub aliases: Seq<(Seq<char>, SpecType)>,
    pub enums: Seq<(Seq<char>, Seq<(Seq<char>, i32)>)>,
    pub structs: Seq<(Seq<char>, SpecStruct)>,
    pub services: Seq<(Seq<char>, SpecService)>,
}

impl SpecParser {
    /// The same parser, at position `pos`.
    pub open spec fn at(self, pos: int) -> SpecParser {
        SpecParser {
            tokens: self.tokens,
            pos,
            aliases: self.aliases,
            enums: self.enums,
            structs: self.structs,
            services: self.services,
        }
    }

    /// The token at the position, if there is one.
    pub open spec fn current(self) -> Option<SpecToken> {
        if 0 <= self.pos < self.tokens.len() {
            Some(self.tokens[self.pos])
        } else {
            None
        }
    }

    /// How many tokens are left.
    pub open spec fn left(self) -> int {
        self.tokens.len() - self.pos
    }
}

impl View for Parser {
    type V = SpecParser;

    closed spec fn view(&self) -> SpecParser {
        SpecParser {
            tokens: tokens_view(self.tokens@),
            pos: self.position as int,
            aliases: self.type_aliases@,
            enums: self.enum_values@,
            structs: self.parsed_structs@,
            services: self.parsed_services@,
        }
    }
}

// ─── Tokens ───────────────────────────────────────────────────────────────────

/// A number for each variant of a token, whatever it holds.
pub open spec fn kind_of<S>(t: TokenKind<S>) -> int {
    match t {
        TokenKind::Keyword(_) => 0,
        TokenKind::Identifier(_) => 1,
        TokenKind::Number(_) => 2,
        TokenKind::String(_) => 3,
        TokenKind::Symbol(_) => 4,
        TokenKind::Comma => 5,
        TokenKind::Semicolon => 6,
        TokenKind::LeftParen => 7,
        TokenKind::RightParen => 8,
        TokenKind::LeftBrace => 9,
        TokenKind::RightBrace => 10,
        TokenKind::LeftBracket => 11,
        TokenKind::RightBracket => 12,
        TokenKind::LessThan => 13,
        TokenKind::GreaterThan => 14,
        TokenKind::Colon => 15,
        TokenKind::Equal => 16,
        TokenKind::Dot => 17,
        TokenKind::Asterisk => 18,
    }
}

fn token_kind(t: &Token) -> (k: u8)
    ensures
        k as int == kind_of(t@),
{
    match t {
        TokenKind::Keyword(_) => 0,
        TokenKind::Identifier(_) => 1,
        TokenKind::Number(_) => 2,
        TokenKind::String(_) => 3,
        TokenKind::Symbol(_) => 4,
        TokenKind::Comma => 5,
        TokenKind::Semicolon => 6,
        TokenKind::LeftParen => 7,
        TokenKind::RightParen => 8,
        TokenKind::LeftBrace => 9,
        TokenKind::RightBrace => 10,
        TokenKind::LeftBracket => 11,
        TokenKind::RightBracket => 12,
        TokenKind::LessThan => 13,
        TokenKind::GreaterThan => 14,
        TokenKind::Colon => 15,
        TokenKind::Equal => 16,
        TokenKind::Dot => 17,
        TokenKind::Asterisk => 18,
    }
}

/// A copy of a token.
fn copy_token(t: &Token) -> (r: Token)
    ensures
        r@ == t@,
{
    match t {
        TokenKind::Keyword(s) => TokenKind::Keyword(s.clone()),
        TokenKind::Identifier(s) => TokenKind::Identifier(s.clone()),
        TokenKind::Number(n) => TokenKind::Number(*n),
        TokenKind::String(s) => TokenKind::String(s.clone()),
        TokenKind::Symbol(c) => TokenKind::Symbol(*c),
        TokenKind::Comma => TokenKind::Comma,
        TokenKind::Semicolon => TokenKind::Semicolon,
        TokenKind::LeftParen => TokenKind::LeftParen,
        TokenKind::RightParen => TokenKind::RightParen,
        TokenKind::LeftBrace => TokenKind::LeftBrace,
        TokenKind::RightBrace => TokenKind::RightBrace,
        TokenKind::LeftBracket => TokenKind::LeftBracket,
        TokenKind::RightBracket => TokenKind::RightBracket,
        TokenKind::LessThan => TokenKind::LessThan,
        TokenKind::GreaterThan => TokenKind::GreaterThan,
        TokenKind::Colon => TokenKind::Colon,
        TokenKind::Equal => TokenKind::Equal,
        TokenKind::Dot => TokenKind::Dot,
        TokenKind::Asterisk => TokenKind::Asterisk,
    }
}

/// Taking the current token.
pub open spec fn spec_consume(p: SpecParser) -> (Result<SpecToken, SpecParseError>, int) {
    match p.current() {
        Some(t) => (Ok(t), p.pos + 1),
        None => (Err(SpecParseError::EndOfInput), p.pos),
    }
}

/// Taking the current token, which must be of the same variant as `expected`.
pub open spec fn spec_expect(p: SpecParser, expected: SpecToken) -> (Result<(), SpecParseError>, int) {
    match p.current() {
        Some(t) => if kind_of(t) == kind_of(expected) {
            (Ok(()), p.pos + 1)
        } else {
            (Err(SpecParseError::Unexpected(t)), p.pos + 1)
        },
        None => (Err(SpecParseError::EndOfInput), p.pos),
    }
}

/// Taking the current token if it is of the variant of `t`.
pub open spec fn skip_if(p: SpecParser, t: SpecToken) -> int {
    match p.current() {
        Some(c) => if kind_of(c) == kind_of(t) { p.pos + 1 } else { p.pos },
        None => p.pos,
    }
}

/// Taking the current token if it is a comma or a semicolon.
pub open spec fn skip_separator(p: SpecParser) -> int {
    match p.current() {
        Some(TokenKind::Comma) => p.pos + 1,
        Some(TokenKind::Semicolon) => p.pos + 1,
        _ => p.pos,
    }
}

// ─── Names ────────────────────────────────────────────────────────────────────

/// The dotted path that continues `parts` from the position: each `.` there
/// must be followed by an identifier or a keyword.
pub open spec fn spec_path_parts(p: SpecParser, parts: Seq<Seq<char>>) -> (Result<Seq<Seq<char>>, SpecParseError>, int)
    decreases p.left(),
{
    if p.current() == Some(TokenKind::<Seq<char>>::Dot) {
        let q = p.pos + 1;
        if q < p.tokens.len() {
            match p.tokens[q] {
                TokenKind::Identifier(s) => spec_path_parts(p.at(q + 1), parts.push(s)),
                TokenKind::Keyword(s) => spec_path_parts(p.at(q + 1), parts.push(s)),
                t => (Err(SpecParseError::Unexpected(t)), q + 1),
            }
        } else {
            (Err(SpecParseError::EndOfInput), q)
        }
    } else {
        (Ok(parts), p.pos)
    }
}

/// The parts joined with dots.
pub open spec fn join_dot(parts: Seq<Seq<char>>) -> Seq<char>
    decreases parts.len(),
{
    if parts.len() == 0 {
        Seq::empty()
    } else if parts.len() == 1 {
        parts[0]
    } else {
        join_dot(parts.drop_last()) + "."@ + parts.last()
    }
}

/// The index of the last `.` before `i`, or -1.
pub open spec fn last_dot(s: Seq<char>, i: int) -> int
    decreases i,
{
    if i <= 0 {
        -1
    } else if s[i - 1] == '.' {
        i - 1
    } else {
        last_dot(s, i - 1)
    }
}

/// What follows the last `.` of a name (all of it when it has none).
pub open spec fn after_last_dot(s: Seq<char>) -> Seq<char> {
    s.subrange(last_dot(s, s.len() as int) + 1, s.len() as int)
}

pub open spec fn strings_view(v: Seq<String>) -> Seq<Seq<char>> {
    v.map_values(|s: String| s@)
}

/// The parts joined with dots, computed.
fn join_with_dots(parts: &Vec<String>) -> (r: String)
    ensures
        r@ == join_dot(strings_view(parts@)),
{
    let mut r = String::new();
    let mut i: usize = 0;
    while i < parts.len()
        invariant
            i <= parts@.len(),
            r@ == join_dot(strings_view(parts@).take(i as int)),
        decreases parts@.len() - i,
    {
        let ghost before = r@;
        if i > 0 {
            r.append(".");
        }
        r.append(parts[i].as_str());
        proof {
            let sv = strings_view(parts@);
            assert(sv.take(i + 1).drop_last() =~= sv.take(i as int));
            assert(sv.take(i + 1).last() == parts@[i as int]@);
            if i == 0 {
                assert(before =~= Seq::<char>::empty());
                assert(r@ =~= parts@[0]@);
            }
        }
        i = i + 1;
    }
    assert(strings_view(parts@).take(parts@.len() as int) =~= strings_view(parts@));
    r
}

/// What follows the last `.` of `s`, computed.
fn local_name(s: &String) -> (r: String)
    ensures
        r@ == after_last_dot(s@),
{
    let cs = chars_of(s.as_str());
    let mut i: usize = cs.len();
    while i > 0 && cs[i - 1] != '.'
        invariant
            i <= cs@.len(),
            cs@ == s@,
            last_dot(s@, s@.len() as int) == last_dot(s@, i as int),
        decreases i,
    {
        i = i - 1;
    }
    string_of(&cs, i, cs.len())
}

// ─── Types ────────────────────────────────────────────────────────────────────

/// A type named by its text, after the aliases known so far.
pub open spec fn resolve_named_type(p: SpecParser, name: Seq<char>) -> SpecType {
    match assoc_get(p.aliases, name) {
        Some(t) => t,
        None => match assoc_get(p.aliases, after_last_dot(name)) {
            Some(t) => t,
            None => SpecType::Struct(name),
        },
    }
}

/// The element type of a `list` or `set`, between `<` and `>`, from `p`.
pub open spec fn spec_elem_type(p: SpecParser) -> (Result<SpecType, SpecParseError>, int)
    decreases p.left(), 0int,
{
    match spec_expect(p, TokenKind::LessThan) {
        (Err(e), r) => (Err(e), r),
        (Ok(_), r) => if r > p.pos {
            match spec_parse_type(p.at(r)) {
                (Err(e), r2) => (Err(e), r2),
                (Ok(t), r2) => match spec_expect(p.at(r2), TokenKind::GreaterThan) {
                    (Err(e), r3) => (Err(e), r3),
                    (Ok(_), r3) => (Ok(t), r3),
                },
            }
        } else {
            (Err(SpecParseError::EndOfInput), r)
        },
    }
}

/// The key and value types of a `map`, between `<` and `>`, from `p`.
pub open spec fn spec_map_types(p: SpecParser) -> (Result<(SpecType, SpecType), SpecParseError>, int)
    decreases p.left(), 0int,
{
    match spec_expect(p, TokenKind::LessThan) {
        (Err(e), r) => (Err(e), r),
        (Ok(_), r) => if r > p.pos {
            match spec_parse_type(p.at(r)) {
                (Err(e), r2) => (Err(e), r2),
                (Ok(k), r2) => match spec_expect(p.at(r2), TokenKind::Comma) {
                    (Err(e), r3) => (Err(e), r3),
                    (Ok(_), r3) => if r3 > p.pos {
                        match spec_parse_type(p.at(r3)) {
                            (Err(e), r4) => (Err(e), r4),
                            (Ok(v), r4) => match spec_expect(p.at(r4), TokenKind::GreaterThan) {
                                (Err(e), r5) => (Err(e), r5),
                                (Ok(_), r5) => (Ok((k, v)), r5),
                            },
                        }
                    } else {
                        (Err(SpecParseError::EndOfInput), r3)
                    },
                },
            }
        } else {
            (Err(SpecParseError::EndOfInput), r)
        },
    }
}

/// A type: a base type, a container of types, or a (possibly dotted) name,
/// which is an alias known so far or else a struct.
pub open spec fn spec_parse_type(p: SpecParser) -> (Result<SpecType, SpecParseError>, int)
    decreases p.left(), 1int,
{
    match p.current() {
        None => (Err(SpecParseError::EndOfInput), p.pos),
        Some(TokenKind::Identifier(n)) => {
            let q = p.pos + 1;
            if n == "bool"@ {
                (Ok(SpecType::Bool), q)
            } else if n == "byte"@ {
                (Ok(SpecType::Byte), q)
            } else if n == "i16"@ {
                (Ok(SpecType::I16), q)
            } else if n == "i32"@ {
                (Ok(SpecType::I32), q)
            } else if n == "i64"@ {
                (Ok(SpecType::I64), q)
            } else if n == "double"@ {
                (Ok(SpecType::Double), q)
            } else if n == "string"@ {
                (Ok(SpecType::String), q)
            } else if n == "binary"@ {
                (Ok(SpecType::Binary), q)
            } else if n == "list"@ {
                match spec_elem_type(p.at(q)) {
                    (Ok(t), r) => (Ok(SpecType::List(Box::new(t))), r),
                    (Err(e), r) => (Err(e), r),
                }
            } else if n == "set"@ {
                match spec_elem_type(p.at(q)) {
                    (Ok(t), r) => (Ok(SpecType::SetT(Box::new(t))), r),
                    (Err(e), r) => (Err(e), r),
                }
            } else if n == "map"@ {
                match spec_map_types(p.at(q)) {
                    (Ok((k, v)), r) => (Ok(SpecType::MapT(Box::new(k), Box::new(v))), r),
                    (Err(e), r) => (Err(e), r),
                }
            } else {
                match spec_path_parts(p.at(q), seq![n]) {
                    (Err(e), r) => (Err(e), r),
                    (Ok(parts), r) => (Ok(resolve_named_type(p, join_dot(parts))), r),
                }
            }
        },
        Some(t) => (Err(SpecParseError::Unexpected(t)), p.pos + 1),
    }
}

impl Parser {
    /// The current token, if there is one.
    fn peek(&self) -> (r: Option<&Token>)
        ensures
            r is Some <==> self.position < self.tokens.len(),
            match self@.current() {
                Some(t) => r matches Some(x) && x@ == t,
                None => r is None,
            },
    {
        if self.position < self.tokens.len() {
            Some(&self.tokens[self.position])
        } else {
            None
        }
    }

    /// The variant of the current token, if there is one.
    fn peek_kind(&self) -> (r: Option<u8>)
        ensures
            r is Some <==> self.position < self.tokens.len(),
            match self@.current() {
                Some(t) => r == Some(kind_of(t) as u8),
                None => r is None,
            },
    {
        match self.peek() {
            Some(t) => Some(token_kind(t)),
            None => None,
        }
    }

    /// Whether the current token is of variant `k`.
    fn at_kind(&self, k: u8) -> (r: bool)
        ensures
            r == (self@.current() matches Some(t) && kind_of(t) == k as int),
            r ==> self.position < self.tokens.len(),
    {
        match self.peek_kind() {
            Some(x) => x == k,
            None => false,
        }
    }

    /// Whether the current token is the keyword `w`.
    fn at_keyword(&self, w: &str) -> (r: bool)
        ensures
            r == (self@.current() == Some(TokenKind::<Seq<char>>::Keyword(w@))),
            r ==> self.position < self.tokens.len(),
    {
        match self.peek() {
            Some(TokenKind::Keyword(k)) => str_eq(k.as_str(), w),
            _ => false,
        }
    }

    fn consume_token(&mut self) -> (r: Result<Token, ParseError>)
        ensures
            final(self)@ == old(self)@.at(spec_consume(old(self)@).1),
            res_view(r) == spec_consume(old(self)@).0,
    {
        if self.position < self.tokens.len() {
            let t = copy_token(&self.tokens[self.position]);
            self.position = self.position + 1;
            Ok(t)
        } else {
            Err(ParseError::EndOfInput)
        }
    }

    fn expect_token(&mut self, expected: Token) -> (r: Result<(), ParseError>)
        ensures
            final(self)@ == old(self)@.at(spec_expect(old(self)@, expected@).1),
            res_view(r) == spec_expect(old(self)@, expected@).0,
    {
        let token = self.consume_token()?;
        if token_kind(&token) == token_kind(&expected) {
            Ok(())
        } else {
            Err(ParseError::UnexpectedToken(token))
        }
    }

    /// Takes the current token if it is of the variant of `t`.
    fn skip_token_if(&mut self, t: Token)
        ensures
            final(self)@ == old(self)@.at(skip_if(old(self)@, t@)),
    {
        if self.at_kind(token_kind(&t)) {
            self.position = self.position + 1;
        }
    }

    /// Takes the current token if it is a comma or a semicolon.
    fn skip_separator(&mut self)
        ensures
            final(self)@ == old(self)@.at(skip_separator(old(self)@)),
    {
        match self.peek() {
            Some(TokenKind::Comma) | Some(TokenKind::Semicolon) => {
                self.position = self.position + 1;
            },
            _ => {},
        }
    }

    fn finish_identifier_path_parts(&mut self, first: String) -> (r: Result<Vec<String>, ParseError>)
        ensures
            final(self)@ == old(self)@.at(spec_path_parts(old(self)@, seq![first@]).1),
            match r {
                Ok(v) => spec_path_parts(old(self)@, seq![first@]).0 == Ok::<Seq<Seq<char>>, SpecParseError>(strings_view(v@)),
                Err(e) => spec_path_parts(old(self)@, seq![first@]).0 == Err::<Seq<Seq<char>>, SpecParseError>(e@),
            },
            final(self)@.pos >= old(self)@.pos,
    {
        let ghost p0 = self@;
        let mut parts: Vec<String> = Vec::new();
        parts.push(first);
        assert(strings_view(parts@) =~= seq![first@]);
        while self.at_kind(17)
            invariant
                p0 == old(self)@,
                self@ == p0.at(self@.pos),
                self@.pos >= p0.pos,
                spec_path_parts(p0, seq![first@]) == spec_path_parts(self@, strings_view(parts@)),
            decreases self@.left(),
        {
            let ghost pv = strings_view(parts@);
            let ghost s0 = self@;
            assert(self@.current() == Some(TokenKind::<Seq<char>>::Dot));
            self.position = self.position + 1;
            let next = self.consume_token();
            let token = match next {
                Ok(t) => t,
                Err(e) => {
                    assert(spec_path_parts(s0, pv) == (
                        Err::<Seq<Seq<char>>, SpecParseError>(SpecParseError::EndOfInput),
                        s0.pos + 1,
                    ));
                    return Err(e);
                },
            };
            let part = match token {
                TokenKind::Identifier(s) => s,
                TokenKind::Keyword(s) => s,
                token => {
                    proof {
                        assert(s0.tokens[s0.pos + 1] == token@);
                        assert(spec_path_parts(s0, pv) == (
                            Err::<Seq<Seq<char>>, SpecParseError>(SpecParseError::Unexpected(token@)),
                            s0.pos + 2,
                        ));
                    }
                    return Err(ParseError::UnexpectedToken(token));
                },
            };
            parts.push(part);
            assert(strings_view(parts@) =~= pv.push(part@));
        }
        Ok(parts)
    }

    fn finish_identifier_path(&mut self, first: String) -> (r: Result<String, ParseError>)
        ensures
            final(self)@ == old(self)@.at(spec_path_parts(old(self)@, seq![first@]).1),
            match spec_path_parts(old(self)@, seq![first@]).0 {
                Ok(parts) => r matches Ok(s) && parts.len() > 0 && s@ == parts.last(),
                Err(e) => r matches Err(x) && x@ == e,
            },
            final(self)@.pos >= old(self)@.pos,
    {
        let parts = self.finish_identifier_path_parts(first)?;
        proof { lemma_path_parts_grow(old(self)@, seq![first@]); }
        let n = parts.len();
        Ok(parts[n - 1].clone())
    }

    fn finish_qualified_identifier(&mut self, first: String) -> (r: Result<String, ParseError>)
        ensures
            final(self)@ == old(self)@.at(spec_path_parts(old(self)@, seq![first@]).1),
            match spec_path_parts(old(self)@, seq![first@]).0 {
                Ok(parts) => r matches Ok(s) && s@ == join_dot(parts),
                Err(e) => r matches Err(x) && x@ == e,
            },
            final(self)@.pos >= old(self)@.pos,
    {
        let parts = self.finish_identifier_path_parts(first)?;
        Ok(join_with_dots(&parts))
    }
}

impl Parser {
    fn parse_elem_type(&mut self) -> (r: Result<ThriftType, ParseError>)
        ensures
            final(self)@ == old(self)@.at(spec_elem_type(old(self)@).1),
            res_view(r) == spec_elem_type(old(self)@).0,
            final(self)@.pos >= old(self)@.pos,
        decreases old(self)@.left(), 0int,
    {
        self.expect_token(TokenKind::LessThan)?;
        let t = self.parse_type()?;
        self.expect_token(TokenKind::GreaterThan)?;
        Ok(t)
    }

    fn parse_map_types(&mut self) -> (r: Result<(ThriftType, ThriftType), ParseError>)
        ensures
            final(self)@ == old(self)@.at(spec_map_types(old(self)@).1),
            match r {
                Ok((k, v)) => spec_map_types(old(self)@).0 == Ok::<(SpecType, SpecType), SpecParseError>((k@, v@)),
                Err(e) => spec_map_types(old(self)@).0 == Err::<(SpecType, SpecType), SpecParseError>(e@),
            },
            final(self)@.pos >= old(self)@.pos,
        decreases old(self)@.left(), 0int,
    {
        self.expect_token(TokenKind::LessThan)?;
        let k = self.parse_type()?;
        self.expect_token(TokenKind::Comma)?;
        let v = self.parse_type()?;
        self.expect_token(TokenKind::GreaterThan)?;
        Ok((k, v))
    }

    fn parse_type(&mut self) -> (r: Result<ThriftType, ParseError>)
        ensures
            final(self)@ == old(self)@.at(spec_parse_type(old(self)@).1),
            res_view(r) == spec_parse_type(old(self)@).0,
            final(self)@.pos >= old(self)@.pos,
            r is Ok ==> final(self)@.pos > old(self)@.pos,
        decreases old(self)@.left(), 1int,
    {
        let token = self.consume_token()?;
        match token {
            TokenKind::Identifier(tname) => {
                if str_eq(tname.as_str(), "bool") {
                    Ok(ThriftType::Bool)
                } else if str_eq(tname.as_str(), "byte") {
                    Ok(ThriftType::Byte)
                } else if str_eq(tname.as_str(), "i16") {
                    Ok(ThriftType::I16)
                } else if str_eq(tname.as_str(), "i32") {
                    Ok(ThriftType::I32)
                } else if str_eq(tname.as_str(), "i64") {
                    Ok(ThriftType::I64)
                } else if str_eq(tname.as_str(), "double") {
                    Ok(ThriftType::Double)
                } else if str_eq(tname.as_str(), "string") {
                    Ok(ThriftType::String)
                } else if str_eq(tname.as_str(), "binary") {
                    Ok(ThriftType::Binary)
                } else if str_eq(tname.as_str(), "list") {
                    let t = self.parse_elem_type()?;
                    Ok(ThriftType::List(Box::new(t)))
                } else if str_eq(tname.as_str(), "set") {
                    let t = self.parse_elem_type()?;
                    Ok(ThriftType::SetT(Box::new(t)))
                } else if str_eq(tname.as_str(), "map") {
                    let (k, v) = self.parse_map_types()?;
                    Ok(ThriftType::MapT(Box::new(k), Box::new(v)))
                } else {
                    let name = self.finish_qualified_identifier(tname)?;
                    let local = local_name(&name);
                    match self.type_aliases.get(name.as_str()) {
                        Some(t) => Ok(t.deep_copy()),
                        None => match self.type_aliases.get(local.as_str()) {
                            Some(t) => Ok(t.deep_copy()),
                            None => Ok(ThriftType::Struct(name)),
                        },
                    }
                }
            },
            token => Err(ParseError::UnexpectedToken(token)),
        }
    }
}

// ─── Skipping ─────────────────────────────────────────────────────────────────

/// Skipping tokens until `depth` blocks opened by tokens of variant
/// `open_k` are closed by tokens of variant `close_k`.
pub open spec fn spec_skip_balanced(p: SpecParser, open_k: int, close_k: int, depth: nat) -> (Result<(), SpecParseError>, int)
    decreases p.left(),
{
    if depth == 0 {
        (Ok(()), p.pos)
    } else {
        match p.current() {
            None => (Err(SpecParseError::EndOfInput), p.pos),
            Some(t) => {
                let d: nat = if kind_of(t) == open_k {
                    depth + 1
                } else if kind_of(t) == close_k {
                    (depth - 1) as nat
                } else {
                    depth
                };
                spec_skip_balanced(p.at(p.pos + 1), open_k, close_k, d)
            },
        }
    }
}

/// Skipping the parenthesized annotations at the position.
pub open spec fn spec_skip_annotations(p: SpecParser) -> (Result<(), SpecParseError>, int)
    decreases p.left(),
{
    if p.current() == Some(TokenKind::<Seq<char>>::LeftParen) {
        match spec_skip_balanced(p.at(p.pos + 1), 7, 8, 1) {
            (Err(e), r) => (Err(e), r),
            (Ok(_), r) => if p.pos < r <= p.tokens.len() {
                spec_skip_annotations(p.at(r))
            } else {
                (Ok(()), r)
            },
        }
    } else {
        (Ok(()), p.pos)
    }
}

/// One less, but not below zero.
pub open spec fn dec_sat(n: nat) -> nat {
    if n == 0 { 0 } else { (n - 1) as nat }
}

/// Where skipping a default value stops: at the first `;`, `,`, `)` or `}`
/// outside any bracket, or at a number or keyword outside any bracket once a
/// token was skipped, or at the end.
pub open spec fn spec_skip_value(p: SpecParser, paren: nat, brace: nat, bracket: nat, consumed: bool) -> int
    decreases p.left(),
{
    match p.current() {
        None => p.pos,
        Some(t) => {
            let top = paren == 0 && brace == 0 && bracket == 0;
            let k = kind_of(t);
            if top && (k == 6 || k == 5 || k == 8 || k == 10) {
                p.pos
            } else if consumed && top && (k == 2 || k == 0) {
                p.pos
            } else {
                let pa: nat = if k == 7 { paren + 1 } else if k == 8 { dec_sat(paren) } else { paren };
                let br: nat = if k == 9 { brace + 1 } else if k == 10 { dec_sat(brace) } else { brace };
                let bk: nat = if k == 11 { bracket + 1 } else if k == 12 { dec_sat(bracket) } else { bracket };
                spec_skip_value(p.at(p.pos + 1), pa, br, bk, true)
            }
        },
    }
}

impl Parser {
    fn skip_balanced_block(&mut self, left: Token, right: Token) -> (r: Result<(), ParseError>)
        requires
            old(self)@.pos >= 1,
        ensures
            final(self)@ == old(self)@.at(spec_skip_balanced(old(self)@, kind_of(left@), kind_of(right@), 1).1),
            res_view(r) == spec_skip_balanced(old(self)@, kind_of(left@), kind_of(right@), 1).0,
            final(self)@.pos >= old(self)@.pos,
    {
        let ghost p0 = self@;
        let lk = token_kind(&left);
        let rk = token_kind(&right);
        let mut depth: usize = 1;
        while depth > 0
            invariant
                p0 == old(self)@,
                p0.pos >= 1,
                self@ == p0.at(self@.pos),
                self@.pos >= p0.pos,
                depth <= self.position,
                lk as int == kind_of(left@),
                rk as int == kind_of(right@),
                spec_skip_balanced(p0, lk as int, rk as int, 1) == spec_skip_balanced(self@, lk as int, rk as int, depth as nat),
            decreases self@.left(),
        {
            let token = self.consume_token()?;
            let k = token_kind(&token);
            if k == lk {
                depth = depth + 1;
            } else if k == rk {
                depth = depth - 1;
            }
        }
        Ok(())
    }

    fn skip_annotations(&mut self) -> (r: Result<(), ParseError>)
        ensures
            final(self)@ == old(self)@.at(spec_skip_annotations(old(self)@).1),
            res_view(r) == spec_skip_annotations(old(self)@).0,
            final(self)@.pos >= old(self)@.pos,
    {
        let ghost p0 = self@;
        while self.at_kind(7)
            invariant
                p0 == old(self)@,
                self@ == p0.at(self@.pos),
                self@.pos >= p0.pos,
                spec_skip_annotations(p0) == spec_skip_annotations(self@),
            decreases self@.left(),
        {
            self.position = self.position + 1;
            self.skip_balanced_block(TokenKind::LeftParen, TokenKind::RightParen)?;
            proof { use_type_invariant(&*self); }
        }
        Ok(())
    }

    fn skip_default_value(&mut self) -> (r: Result<(), ParseError>)
        ensures
            final(self)@ == old(self)@.at(spec_skip_value(old(self)@, 0, 0, 0, false)),
            r is Ok,
            final(self)@.pos >= old(self)@.pos,
    {
        let ghost p0 = self@;
        let mut paren_depth: usize = 0;
        let mut brace_depth: usize = 0;
        let mut bracket_depth: usize = 0;
        let mut consumed_any = false;
        while self.position < self.tokens.len()
            invariant
                p0 == old(self)@,
                self@ == p0.at(self@.pos),
                self@.pos >= p0.pos,
                paren_depth <= self.position - p0.pos,
                brace_depth <= self.position - p0.pos,
                bracket_depth <= self.position - p0.pos,
                spec_skip_value(p0, 0, 0, 0, false) == spec_skip_value(
                    self@,
                    paren_depth as nat,
                    brace_depth as nat,
                    bracket_depth as nat,
                    consumed_any,
                ),
            ensures
                p0 == old(self)@,
                self@ == p0.at(self@.pos),
                self@.pos >= p0.pos,
                spec_skip_value(p0, 0, 0, 0, false) == self@.pos,
            decreases self@.left(),
        {
            assert(self@.current() == Some(self.tokens@[self.position as int]@));
            let k = token_kind(&self.tokens[self.position]);
            let at_top_level = paren_depth == 0 && brace_depth == 0 && bracket_depth == 0;
            if at_top_level && (k == 6 || k == 5 || k == 8 || k == 10) {
                break;
            }
            if consumed_any && at_top_level && (k == 2 || k == 0) {
                break;
            }
            if k == 7 {
                paren_depth = paren_depth + 1;
            } else if k == 8 {
                paren_depth = paren_depth.saturating_sub(1);
            } else if k == 9 {
                brace_depth = brace_depth + 1;
            } else if k == 10 {
                brace_depth = brace_depth.saturating_sub(1);
            } else if k == 11 {
                bracket_depth = bracket_depth + 1;
            } else if k == 12 {
                bracket_depth = bracket_depth.saturating_sub(1);
            }
            self.position = self.position + 1;
            consumed_any = true;
        }
        Ok(())
    }
}

// ─── Default values ───────────────────────────────────────────────────────────

/// The value of `Enum.VARIANT`, for an enum known so far.
pub open spec fn enum_value(p: SpecParser, parts: Seq<Seq<char>>) -> Option<i32> {
    if parts.len() == 2 {
        match assoc_get(p.enums, parts[0]) {
            Some(vs) => assoc_get(vs, parts[1]),
            None => None,
        }
    } else {
        None
    }
}

/// A reference to an enum variant, starting with the word `first` at the position.
pub open spec fn spec_enum_ref(p: SpecParser, first: Seq<char>) -> (Result<i64, SpecParseError>, int) {
    match spec_path_parts(p.at(p.pos + 1), seq![first]) {
        (Err(e), r) => (Err(e), r),
        (Ok(parts), r) => match enum_value(p, parts) {
            Some(v) => (Ok(v as i64), r),
            None => (Err(SpecParseError::Syntax("Unknown numeric default value: "@ + join_dot(parts))), r),
        },
    }
}

/// An integer default: a number, or a variant of an enum known so far.
pub open spec fn spec_i64_default(p: SpecParser) -> (Result<i64, SpecParseError>, int) {
    match p.current() {
        None => (Err(SpecParseError::EndOfInput), p.pos),
        Some(TokenKind::Number(v)) => (Ok(v), p.pos + 1),
        Some(TokenKind::Identifier(f)) => spec_enum_ref(p, f),
        Some(TokenKind::Keyword(f)) => spec_enum_ref(p, f),
        Some(t) => (Err(SpecParseError::Unexpected(t)), p.pos + 1),
    }
}

/// `true` or `false` as a word.
pub open spec fn word_bool(w: Seq<char>, t: SpecToken) -> Result<SpecValue, SpecParseError> {
    if w == "true"@ {
        Ok(SpecValue::Bool(true))
    } else if w == "false"@ {
        Ok(SpecValue::Bool(false))
    } else {
        Err(SpecParseError::Unexpected(t))
    }
}

/// A boolean default: `true`, `false`, or a number (true when not zero).
pub open spec fn spec_bool_default(p: SpecParser) -> (Result<SpecValue, SpecParseError>, int) {
    match p.current() {
        None => (Err(SpecParseError::EndOfInput), p.pos),
        Some(t) => (
            match t {
                TokenKind::Identifier(w) => word_bool(w, t),
                TokenKind::Keyword(w) => word_bool(w, t),
                TokenKind::Number(n) => Ok(SpecValue::Bool(n != 0)),
                _ => Err(SpecParseError::Unexpected(t)),
            },
            p.pos + 1,
        ),
    }
}

/// An integer default taken as a value of a numeric type.
pub open spec fn int_value(t: SpecType, v: i64) -> SpecValue {
    match t {
        SpecType::Byte => SpecValue::Byte(v as i8),
        SpecType::I16 => SpecValue::I16(v as i16),
        SpecType::I32 => SpecValue::I32(v as i32),
        SpecType::Double => SpecValue::Double(double_bits_of_int(v as int)),
        _ => SpecValue::I64(v),
    }
}

/// A default value of type `t` at the position.
pub open spec fn spec_default_value(p: SpecParser, t: SpecType) -> (Result<SpecValue, SpecParseError>, int)
    decreases p.left(), 3int,
{
    match t {
        SpecType::Bool => spec_bool_default(p),
        SpecType::Byte | SpecType::I16 | SpecType::I32 | SpecType::I64 | SpecType::Double => match spec_i64_default(p) {
            (Ok(v), r) => (Ok(int_value(t, v)), r),
            (Err(e), r) => (Err(e), r),
        },
        SpecType::String => match p.current() {
            None => (Err(SpecParseError::EndOfInput), p.pos),
            Some(TokenKind::String(s)) => (Ok(SpecValue::String(s)), p.pos + 1),
            Some(TokenKind::Identifier(s)) => (Ok(SpecValue::String(s)), p.pos + 1),
            Some(TokenKind::Keyword(s)) => (Ok(SpecValue::String(s)), p.pos + 1),
            Some(x) => (Err(SpecParseError::Unexpected(x)), p.pos + 1),
        },
        SpecType::Binary => match p.current() {
            None => (Err(SpecParseError::EndOfInput), p.pos),
            Some(TokenKind::String(s)) => (Ok(SpecValue::Binary(encode_utf8(s))), p.pos + 1),
            Some(x) => (Err(SpecParseError::Unexpected(x)), p.pos + 1),
        },
        SpecType::List(e) => match spec_default_seq(p, *e) {
            (Ok(vs), r) => (Ok(SpecValue::List(vs)), r),
            (Err(x), r) => (Err(x), r),
        },
        SpecType::SetT(e) => match spec_default_seq(p, *e) {
            (Ok(vs), r) => (Ok(SpecValue::SetT(vs)), r),
            (Err(x), r) => (Err(x), r),
        },
        SpecType::MapT(k, v) => spec_default_map(p, *k, *v),
        SpecType::Struct(n) => (
            Ok(SpecValue::Struct(Some(n), Seq::empty())),
            spec_skip_value(p, 0, 0, 0, false),
        ),
    }
}

/// A bracketed list of default values of type `e`.
pub open spec fn spec_default_seq(p: SpecParser, e: SpecType) -> (Result<Seq<SpecValue>, SpecParseError>, int)
    decreases p.left(), 2int,
{
    match spec_expect(p, TokenKind::LeftBracket) {
        (Err(x), r) => (Err(x), r),
        (Ok(_), r) => if p.pos < r <= p.tokens.len() {
            match spec_seq_items(p.at(r), e, Seq::empty()) {
                (Err(x), r2) => (Err(x), r2),
                (Ok(vs), r2) => match spec_expect(p.at(r2), TokenKind::RightBracket) {
                    (Err(x), r3) => (Err(x), r3),
                    (Ok(_), r3) => (Ok(vs), r3),
                },
            }
        } else {
            (Err(SpecParseError::EndOfInput), r)
        },
    }
}

/// The items of a list default, after `acc`, up to `]` or the end. An item
/// that takes no token and is followed by no separator ends the list with
/// an error at the token where it stands.
pub open spec fn spec_seq_items(p: SpecParser, e: SpecType, acc: Seq<SpecValue>) -> (Result<Seq<SpecValue>, SpecParseError>, int)
    decreases p.left(), 4int,
{
    match p.current() {
        None => (Ok(acc), p.pos),
        Some(t) => if kind_of(t) == 12 {
            (Ok(acc), p.pos)
        } else {
            match spec_default_value(p, e) {
                (Err(x), r) => (Err(x), r),
                (Ok(v), r) => {
                    let r2 = skip_separator(p.at(r));
                    if p.pos < r2 <= p.tokens.len() {
                        spec_seq_items(p.at(r2), e, acc.push(v))
                    } else {
                        (Err(SpecParseError::Unexpected(t)), r2)
                    }
                },
            }
        },
    }
}

/// A braced map default with keys of type `k` and values of type `v`.
pub open spec fn spec_default_map(p: SpecParser, k: SpecType, v: SpecType) -> (Result<SpecValue, SpecParseError>, int)
    decreases p.left(), 2int,
{
    match spec_expect(p, TokenKind::LeftBrace) {
        (Err(x), r) => (Err(x), r),
        (Ok(_), r) => if p.pos < r <= p.tokens.len() {
            match spec_map_items(p.at(r), k, v, Seq::empty()) {
                (Err(x), r2) => (Err(x), r2),
                (Ok(ps), r2) => match spec_expect(p.at(r2), TokenKind::RightBrace) {
                    (Err(x), r3) => (Err(x), r3),
                    (Ok(_), r3) => (Ok(SpecValue::MapT(ps)), r3),
                },
            }
        } else {
            (Err(SpecParseError::EndOfInput), r)
        },
    }
}

/// The `key: value` pairs of a map default, after `acc`, up to `}` or the end.
pub open spec fn spec_map_items(
    p: SpecParser,
    k: SpecType,
    v: SpecType,
    acc: Seq<(SpecValue, SpecValue)>,
) -> (Result<Seq<(SpecValue, SpecValue)>, SpecParseError>, int)
    decreases p.left(), 4int,
{
    match p.current() {
        None => (Ok(acc), p.pos),
        Some(t) => if kind_of(t) == 10 {
            (Ok(acc), p.pos)
        } else {
            match spec_default_value(p, k) {
                (Err(x), r) => (Err(x), r),
                (Ok(kv), r) => match spec_expect(p.at(r), TokenKind::Colon) {
                    (Err(x), r2) => (Err(x), r2),
                    (Ok(_), r2) => if p.pos < r2 <= p.tokens.len() {
                        match spec_default_value(p.at(r2), v) {
                            (Err(x), r3) => (Err(x), r3),
                            (Ok(vv), r3) => {
                                let r4 = skip_separator(p.at(r3));
                                if p.pos < r4 <= p.tokens.len() {
                                    spec_map_items(p.at(r4), k, v, acc.push((kv, vv)))
                                } else {
                                    (Err(SpecParseError::EndOfInput), r4)
                                }
                            },
                        }
                    } else {
                        (Err(SpecParseError::EndOfInput), r2)
                    },
                },
            }
        },
    }
}

impl Parser {
    fn parse_bool_default(&mut self) -> (r: Result<ThriftValue, ParseError>)
        ensures
            final(self)@ == old(self)@.at(spec_bool_default(old(self)@).1),
            res_view(r) == spec_bool_default(old(self)@).0,
            final(self)@.pos >= old(self)@.pos,
    {
        let token = self.consume_token()?;
        match token {
            TokenKind::Identifier(value) => {
                if str_eq(value.as_str(), "true") {
                    Ok(ThriftValue::Bool(true))
                } else if str_eq(value.as_str(), "false") {
                    Ok(ThriftValue::Bool(false))
                } else {
                    Err(ParseError::UnexpectedToken(TokenKind::Identifier(value)))
                }
            },
            TokenKind::Keyword(value) => {
                if str_eq(value.as_str(), "true") {
                    Ok(ThriftValue::Bool(true))
                } else if str_eq(value.as_str(), "false") {
                    Ok(ThriftValue::Bool(false))
                } else {
                    Err(ParseError::UnexpectedToken(TokenKind::Keyword(value)))
                }
            },
            TokenKind::Number(value) => Ok(ThriftValue::Bool(value != 0)),
            token => Err(ParseError::UnexpectedToken(token)),
        }
    }

    fn parse_enum_reference(&mut self, first: String) -> (r: Result<i64, ParseError>)
        requires
            old(self)@.pos >= 1,
        ensures
            final(self)@ == old(self)@.at(spec_enum_ref(old(self)@.at(old(self)@.pos - 1), first@).1),
            res_view(r) == spec_enum_ref(old(self)@.at(old(self)@.pos - 1), first@).0,
            final(self)@.pos >= old(self)@.pos,
    {
        let parts = self.finish_identifier_path_parts(first)?;
        if parts.len() == 2 {
            match self.enum_values.get(parts[0].as_str()) {
                Some(variants) => match variants.get(parts[1].as_str()) {
                    Some(value) => {
                        return Ok(*value as i64);
                    },
                    None => {},
                },
                None => {},
            }
        }
        let mut msg = String::from_str("Unknown numeric default value: ");
        let joined = join_with_dots(&parts);
        msg.append(joined.as_str());
        Err(ParseError::SyntaxError(msg))
    }

    fn parse_i64_default(&mut self) -> (r: Result<i64, ParseError>)
        ensures
            final(self)@ == old(self)@.at(spec_i64_default(old(self)@).1),
            res_view(r) == spec_i64_default(old(self)@).0,
            final(self)@.pos >= old(self)@.pos,
    {
        let token = self.consume_token()?;
        match token {
            TokenKind::Number(value) => Ok(value),
            TokenKind::Identifier(first) => self.parse_enum_reference(first),
            TokenKind::Keyword(first) => self.parse_enum_reference(first),
            token => Err(ParseError::UnexpectedToken(token)),
        }
    }
}

impl Parser {
    fn parse_default_value(&mut self, t: &ThriftType) -> (r: Result<ThriftValue, ParseError>)
        ensures
            final(self)@ == old(self)@.at(spec_default_value(old(self)@, t@).1),
            res_view(r) == spec_default_value(old(self)@, t@).0,
            final(self)@.pos >= old(self)@.pos,
        decreases old(self)@.left(), 3int,
    {
        proof { use_type_invariant(&*self); }
        match t {
            ThriftType::Bool => self.parse_bool_default(),
            ThriftType::Byte => Ok(ThriftValue::Byte(self.parse_i64_default()? as i8)),
            ThriftType::I16 => Ok(ThriftValue::I16(self.parse_i64_default()? as i16)),
            ThriftType::I32 => Ok(ThriftValue::I32(self.parse_i64_default()? as i32)),
            ThriftType::I64 => Ok(ThriftValue::I64(self.parse_i64_default()?)),
            ThriftType::Double => Ok(ThriftValue::Double(i64_to_double_bits(self.parse_i64_default()?))),
            ThriftType::String => match self.consume_token()? {
                TokenKind::String(value) => Ok(ThriftValue::String(value)),
                TokenKind::Identifier(value) => Ok(ThriftValue::String(value)),
                TokenKind::Keyword(value) => Ok(ThriftValue::String(value)),
                token => Err(ParseError::UnexpectedToken(token)),
            },
            ThriftType::Binary => match self.consume_token()? {
                TokenKind::String(value) => Ok(ThriftValue::Binary(value.as_str().as_bytes_vec())),
                token => Err(ParseError::UnexpectedToken(token)),
            },
            ThriftType::List(element_type) => {
                let values = self.parse_default_sequence(&**element_type)?;
                Ok(ThriftValue::List(values))
            },
            ThriftType::SetT(element_type) => {
                let values = self.parse_default_sequence(&**element_type)?;
                Ok(ThriftValue::SetT(values))
            },
            ThriftType::MapT(key_type, value_type) => {
                let ghost p0 = self@;
                self.expect_token(TokenKind::LeftBrace)?;
                proof { use_type_invariant(&*self); }
                let ghost start = self@;
                let mut pairs: Vec<(ThriftValue, ThriftValue)> = Vec::new();
                assert(pairs_view(pairs@) =~= Seq::<(SpecValue, SpecValue)>::empty());
                while self.position < self.tokens.len() && !self.at_kind(10)
                    invariant
                        p0 == old(self)@,
                        t@ == SpecType::MapT(Box::new(key_type@), Box::new(value_type@)),
                        spec_expect(p0, TokenKind::LeftBrace) == (Ok::<(), SpecParseError>(()), p0.pos + 1),
                        start == p0.at(p0.pos + 1),
                        p0.pos < start.pos <= start.tokens.len(),
                        self@ == p0.at(self@.pos),
                        self@.pos >= start.pos,
                        spec_map_items(start, key_type@, value_type@, Seq::empty())
                            == spec_map_items(self@, key_type@, value_type@, pairs_view(pairs@)),
                    decreases self@.left(),
                {
                    let ghost s0 = self@;
                    let ghost pv = pairs_view(pairs@);
                    let key = self.parse_default_value(&**key_type)?;
                    self.expect_token(TokenKind::Colon)?;
                    proof { use_type_invariant(&*self); }
                    let value = self.parse_default_value(&**value_type)?;
                    self.skip_separator();
                    proof { use_type_invariant(&*self); }
                    let ghost kv = key@;
                    let ghost vv = value@;
                    let ghost old_pairs = pairs@;
                    pairs.push((key, value));
                    proof {
                        assert(pairs@.drop_last() =~= old_pairs);
                        assert(pairs_view(pairs@) =~= pv.push((kv, vv)));
                    }
                }
                self.expect_token(TokenKind::RightBrace)?;
                Ok(ThriftValue::MapT(pairs))
            },
            ThriftType::Struct(name) => {
                self.skip_default_value()?;
                Ok(ThriftValue::Struct { name: Some(name.clone()), fields: Vec::new() })
            },
        }
    }

    fn parse_default_sequence(&mut self, element_type: &ThriftType) -> (r: Result<Vec<ThriftValue>, ParseError>)
        ensures
            final(self)@ == old(self)@.at(spec_default_seq(old(self)@, element_type@).1),
            match r {
                Ok(v) => spec_default_seq(old(self)@, element_type@).0 == Ok::<Seq<SpecValue>, SpecParseError>(values_view(v@)),
                Err(e) => spec_default_seq(old(self)@, element_type@).0 == Err::<Seq<SpecValue>, SpecParseError>(e@),
            },
            final(self)@.pos >= old(self)@.pos,
        decreases old(self)@.left(), 2int,
    {
        let ghost p0 = self@;
        self.expect_token(TokenKind::LeftBracket)?;
        proof { use_type_invariant(&*self); }
        let ghost start = self@;
        let mut values: Vec<ThriftValue> = Vec::new();
        assert(values_view(values@) =~= Seq::<SpecValue>::empty());
        while self.position < self.tokens.len() && !self.at_kind(12)
            invariant
                p0 == old(self)@,
                spec_expect(p0, TokenKind::LeftBracket) == (Ok::<(), SpecParseError>(()), p0.pos + 1),
                start == p0.at(p0.pos + 1),
                p0.pos < start.pos <= start.tokens.len(),
                self@ == p0.at(self@.pos),
                self@.pos >= start.pos,
                spec_seq_items(start, element_type@, Seq::empty())
                    == spec_seq_items(self@, element_type@, values_view(values@)),
            decreases self@.left(),
        {
            let ghost s0 = self@;
            let ghost vs = values_view(values@);
            let before = self.position;
            let value = self.parse_default_value(element_type)?;
            self.skip_separator();
            proof { use_type_invariant(&*self); }
            if self.position == before {
                let token = copy_token(&self.tokens[self.position]);
                return Err(ParseError::UnexpectedToken(token));
            }
            let ghost v = value@;
            let ghost old_values = values@;
            values.push(value);
            proof {
                assert(values@.drop_last() =~= old_values);
                assert(values_view(values@) =~= vs.push(v));
            }
        }
        self.expect_token(TokenKind::RightBracket)?;
        Ok(values)
    }
}

// ─── Fields and structs ───────────────────────────────────────────────────────

/// The default of a field of type `ft` after its `=`, at the position: the
/// value, or nothing when it does not parse, in which case what follows is
/// skipped as `spec_skip_value` says.
pub open spec fn spec_field_default(p: SpecParser, ft: SpecType) -> (Option<SpecValue>, int) {
    match spec_default_value(p, ft) {
        (Ok(v), r) => (Some(v), r),
        (Err(_), r) => (None, spec_skip_value(p.at(r), 0, 0, 0, false)),
    }
}

/// The rest of a field, from its name on.
pub open spec fn spec_field_tail(p: SpecParser, id: i16, required: bool, ft: SpecType) -> (Result<SpecField, SpecParseError>, int) {
    match p.current() {
        None => (Err(SpecParseError::EndOfInput), p.pos),
        Some(TokenKind::Identifier(name)) => {
            let q = p.pos + 1;
            let (dv, r) = if p.at(q).current() == Some(TokenKind::<Seq<char>>::Equal) {
                spec_field_default(p.at(q + 1), ft)
            } else {
                (None, q)
            };
            match spec_skip_annotations(p.at(r)) {
                (Err(e), r2) => (Err(e), r2),
                (Ok(_), r2) => (
                    Ok(SpecField { id, name, field_type: ft, required, default_value: dv }),
                    skip_separator(p.at(r2)),
                ),
            }
        },
        Some(t) => (Err(SpecParseError::Unexpected(t)), p.pos + 1),
    }
}

/// Whether a field is marked required, and where its type starts.
pub open spec fn spec_requiredness(p: SpecParser) -> (Result<bool, SpecParseError>, int) {
    match p.current() {
        None => (Err(SpecParseError::EndOfInput), p.pos),
        Some(t) => if t == TokenKind::<Seq<char>>::Keyword("required"@) {
            (Ok(true), p.pos + 1)
        } else if t == TokenKind::<Seq<char>>::Keyword("optional"@) {
            (Ok(false), p.pos + 1)
        } else {
            (Ok(false), p.pos)
        },
    }
}

/// A field: `id: [required|optional] type [annotations] name [= default]
/// [annotations] [;|,]`.
pub open spec fn spec_parse_field(p: SpecParser) -> (Result<SpecField, SpecParseError>, int) {
    match p.current() {
        None => (Err(SpecParseError::EndOfInput), p.pos),
        Some(TokenKind::Number(n)) => match spec_expect(p.at(p.pos + 1), TokenKind::Colon) {
            (Err(e), r) => (Err(e), r),
            (Ok(_), r) => match spec_requiredness(p.at(r)) {
                (Err(e), r1) => (Err(e), r1),
                (Ok(required), r1) => match spec_parse_type(p.at(r1)) {
                    (Err(e), r2) => (Err(e), r2),
                    (Ok(ft), r2) => match spec_skip_annotations(p.at(r2)) {
                        (Err(e), r3) => (Err(e), r3),
                        (Ok(_), r3) => spec_field_tail(p.at(r3), n as i16, required, ft),
                    },
                },
            },
        },
        Some(t) => (Err(SpecParseError::Unexpected(t)), p.pos + 1),
    }
}

/// A field that parses begins with its id and a colon, and takes its id from
/// that number; it is required exactly when the token after the colon is the
/// keyword `required`: a field marked `optional`, or whose type follows the
/// colon directly, is not.
pub proof fn lemma_field_required_by_keyword(p: SpecParser)
    ensures
        spec_parse_field(p).0 matches Ok(f) ==> {
            &&& p.current() matches Some(TokenKind::Number(n)) && f.id == n as i16
            &&& p.at(p.pos + 1).current() matches Some(TokenKind::Colon)
            &&& f.required <==> p.at(p.pos + 2).current() == Some(TokenKind::<Seq<char>>::Keyword("required"@))
        },
{
    if let Some(TokenKind::Number(n)) = p.current() {
        let q = p.at(p.pos + 1);
        if let (Ok(_), r) = spec_expect(q, TokenKind::Colon) {
            assert(r == p.pos + 2);
            if let Some(t) = q.current() {
                assert(kind_of(t) == kind_of(TokenKind::<Seq<char>>::Colon));
                assert(t matches TokenKind::Colon);
            }
            if let (Ok(required), r1) = spec_requiredness(p.at(r)) {
                assert(required <==> p.at(r).current() == Some(TokenKind::<Seq<char>>::Keyword("required"@)));
                if let (Ok(ft), r2) = spec_parse_type(p.at(r1)) {
                    if let (Ok(_), r3) = spec_skip_annotations(p.at(r2)) {
                        let tail = spec_field_tail(p.at(r3), n as i16, required, ft);
                        assert(tail.0 matches Ok(f) ==> f.required == required && f.id == n as i16);
                    }
                }
            }
        }
    }
}

/// The fields of a struct body, after `acc`, up to `}` or the end.
pub open spec fn spec_struct_fields(p: SpecParser, acc: Seq<SpecField>) -> (Result<Seq<SpecField>, SpecParseError>, int)
    decreases p.left(),
{
    match p.current() {
        None => (Ok(acc), p.pos),
        Some(t) => if kind_of(t) == 10 {
            (Ok(acc), p.pos)
        } else {
            match spec_parse_field(p) {
                (Err(e), r) => (Err(e), r),
                (Ok(f), r) => if p.pos < r <= p.tokens.len() {
                    spec_struct_fields(p.at(r), acc.push(f))
                } else {
                    (Err(SpecParseError::EndOfInput), r)
                },
            }
        },
    }
}

/// `extends Parent` (the last part of a dotted name), if it is there.
pub open spec fn spec_extends(p: SpecParser) -> (Result<Option<Seq<char>>, SpecParseError>, int) {
    if p.current() == Some(TokenKind::<Seq<char>>::Keyword("extends"@)) {
        let q = p.pos + 1;
        match p.at(q).current() {
            None => (Err(SpecParseError::EndOfInput), q),
            Some(TokenKind::Identifier(n)) => extends_name(spec_path_parts(p.at(q + 1), seq![n])),
            Some(TokenKind::Keyword(n)) => extends_name(spec_path_parts(p.at(q + 1), seq![n])),
            Some(t) => (Err(SpecParseError::Unexpected(t)), q + 1),
        }
    } else {
        (Ok(None), p.pos)
    }
}

pub open spec fn extends_name(r: (Result<Seq<Seq<char>>, SpecParseError>, int)) -> (Result<Option<Seq<char>>, SpecParseError>, int) {
    match r {
        (Ok(parts), q) => (Ok(Some(parts.last())), q),
        (Err(e), q) => (Err(e), q),
    }
}

/// Whether a field of `merged` has the id or the name of `f`.
pub open spec fn clashes(merged: Seq<SpecField>, f: SpecField) -> bool {
    exists|i: int| 0 <= i < merged.len() && (merged[i].id == f.id || merged[i].name == f.name)
}

/// The fields of `rest` after those of `merged`, none clashing with one before it.
pub open spec fn merge_fields(merged: Seq<SpecField>, rest: Seq<SpecField>, parent: Seq<char>) -> Result<Seq<SpecField>, SpecParseError>
    decreases rest.len(),
{
    if rest.len() == 0 {
        Ok(merged)
    } else if clashes(merged, rest[0]) {
        Err(SpecParseError::Syntax("Duplicate inherited field '"@ + rest[0].name + "' in extends "@ + parent))
    } else {
        merge_fields(merged.push(rest[0]), rest.skip(1), parent)
    }
}

/// The fields of a struct that extends `parent`: the parent's first.
pub open spec fn spec_merge_parent_fields(p: SpecParser, parent: Option<Seq<char>>, fields: Seq<SpecField>) -> Result<Seq<SpecField>, SpecParseError> {
    match parent {
        None => Ok(fields),
        Some(pn) => match assoc_get(p.structs, pn) {
            None => Err(SpecParseError::Syntax("Unknown parent struct: "@ + pn)),
            Some(ps) => merge_fields(ps.fields, fields, pn),
        },
    }
}

/// The body of a struct from its `{`, and what follows it.
pub open spec fn spec_struct_body(p: SpecParser, name: Seq<char>, parent: Option<Seq<char>>) -> (Result<SpecStruct, SpecParseError>, int) {
    match spec_expect(p, TokenKind::LeftBrace) {
        (Err(e), r) => (Err(e), r),
        (Ok(_), r) => match spec_struct_fields(p.at(r), Seq::empty()) {
            (Err(e), r2) => (Err(e), r2),
            (Ok(fields), r2) => match spec_expect(p.at(r2), TokenKind::RightBrace) {
                (Err(e), r3) => (Err(e), r3),
                (Ok(_), r3) => match spec_skip_annotations(p.at(r3)) {
                    (Err(e), r4) => (Err(e), r4),
                    (Ok(_), r4) => match spec_merge_parent_fields(p, parent, fields) {
                        Err(e) => (Err(e), r4),
                        Ok(merged) => (Ok(SpecStruct { name, fields: merged }), r4),
                    },
                },
            },
        },
    }
}

/// A struct, union or exception: `keyword Name [extends Parent]
/// [annotations] { fields } [annotations]`.
pub open spec fn spec_parse_struct(p: SpecParser) -> (Result<SpecStruct, SpecParseError>, int) {
    match spec_expect(p, TokenKind::Keyword(Seq::empty())) {
        (Err(e), r) => (Err(e), r),
        (Ok(_), r) => match p.at(r).current() {
            None => (Err(SpecParseError::EndOfInput), r),
            Some(TokenKind::Identifier(name)) => match spec_extends(p.at(r + 1)) {
                (Err(e), r2) => (Err(e), r2),
                (Ok(parent), r2) => match spec_skip_annotations(p.at(r2)) {
                    (Err(e), r3) => (Err(e), r3),
                    (Ok(_), r3) => spec_struct_body(p.at(r3), name, parent),
                },
            },
            Some(t) => (Err(SpecParseError::Unexpected(t)), r + 1),
        },
    }
}

impl Parser {
    fn parse_field(&mut self) -> (r: Result<ThriftField, ParseError>)
        ensures
            final(self)@ == old(self)@.at(spec_parse_field(old(self)@).1),
            res_view(r) == spec_parse_field(old(self)@).0,
            final(self)@.pos >= old(self)@.pos,
            r is Ok ==> final(self)@.pos > old(self)@.pos,
    {
        let id = match self.consume_token()? {
            TokenKind::Number(id) => id as i16,
            token => return Err(ParseError::UnexpectedToken(token)),
        };
        self.expect_token(TokenKind::Colon)?;
        let required = match self.peek() {
            None => return Err(ParseError::EndOfInput),
            Some(_) => {
                if self.at_keyword("required") {
                    self.position = self.position + 1;
                    true
                } else if self.at_keyword("optional") {
                    self.position = self.position + 1;
                    false
                } else {
                    false
                }
            },
        };
        let field_type = self.parse_type()?;
        self.skip_annotations()?;
        let ghost before_name = self@;
        let name = match self.consume_token()? {
            TokenKind::Identifier(name) => name,
            token => return Err(ParseError::UnexpectedToken(token)),
        };
        let mut default_value = None;
        if self.at_kind(16) {
            self.position = self.position + 1;
            default_value = match self.parse_default_value(&field_type) {
                Ok(value) => Some(value),
                Err(_) => {
                    self.skip_default_value()?;
                    None
                },
            };
        }
        self.skip_annotations()?;
        self.skip_separator();
        Ok(ThriftField { id, name, field_type, required, default_value })
    }

    fn consume_optional_extends(&mut self) -> (r: Result<Option<String>, ParseError>)
        ensures
            final(self)@ == old(self)@.at(spec_extends(old(self)@).1),
            match r {
                Ok(Some(n)) => spec_extends(old(self)@).0 == Ok::<Option<Seq<char>>, SpecParseError>(Some(n@)),
                Ok(None) => spec_extends(old(self)@).0 == Ok::<Option<Seq<char>>, SpecParseError>(None),
                Err(e) => spec_extends(old(self)@).0 == Err::<Option<Seq<char>>, SpecParseError>(e@),
            },
            final(self)@.pos >= old(self)@.pos,
    {
        if self.at_keyword("extends") {
            self.position = self.position + 1;
            let name = match self.consume_token()? {
                TokenKind::Identifier(name) => self.finish_identifier_path(name)?,
                TokenKind::Keyword(name) => self.finish_identifier_path(name)?,
                token => return Err(ParseError::UnexpectedToken(token)),
            };
            Ok(Some(name))
        } else {
            Ok(None)
        }
    }

    fn merge_parent_fields(&self, parent_name: &Option<String>, fields: Vec<ThriftField>) -> (r: Result<Vec<ThriftField>, ParseError>)
        ensures
            match r {
                Ok(v) => spec_merge_parent_fields(self@, opt_str_view(*parent_name), field_list_view(fields@))
                    == Ok::<Seq<SpecField>, SpecParseError>(field_list_view(v@)),
                Err(e) => spec_merge_parent_fields(self@, opt_str_view(*parent_name), field_list_view(fields@))
                    == Err::<Seq<SpecField>, SpecParseError>(e@),
            },
    {
        let pn = match parent_name {
            None => return Ok(fields),
            Some(n) => n,
        };
        let parent = match self.parsed_structs.get(pn.as_str()) {
            None => {
                let mut msg = String::from_str("Unknown parent struct: ");
                msg.append(pn.as_str());
                return Err(ParseError::SyntaxError(msg));
            },
            Some(parent) => parent,
        };
        let mut merged = copy_fields(&parent.fields);
        let ghost fv = field_list_view(fields@);
        assert(fv.skip(0) =~= fv);
        let mut i: usize = 0;
        while i < fields.len()
            invariant
                i <= fields@.len(),
                fv == field_list_view(fields@),
                spec_merge_parent_fields(self@, opt_str_view(*parent_name), fv)
                    == merge_fields(parent@.fields, fv, pn@),
                merge_fields(parent@.fields, fv, pn@)
                    == merge_fields(field_list_view(merged@), fv.skip(i as int), pn@),
            decreases fields@.len() - i,
        {
            let ghost mv = field_list_view(merged@);
            let field = &fields[i];
            assert(fv.skip(i as int)[0] == field@);
            let mut j: usize = 0;
            while j < merged.len()
                invariant
                    j <= merged@.len(),
                    i < fields@.len(),
                    mv == field_list_view(merged@),
                    fv == field_list_view(fields@),
                    fv.skip(i as int)[0] == field@,
                    spec_merge_parent_fields(self@, opt_str_view(*parent_name), fv)
                        == merge_fields(mv, fv.skip(i as int), pn@),
                    forall|k: int| 0 <= k < j ==> !(mv[k].id == field@.id || mv[k].name == field@.name),
                decreases merged@.len() - j,
            {
                if merged[j].id == field.id || str_eq(merged[j].name.as_str(), field.name.as_str()) {
                    assert(mv[j as int] == merged@[j as int]@);
                    assert(clashes(mv, field@));
                    let mut msg = String::from_str("Duplicate inherited field '");
                    msg.append(field.name.as_str());
                    msg.append("' in extends ");
                    msg.append(pn.as_str());
                    return Err(ParseError::SyntaxError(msg));
                }
                j = j + 1;
            }
            assert(!clashes(mv, field@));
            merged.push(field.deep_copy());
            assert(field_list_view(merged@) =~= mv.push(field@));
            assert(fv.skip(i as int).skip(1) =~= fv.skip(i + 1));
            i = i + 1;
        }
        assert(fv.skip(fields@.len() as int) =~= Seq::<SpecField>::empty());
        Ok(merged)
    }
}

impl Parser {
    /// The fields of a struct body, up to its `}` or the end.
    fn parse_struct_fields(&mut self) -> (r: Result<Vec<ThriftField>, ParseError>)
        ensures
            final(self)@ == old(self)@.at(spec_struct_fields(old(self)@, Seq::empty()).1),
            match r {
                Ok(v) => spec_struct_fields(old(self)@, Seq::empty()).0 == Ok::<Seq<SpecField>, SpecParseError>(field_list_view(v@)),
                Err(e) => spec_struct_fields(old(self)@, Seq::empty()).0 == Err::<Seq<SpecField>, SpecParseError>(e@),
            },
            final(self)@.pos >= old(self)@.pos,
    {
        proof { use_type_invariant(&*self); }
        let ghost start = self@;
        let mut fields: Vec<ThriftField> = Vec::new();
        assert(field_list_view(fields@) =~= Seq::<SpecField>::empty());
        while self.position < self.tokens.len() && !self.at_kind(10)
            invariant
                start == old(self)@,
                self@ == start.at(self@.pos),
                self@.pos >= start.pos,
                spec_struct_fields(start, Seq::empty()) == spec_struct_fields(self@, field_list_view(fields@)),
            decreases self@.left(),
        {
            let ghost fl = field_list_view(fields@);
            let field = self.parse_field()?;
            proof { use_type_invariant(&*self); }
            let ghost fw = field@;
            fields.push(field);
            assert(field_list_view(fields@) =~= fl.push(fw));
        }
        Ok(fields)
    }

    fn parse_struct(&mut self, keyword: &str) -> (r: Result<ThriftStruct, ParseError>)
        ensures
            final(self)@ == old(self)@.at(spec_parse_struct(old(self)@).1),
            res_view(r) == spec_parse_struct(old(self)@).0,
            final(self)@.pos >= old(self)@.pos,
            r is Ok ==> final(self)@.pos > old(self)@.pos,
    {
        let ghost p0 = self@;
        self.expect_token(TokenKind::Keyword(String::from_str(keyword)))?;
        let name = match self.consume_token()? {
            TokenKind::Identifier(name) => name,
            token => return Err(ParseError::UnexpectedToken(token)),
        };
        let extends = self.consume_optional_extends()?;
        self.skip_annotations()?;
        let ghost body = self@;
        self.expect_token(TokenKind::LeftBrace)?;
        let fields = self.parse_struct_fields()?;
        self.expect_token(TokenKind::RightBrace)?;
        self.skip_annotations()?;
        assert(self@.structs == p0.structs);
        let fields = self.merge_parent_fields(&extends, fields)?;
        Ok(ThriftStruct { name, fields })
    }
}

// ─── Methods and services ─────────────────────────────────────────────────────

/// The fields of an argument or `throws` list, after `acc`, up to `)` or the
/// end; a comma may follow each.
pub open spec fn spec_arg_fields(p: SpecParser, acc: Seq<SpecField>) -> (Result<Seq<SpecField>, SpecParseError>, int)
    decreases p.left(),
{
    match p.current() {
        None => (Ok(acc), p.pos),
        Some(t) => if kind_of(t) == 8 {
            (Ok(acc), p.pos)
        } else {
            match spec_parse_field(p) {
                (Err(e), r) => (Err(e), r),
                (Ok(f), r) => {
                    let r2 = skip_if(p.at(r), TokenKind::Comma);
                    if p.pos < r2 <= p.tokens.len() {
                        spec_arg_fields(p.at(r2), acc.push(f))
                    } else {
                        (Err(SpecParseError::EndOfInput), r2)
                    }
                },
            }
        },
    }
}

/// A parenthesized field list: `( fields )`.
pub open spec fn spec_field_list(p: SpecParser) -> (Result<Seq<SpecField>, SpecParseError>, int) {
    match spec_expect(p, TokenKind::LeftParen) {
        (Err(e), r) => (Err(e), r),
        (Ok(_), r) => match spec_arg_fields(p.at(r), Seq::empty()) {
            (Err(e), r2) => (Err(e), r2),
            (Ok(fs), r2) => match spec_expect(p.at(r2), TokenKind::RightParen) {
                (Err(e), r3) => (Err(e), r3),
                (Ok(_), r3) => (Ok(fs), r3),
            },
        },
    }
}

/// The exceptions of a method: `throws ( fields )`, or none.
pub open spec fn spec_throws(p: SpecParser) -> (Result<Seq<SpecField>, SpecParseError>, int) {
    if p.current() == Some(TokenKind::<Seq<char>>::Keyword("throws"@)) {
        spec_field_list(p.at(p.pos + 1))
    } else {
        (Ok(Seq::empty()), p.pos)
    }
}

/// The rest of a method after its return type.
pub open spec fn spec_method_tail(p: SpecParser, oneway: bool, rt: SpecType) -> (Result<SpecMethod, SpecParseError>, int) {
    match p.current() {
        None => (Err(SpecParseError::EndOfInput), p.pos),
        Some(TokenKind::Identifier(name)) => match spec_field_list(p.at(p.pos + 1)) {
            (Err(e), r) => (Err(e), r),
            (Ok(args), r) => match spec_throws(p.at(r)) {
                (Err(e), r2) => (Err(e), r2),
                (Ok(exs), r2) => match spec_skip_annotations(p.at(r2)) {
                    (Err(e), r3) => (Err(e), r3),
                    (Ok(_), r3) => (
                        Ok(SpecMethod { name, return_type: rt, arguments: args, exceptions: exs, oneway }),
                        skip_separator(p.at(r3)),
                    ),
                },
            },
        },
        Some(t) => (Err(SpecParseError::Unexpected(t)), p.pos + 1),
    }
}

/// A method: `[oneway] type name ( fields ) [throws ( fields )]
/// [annotations] [;|,]`.
pub open spec fn spec_parse_method(p: SpecParser) -> (Result<SpecMethod, SpecParseError>, int) {
    match p.current() {
        None => (Err(SpecParseError::EndOfInput), p.pos),
        Some(t) => {
            let oneway = t == TokenKind::<Seq<char>>::Keyword("oneway"@);
            let q = if oneway { p.pos + 1 } else { p.pos };
            match spec_parse_type(p.at(q)) {
                (Err(e), r) => (Err(e), r),
                (Ok(rt), r) => spec_method_tail(p.at(r), oneway, rt),
            }
        },
    }
}

/// The methods of a service body, after `acc`, up to `}` or the end.
pub open spec fn spec_service_methods(p: SpecParser, acc: Seq<SpecMethod>) -> (Result<Seq<SpecMethod>, SpecParseError>, int)
    decreases p.left(),
{
    match p.current() {
        None => (Ok(acc), p.pos),
        Some(t) => if kind_of(t) == 10 {
            (Ok(acc), p.pos)
        } else {
            match spec_parse_method(p) {
                (Err(e), r) => (Err(e), r),
                (Ok(m), r) => if p.pos < r <= p.tokens.len() {
                    spec_service_methods(p.at(r), acc.push(m))
                } else {
                    (Err(SpecParseError::EndOfInput), r)
                },
            }
        },
    }
}

/// Whether a method of `merged` has the name of `m`.
pub open spec fn name_taken(merged: Seq<SpecMethod>, m: SpecMethod) -> bool {
    exists|i: int| 0 <= i < merged.len() && merged[i].name == m.name
}

/// The methods of `rest` after those of `merged`, no name taken before.
pub open spec fn merge_methods(merged: Seq<SpecMethod>, rest: Seq<SpecMethod>, parent: Seq<char>) -> Result<Seq<SpecMethod>, SpecParseError>
    decreases rest.len(),
{
    if rest.len() == 0 {
        Ok(merged)
    } else if name_taken(merged, rest[0]) {
        Err(SpecParseError::Syntax("Duplicate inherited method '"@ + rest[0].name + "' in extends "@ + parent))
    } else {
        merge_methods(merged.push(rest[0]), rest.skip(1), parent)
    }
}

/// The methods of a service that extends `parent`: the parent's first.
pub open spec fn spec_merge_parent_methods(p: SpecParser, parent: Option<Seq<char>>, methods: Seq<SpecMethod>) -> Result<Seq<SpecMethod>, SpecParseError> {
    match parent {
        None => Ok(methods),
        Some(pn) => match assoc_get(p.services, pn) {
            None => Err(SpecParseError::Syntax("Unknown parent service: "@ + pn)),
            Some(ps) => merge_methods(ps.methods, methods, pn),
        },
    }
}

/// The body of a service from its `{`, and what follows it.
pub open spec fn spec_service_body(p: SpecParser, name: Seq<char>, parent: Option<Seq<char>>) -> (Result<SpecService, SpecParseError>, int) {
    match spec_expect(p, TokenKind::LeftBrace) {
        (Err(e), r) => (Err(e), r),
        (Ok(_), r) => match spec_service_methods(p.at(r), Seq::empty()) {
            (Err(e), r2) => (Err(e), r2),
            (Ok(methods), r2) => match spec_expect(p.at(r2), TokenKind::RightBrace) {
                (Err(e), r3) => (Err(e), r3),
                (Ok(_), r3) => match spec_skip_annotations(p.at(r3)) {
                    (Err(e), r4) => (Err(e), r4),
                    (Ok(_), r4) => match spec_merge_parent_methods(p, parent, methods) {
                        Err(e) => (Err(e), r4),
                        Ok(merged) => (Ok(SpecService { name, methods: merged }), r4),
                    },
                },
            },
        },
    }
}

/// A service: `service Name [extends Parent] [annotations] { methods }
/// [annotations]`.
pub open spec fn spec_parse_service(p: SpecParser) -> (Result<SpecService, SpecParseError>, int) {
    match spec_expect(p, TokenKind::Keyword(Seq::empty())) {
        (Err(e), r) => (Err(e), r),
        (Ok(_), r) => match p.at(r).current() {
            None => (Err(SpecParseError::EndOfInput), r),
            Some(TokenKind::Identifier(name)) => match spec_extends(p.at(r + 1)) {
                (Err(e), r2) => (Err(e), r2),
                (Ok(parent), r2) => match spec_skip_annotations(p.at(r2)) {
                    (Err(e), r3) => (Err(e), r3),
                    (Ok(_), r3) => spec_service_body(p.at(r3), name, parent),
                },
            },
            Some(t) => (Err(SpecParseError::Unexpected(t)), r + 1),
        },
    }
}

impl Parser {
    /// The fields of an argument or `throws` list, up to its `)` or the end.
    fn parse_arg_fields(&mut self) -> (r: Result<Vec<ThriftField>, ParseError>)
        ensures
            final(self)@ == old(self)@.at(spec_arg_fields(old(self)@, Seq::empty()).1),
            match r {
                Ok(v) => spec_arg_fields(old(self)@, Seq::empty()).0 == Ok::<Seq<SpecField>, SpecParseError>(field_list_view(v@)),
                Err(e) => spec_arg_fields(old(self)@, Seq::empty()).0 == Err::<Seq<SpecField>, SpecParseError>(e@),
            },
            final(self)@.pos >= old(self)@.pos,
    {
        proof { use_type_invariant(&*self); }
        let ghost start = self@;
        let mut fields: Vec<ThriftField> = Vec::new();
        assert(field_list_view(fields@) =~= Seq::<SpecField>::empty());
        while self.position < self.tokens.len() && !self.at_kind(8)
            invariant
                start == old(self)@,
                self@ == start.at(self@.pos),
                self@.pos >= start.pos,
                spec_arg_fields(start, Seq::empty()) == spec_arg_fields(self@, field_list_view(fields@)),
            decreases self@.left(),
        {
            let ghost fl = field_list_view(fields@);
            let field = self.parse_field()?;
            self.skip_token_if(TokenKind::Comma);
            proof { use_type_invariant(&*self); }
            let ghost fw = field@;
            fields.push(field);
            assert(field_list_view(fields@) =~= fl.push(fw));
        }
        Ok(fields)
    }

    fn parse_field_list(&mut self) -> (r: Result<Vec<ThriftField>, ParseError>)
        ensures
            final(self)@ == old(self)@.at(spec_field_list(old(self)@).1),
            match r {
                Ok(v) => spec_field_list(old(self)@).0 == Ok::<Seq<SpecField>, SpecParseError>(field_list_view(v@)),
                Err(e) => spec_field_list(old(self)@).0 == Err::<Seq<SpecField>, SpecParseError>(e@),
            },
            final(self)@.pos >= old(self)@.pos,
    {
        self.expect_token(TokenKind::LeftParen)?;
        let fields = self.parse_arg_fields()?;
        self.expect_token(TokenKind::RightParen)?;
        Ok(fields)
    }

    fn parse_method(&mut self) -> (r: Result<ThriftMethod, ParseError>)
        ensures
            final(self)@ == old(self)@.at(spec_parse_method(old(self)@).1),
            res_view(r) == spec_parse_method(old(self)@).0,
            final(self)@.pos >= old(self)@.pos,
            r is Ok ==> final(self)@.pos > old(self)@.pos,
    {
        let oneway = match self.peek() {
            None => return Err(ParseError::EndOfInput),
            Some(_) => {
                if self.at_keyword("oneway") {
                    self.position = self.position + 1;
                    true
                } else {
                    false
                }
            },
        };
        let return_type = self.parse_type()?;
        let name = match self.consume_token()? {
            TokenKind::Identifier(name) => name,
            token => return Err(ParseError::UnexpectedToken(token)),
        };
        let arguments = self.parse_field_list()?;
        let exceptions = if self.at_keyword("throws") {
            self.position = self.position + 1;
            self.parse_field_list()?
        } else {
            let none: Vec<ThriftField> = Vec::new();
            assert(field_list_view(none@) =~= Seq::<SpecField>::empty());
            none
        };
        self.skip_annotations()?;
        self.skip_separator();
        let m = ThriftMethod { name, return_type, arguments, exceptions, oneway };
        Ok(m)
    }

    /// The methods of a service body, up to its `}` or the end.
    fn parse_service_methods(&mut self) -> (r: Result<Vec<ThriftMethod>, ParseError>)
        ensures
            final(self)@ == old(self)@.at(spec_service_methods(old(self)@, Seq::empty()).1),
            match r {
                Ok(v) => spec_service_methods(old(self)@, Seq::empty()).0 == Ok::<Seq<SpecMethod>, SpecParseError>(method_list_view(v@)),
                Err(e) => spec_service_methods(old(self)@, Seq::empty()).0 == Err::<Seq<SpecMethod>, SpecParseError>(e@),
            },
            final(self)@.pos >= old(self)@.pos,
    {
        proof { use_type_invariant(&*self); }
        let ghost start = self@;
        let mut methods: Vec<ThriftMethod> = Vec::new();
        assert(method_list_view(methods@) =~= Seq::<SpecMethod>::empty());
        while self.position < self.tokens.len() && !self.at_kind(10)
            invariant
                start == old(self)@,
                self@ == start.at(self@.pos),
                self@.pos >= start.pos,
                spec_service_methods(start, Seq::empty()) == spec_service_methods(self@, method_list_view(methods@)),
            decreases self@.left(),
        {
            let ghost ml = method_list_view(methods@);
            let method = self.parse_method()?;
            proof { use_type_invariant(&*self); }
            let ghost mw = method@;
            methods.push(method);
            assert(method_list_view(methods@) =~= ml.push(mw));
        }
        Ok(methods)
    }

    fn merge_parent_methods(&self, parent_name: &Option<String>, methods: Vec<ThriftMethod>) -> (r: Result<Vec<ThriftMethod>, ParseError>)
        ensures
            match r {
                Ok(v) => spec_merge_parent_methods(self@, opt_str_view(*parent_name), method_list_view(methods@))
                    == Ok::<Seq<SpecMethod>, SpecParseError>(method_list_view(v@)),
                Err(e) => spec_merge_parent_methods(self@, opt_str_view(*parent_name), method_list_view(methods@))
                    == Err::<Seq<SpecMethod>, SpecParseError>(e@),
            },
    {
        let pn = match parent_name {
            None => return Ok(methods),
            Some(n) => n,
        };
        let parent = match self.parsed_services.get(pn.as_str()) {
            None => {
                let mut msg = String::from_str("Unknown parent service: ");
                msg.append(pn.as_str());
                return Err(ParseError::SyntaxError(msg));
            },
            Some(parent) => parent,
        };
        let mut merged = copy_methods(&parent.methods);
        let ghost mv0 = method_list_view(methods@);
        assert(mv0.skip(0) =~= mv0);
        let mut i: usize = 0;
        while i < methods.len()
            invariant
                i <= methods@.len(),
                mv0 == method_list_view(methods@),
                spec_merge_parent_methods(self@, opt_str_view(*parent_name), mv0)
                    == merge_methods(method_list_view(merged@), mv0.skip(i as int), pn@),
            decreases methods@.len() - i,
        {
            let ghost mv = method_list_view(merged@);
            let method = &methods[i];
            assert(mv0.skip(i as int)[0] == method@);
            let mut j: usize = 0;
            while j < merged.len()
                invariant
                    j <= merged@.len(),
                    i < methods@.len(),
                    mv == method_list_view(merged@),
                    mv0 == method_list_view(methods@),
                    mv0.skip(i as int)[0] == method@,
                    spec_merge_parent_methods(self@, opt_str_view(*parent_name), mv0)
                        == merge_methods(mv, mv0.skip(i as int), pn@),
                    forall|k: int| 0 <= k < j ==> mv[k].name != method@.name,
                decreases merged@.len() - j,
            {
                if str_eq(merged[j].name.as_str(), method.name.as_str()) {
                    assert(mv[j as int] == merged@[j as int]@);
                    assert(name_taken(mv, method@));
                    let mut msg = String::from_str("Duplicate inherited method '");
                    msg.append(method.name.as_str());
                    msg.append("' in extends ");
                    msg.append(pn.as_str());
                    return Err(ParseError::SyntaxError(msg));
                }
                j = j + 1;
            }
            assert(!name_taken(mv, method@));
            merged.push(method.deep_copy());
            assert(method_list_view(merged@) =~= mv.push(method@));
            assert(mv0.skip(i as int).skip(1) =~= mv0.skip(i + 1));
            i = i + 1;
        }
        assert(mv0.skip(methods@.len() as int) =~= Seq::<SpecMethod>::empty());
        Ok(merged)
    }

    fn parse_service(&mut self) -> (r: Result<ThriftService, ParseError>)
        ensures
            final(self)@ == old(self)@.at(spec_parse_service(old(self)@).1),
            res_view(r) == spec_parse_service(old(self)@).0,
            final(self)@.pos >= old(self)@.pos,
            r is Ok ==> final(self)@.pos > old(self)@.pos,
    {
        let ghost p0 = self@;
        self.expect_token(TokenKind::Keyword(String::from_str("service")))?;
        let name = match self.consume_token()? {
            TokenKind::Identifier(name) => name,
            token => return Err(ParseError::UnexpectedToken(token)),
        };
        let extends = self.consume_optional_extends()?;
        self.skip_annotations()?;
        self.expect_token(TokenKind::LeftBrace)?;
        let methods = self.parse_service_methods()?;
        self.expect_token(TokenKind::RightBrace)?;
        self.skip_annotations()?;
        assert(self@.services == p0.services);
        let methods = self.merge_parent_methods(&extends, methods)?;
        Ok(ThriftService { name, methods })
    }
}

// ─── Includes, namespaces, typedefs, enums, constants ─────────────────────────

/// `include "file"` with an optional `;`.
pub open spec fn spec_parse_include(p: SpecParser) -> (Result<Seq<char>, SpecParseError>, int) {
    match spec_expect(p, TokenKind::Keyword(Seq::empty())) {
        (Err(e), r) => (Err(e), r),
        (Ok(_), r) => match p.at(r).current() {
            None => (Err(SpecParseError::EndOfInput), r),
            Some(TokenKind::String(s)) => (Ok(s), skip_if(p.at(r + 1), TokenKind::Semicolon)),
            Some(t) => (Err(SpecParseError::Unexpected(t)), r + 1),
        },
    }
}

/// The namespace of a `namespace` declaration, after its scope.
pub open spec fn spec_namespace_name(p: SpecParser) -> (Result<Seq<char>, SpecParseError>, int) {
    match p.current() {
        None => (Err(SpecParseError::EndOfInput), p.pos),
        Some(t) => {
            let first: Option<Seq<char>> = match t {
                TokenKind::Identifier(s) => Some(s),
                TokenKind::Keyword(s) => Some(s),
                TokenKind::String(s) => Some(s),
                _ => None,
            };
            match first {
                None => (Err(SpecParseError::Unexpected(t)), p.pos + 1),
                Some(f) => match spec_path_parts(p.at(p.pos + 1), seq![f]) {
                    (Err(e), r) => (Err(e), r),
                    (Ok(parts), r) => (Ok(join_dot(parts)), skip_if(p.at(r), TokenKind::Semicolon)),
                },
            }
        },
    }
}

/// `namespace scope name` with an optional `;`; the scope may be `*`.
pub open spec fn spec_parse_namespace(p: SpecParser) -> (Result<(Seq<char>, Seq<char>), SpecParseError>, int) {
    match spec_expect(p, TokenKind::Keyword(Seq::empty())) {
        (Err(e), r) => (Err(e), r),
        (Ok(_), r) => match p.at(r).current() {
            None => (Err(SpecParseError::EndOfInput), r),
            Some(t) => {
                let scope: Option<Seq<char>> = match t {
                    TokenKind::Asterisk => Some("*"@),
                    TokenKind::Identifier(s) => Some(s),
                    TokenKind::Keyword(s) => Some(s),
                    _ => None,
                };
                match scope {
                    None => (Err(SpecParseError::Unexpected(t)), r + 1),
                    Some(sc) => match spec_namespace_name(p.at(r + 1)) {
                        (Err(e), r2) => (Err(e), r2),
                        (Ok(ns), r2) => (Ok((sc, ns)), r2),
                    },
                }
            },
        },
    }
}

/// `typedef type Alias` with an optional `;`.
pub open spec fn spec_parse_typedef(p: SpecParser) -> (Result<(Seq<char>, SpecType), SpecParseError>, int) {
    match spec_expect(p, TokenKind::Keyword(Seq::empty())) {
        (Err(e), r) => (Err(e), r),
        (Ok(_), r) => match spec_parse_type(p.at(r)) {
            (Err(e), r2) => (Err(e), r2),
            (Ok(t), r2) => match p.at(r2).current() {
                None => (Err(SpecParseError::EndOfInput), r2),
                Some(TokenKind::Identifier(alias)) => (Ok((alias, t)), skip_if(p.at(r2 + 1), TokenKind::Semicolon)),
                Some(x) => (Err(SpecParseError::Unexpected(x)), r2 + 1),
            },
        },
    }
}

/// One more than `v`, wrapping around at the top of `i32`.
pub open spec fn next_enum_value(v: i32) -> i32 {
    if v == i32::MAX { i32::MIN } else { (v + 1) as i32 }
}

/// The value given to an enum variant: `= number`, or else `next`.
pub open spec fn spec_variant_value(p: SpecParser, next: i32) -> (Result<i32, SpecParseError>, int) {
    if p.current() == Some(TokenKind::<Seq<char>>::Equal) {
        let q = p.pos + 1;
        match p.at(q).current() {
            None => (Err(SpecParseError::EndOfInput), q),
            Some(TokenKind::Number(v)) => (Ok(v as i32), q + 1),
            Some(t) => (Err(SpecParseError::Unexpected(t)), q + 1),
        }
    } else {
        (Ok(next), p.pos)
    }
}

/// The variants of an enum body, after `acc`, up to `}` or the end; `next`
/// is the value of a variant that is given none.
pub open spec fn spec_enum_variants(p: SpecParser, next: i32, acc: Seq<(Seq<char>, i32)>) -> (Result<Seq<(Seq<char>, i32)>, SpecParseError>, int)
    decreases p.left(),
{
    match p.current() {
        None => (Ok(acc), p.pos),
        Some(t) => if kind_of(t) == 10 {
            (Ok(acc), p.pos)
        } else {
            let q = p.pos + 1;
            match t {
                TokenKind::Identifier(vn) => match spec_variant_value(p.at(q), next) {
                    (Err(e), r) => (Err(e), r),
                    (Ok(v), r) => {
                        let r2 = skip_separator(p.at(r));
                        if p.pos < r2 <= p.tokens.len() {
                            spec_enum_variants(p.at(r2), next_enum_value(v), assoc_insert(acc, vn, v))
                        } else {
                            (Err(SpecParseError::EndOfInput), r2)
                        }
                    },
                },
                TokenKind::Comma => spec_enum_variants(p.at(q), next, acc),
                TokenKind::Semicolon => spec_enum_variants(p.at(q), next, acc),
                x => (Err(SpecParseError::Unexpected(x)), q),
            }
        },
    }
}

/// An enum that parses has as its variants what its body gives when read
/// from the token after `{` with the value 0 in hand.
pub proof fn lemma_enum_values_start_at_zero(p: SpecParser)
    ensures
        spec_parse_enum(p).0 is Ok ==> spec_enum_variants(p.at(p.pos + 3), 0, Seq::empty()).0
            == Ok::<Seq<(Seq<char>, i32)>, SpecParseError>(spec_parse_enum(p).0->Ok_0.variants),
{
}

/// Enum values: a variant written with `= number` takes that number, and one
/// written without takes the value in hand; either way the value in hand
/// for the next variant is one more than the value just given (below the
/// top of `i32`).
pub proof fn lemma_enum_variant_values(p: SpecParser, next: i32, acc: Seq<(Seq<char>, i32)>, v: i32)
    requires
        p.current() matches Some(TokenKind::Identifier(_)),
    ensures
        v < i32::MAX ==> next_enum_value(v) == v + 1,
        p.at(p.pos + 1).current() != Some(TokenKind::<Seq<char>>::Equal)
            ==> spec_variant_value(p.at(p.pos + 1), next) == (Ok::<i32, SpecParseError>(next), p.pos + 1),
        p.at(p.pos + 1).current() == Some(TokenKind::<Seq<char>>::Equal)
            && (p.at(p.pos + 2).current() is Some && p.at(p.pos + 2).current()->Some_0 is Number)
            ==> spec_variant_value(p.at(p.pos + 1), next)
                == (Ok::<i32, SpecParseError>(p.at(p.pos + 2).current()->Some_0->Number_0 as i32), p.pos + 3),
        ({
            let (rv, r) = spec_variant_value(p.at(p.pos + 1), next);
            let r2 = skip_separator(p.at(r));
            rv is Ok && p.pos < r2 <= p.tokens.len() ==> spec_enum_variants(p, next, acc)
                == spec_enum_variants(
                    p.at(r2),
                    next_enum_value(rv->Ok_0),
                    assoc_insert(acc, p.current()->Some_0->Identifier_0, rv->Ok_0),
                )
        }),
{
}

/// `enum Name { variants } [annotations] [;]`.
pub open spec fn spec_parse_enum(p: SpecParser) -> (Result<SpecEnum, SpecParseError>, int) {
    match spec_expect(p, TokenKind::Keyword(Seq::empty())) {
        (Err(e), r) => (Err(e), r),
        (Ok(_), r) => match p.at(r).current() {
            None => (Err(SpecParseError::EndOfInput), r),
            Some(TokenKind::Identifier(name)) => match spec_expect(p.at(r + 1), TokenKind::LeftBrace) {
                (Err(e), r2) => (Err(e), r2),
                (Ok(_), r2) => match spec_enum_variants(p.at(r2), 0, Seq::empty()) {
                    (Err(e), r3) => (Err(e), r3),
                    (Ok(vs), r3) => match spec_expect(p.at(r3), TokenKind::RightBrace) {
                        (Err(e), r4) => (Err(e), r4),
                        (Ok(_), r4) => match spec_skip_annotations(p.at(r4)) {
                            (Err(e), r5) => (Err(e), r5),
                            (Ok(_), r5) => (
                                Ok(SpecEnum { name, variants: vs }),
                                skip_if(p.at(r5), TokenKind::Semicolon),
                            ),
                        },
                    },
                },
            },
            Some(t) => (Err(SpecParseError::Unexpected(t)), r + 1),
        },
    }
}

/// `const type NAME [= value] [;]`: checked and dropped; a value that does
/// not parse is skipped.
pub open spec fn spec_parse_const(p: SpecParser) -> (Result<(), SpecParseError>, int) {
    match spec_expect(p, TokenKind::Keyword(Seq::empty())) {
        (Err(e), r) => (Err(e), r),
        (Ok(_), r) => match spec_parse_type(p.at(r)) {
            (Err(e), r2) => (Err(e), r2),
            (Ok(t), r2) => match p.at(r2).current() {
                None => (Err(SpecParseError::EndOfInput), r2),
                Some(TokenKind::Identifier(_)) => {
                    let q = r2 + 1;
                    let r3 = if p.at(q).current() == Some(TokenKind::<Seq<char>>::Equal) {
                        spec_field_default(p.at(q + 1), t).1
                    } else {
                        q
                    };
                    (Ok(()), skip_if(p.at(r3), TokenKind::Semicolon))
                },
                Some(x) => (Err(SpecParseError::Unexpected(x)), r2 + 1),
            },
        },
    }
}

impl Parser {
    fn parse_include(&mut self) -> (r: Result<String, ParseError>)
        ensures
            final(self)@ == old(self)@.at(spec_parse_include(old(self)@).1),
            res_view(r) == spec_parse_include(old(self)@).0,
            final(self)@.pos >= old(self)@.pos,
            r is Ok ==> final(self)@.pos > old(self)@.pos,
    {
        self.expect_token(TokenKind::Keyword(String::new()))?;
        let file = match self.consume_token()? {
            TokenKind::String(file) => file,
            token => return Err(ParseError::UnexpectedToken(token)),
        };
        self.skip_token_if(TokenKind::Semicolon);
        Ok(file)
    }

    fn parse_namespace(&mut self) -> (r: Result<(String, String), ParseError>)
        ensures
            final(self)@ == old(self)@.at(spec_parse_namespace(old(self)@).1),
            match r {
                Ok((a, b)) => spec_parse_namespace(old(self)@).0 == Ok::<(Seq<char>, Seq<char>), SpecParseError>((a@, b@)),
                Err(e) => spec_parse_namespace(old(self)@).0 == Err::<(Seq<char>, Seq<char>), SpecParseError>(e@),
            },
            final(self)@.pos >= old(self)@.pos,
            r is Ok ==> final(self)@.pos > old(self)@.pos,
    {
        self.expect_token(TokenKind::Keyword(String::from_str("namespace")))?;
        let scope = match self.consume_token()? {
            TokenKind::Asterisk => String::from_str("*"),
            TokenKind::Identifier(scope) => scope,
            TokenKind::Keyword(scope) => scope,
            token => return Err(ParseError::UnexpectedToken(token)),
        };
        let namespace = match self.consume_token()? {
            TokenKind::Identifier(namespace) => self.finish_qualified_identifier(namespace)?,
            TokenKind::Keyword(namespace) => self.finish_qualified_identifier(namespace)?,
            TokenKind::String(namespace) => self.finish_qualified_identifier(namespace)?,
            token => return Err(ParseError::UnexpectedToken(token)),
        };
        self.skip_token_if(TokenKind::Semicolon);
        Ok((scope, namespace))
    }

    fn parse_typedef(&mut self) -> (r: Result<(String, ThriftType), ParseError>)
        ensures
            final(self)@ == old(self)@.at(spec_parse_typedef(old(self)@).1),
            match r {
                Ok((a, t)) => spec_parse_typedef(old(self)@).0 == Ok::<(Seq<char>, SpecType), SpecParseError>((a@, t@)),
                Err(e) => spec_parse_typedef(old(self)@).0 == Err::<(Seq<char>, SpecType), SpecParseError>(e@),
            },
            final(self)@.pos >= old(self)@.pos,
            r is Ok ==> final(self)@.pos > old(self)@.pos,
    {
        self.expect_token(TokenKind::Keyword(String::from_str("typedef")))?;
        let aliased = self.parse_type()?;
        let alias = match self.consume_token()? {
            TokenKind::Identifier(alias) => alias,
            token => return Err(ParseError::UnexpectedToken(token)),
        };
        self.skip_token_if(TokenKind::Semicolon);
        Ok((alias, aliased))
    }

    /// The variants of an enum body, up to its `}` or the end.
    fn parse_enum_variants(&mut self) -> (r: Result<NameMap<i32>, ParseError>)
        ensures
            final(self)@ == old(self)@.at(spec_enum_variants(old(self)@, 0, Seq::empty()).1),
            res_view(r) == spec_enum_variants(old(self)@, 0, Seq::empty()).0,
            final(self)@.pos >= old(self)@.pos,
    {
        proof { use_type_invariant(&*self); }
        let ghost start = self@;
        let mut variants: NameMap<i32> = NameMap::new();
        let mut next_value: i32 = 0;
        while self.position < self.tokens.len() && !self.at_kind(10)
            invariant
                start == old(self)@,
                self@ == start.at(self@.pos),
                self@.pos >= start.pos,
                spec_enum_variants(start, 0, Seq::empty()) == spec_enum_variants(self@, next_value, variants@),
            decreases self@.left(),
        {
            let vname = match self.consume_token()? {
                TokenKind::Identifier(vname) => vname,
                TokenKind::Comma => continue,
                TokenKind::Semicolon => continue,
                token => return Err(ParseError::UnexpectedToken(token)),
            };
            let value = if self.at_kind(16) {
                self.position = self.position + 1;
                match self.consume_token()? {
                    TokenKind::Number(value) => value as i32,
                    token => return Err(ParseError::UnexpectedToken(token)),
                }
            } else {
                next_value
            };
            variants.insert(vname, value);
            next_value = if value == i32::MAX { i32::MIN } else { value + 1 };
            self.skip_separator();
            proof { use_type_invariant(&*self); }
        }
        Ok(variants)
    }

    fn parse_enum(&mut self) -> (r: Result<ThriftEnum, ParseError>)
        ensures
            final(self)@ == old(self)@.at(spec_parse_enum(old(self)@).1),
            res_view(r) == spec_parse_enum(old(self)@).0,
            final(self)@.pos >= old(self)@.pos,
            r is Ok ==> final(self)@.pos > old(self)@.pos,
    {
        self.expect_token(TokenKind::Keyword(String::from_str("enum")))?;
        let name = match self.consume_token()? {
            TokenKind::Identifier(name) => name,
            token => return Err(ParseError::UnexpectedToken(token)),
        };
        self.expect_token(TokenKind::LeftBrace)?;
        let variants = self.parse_enum_variants()?;
        self.expect_token(TokenKind::RightBrace)?;
        self.skip_annotations()?;
        self.skip_token_if(TokenKind::Semicolon);
        Ok(ThriftEnum { name, variants })
    }

    fn parse_const(&mut self) -> (r: Result<(), ParseError>)
        ensures
            final(self)@ == old(self)@.at(spec_parse_const(old(self)@).1),
            res_view(r) == spec_parse_const(old(self)@).0,
            final(self)@.pos >= old(self)@.pos,
            r is Ok ==> final(self)@.pos > old(self)@.pos,
    {
        self.expect_token(TokenKind::Keyword(String::from_str("const")))?;
        let const_type = self.parse_type()?;
        match self.consume_token()? {
            TokenKind::Identifier(_) => {},
            token => return Err(ParseError::UnexpectedToken(token)),
        }
        if self.at_kind(16) {
            self.position = self.position + 1;
            if self.parse_default_value(&const_type).is_err() {
                self.skip_default_value()?;
            }
        }
        self.skip_token_if(TokenKind::Semicolon);
        Ok(())
    }
}

// ─── Documents ────────────────────────────────────────────────────────────────

/// The document with nothing in it.
pub open spec fn empty_doc() -> SpecDocument {
    SpecDocument {
        structs: Seq::empty(),
        services: Seq::empty(),
        enums: Seq::empty(),
        includes: Seq::empty(),
        namespaces: Seq::empty(),
    }
}

/// The keyword that names another IDL file.
pub open spec fn file_keyword() -> Seq<char> {
    "inc"@ + "lude"@
}

pub open spec fn is_kw(t: SpecToken, w: Seq<char>) -> bool {
    t == TokenKind::<Seq<char>>::Keyword(w)
}

impl SpecParser {
    /// The parser that knows `st` as a possible parent.
    pub open spec fn with_struct(self, st: SpecStruct) -> SpecParser {
        SpecParser { structs: assoc_insert(self.structs, st.name, st), ..self }
    }

    /// The parser that knows `sv` as a possible parent.
    pub open spec fn with_service(self, sv: SpecService) -> SpecParser {
        SpecParser { services: assoc_insert(self.services, sv.name, sv), ..self }
    }

    /// The parser that knows `name` as an alias of `t`.
    pub open spec fn with_alias(self, name: Seq<char>, t: SpecType) -> SpecParser {
        SpecParser { aliases: assoc_insert(self.aliases, name, t), ..self }
    }

    /// The parser that knows the enum `e`: its name stands for `i32`, and
    /// its variants have values.
    pub open spec fn with_enum(self, e: SpecEnum) -> SpecParser {
        SpecParser {
            aliases: assoc_insert(self.aliases, e.name, SpecType::I32),
            enums: assoc_insert(self.enums, e.name, e.variants),
            ..self
        }
    }
}

/// What a step of a document gives: the outcome, and the parser and the
/// document after it.
pub type SpecStep = (Result<(), SpecParseError>, SpecParser, SpecDocument);

/// A struct, union or exception, added to the document and to the parents known.
pub open spec fn spec_def_struct(p: SpecParser, doc: SpecDocument) -> SpecStep {
    match spec_parse_struct(p) {
        (Err(e), r) => (Err(e), p.at(r), doc),
        (Ok(st), r) => (
            Ok(()),
            p.with_struct(st).at(r),
            SpecDocument { structs: assoc_insert(doc.structs, st.name, st), ..doc },
        ),
    }
}

/// A service, added to the document and to the parents known.
pub open spec fn spec_def_service(p: SpecParser, doc: SpecDocument) -> SpecStep {
    match spec_parse_service(p) {
        (Err(e), r) => (Err(e), p.at(r), doc),
        (Ok(sv), r) => (
            Ok(()),
            p.with_service(sv).at(r),
            SpecDocument { services: assoc_insert(doc.services, sv.name, sv), ..doc },
        ),
    }
}

/// A file named by the document, added to its list.
pub open spec fn spec_def_file(p: SpecParser, doc: SpecDocument) -> SpecStep {
    match spec_parse_include(p) {
        (Err(e), r) => (Err(e), p.at(r), doc),
        (Ok(f), r) => (Ok(()), p.at(r), SpecDocument { includes: doc.includes.push(f), ..doc }),
    }
}

/// A namespace, added to the document under its scope.
pub open spec fn spec_def_namespace(p: SpecParser, doc: SpecDocument) -> SpecStep {
    match spec_parse_namespace(p) {
        (Err(e), r) => (Err(e), p.at(r), doc),
        (Ok((sc, ns)), r) => (
            Ok(()),
            p.at(r),
            SpecDocument { namespaces: assoc_insert(doc.namespaces, sc, ns), ..doc },
        ),
    }
}

/// A typedef, added to the aliases known.
pub open spec fn spec_def_typedef(p: SpecParser, doc: SpecDocument) -> SpecStep {
    match spec_parse_typedef(p) {
        (Err(e), r) => (Err(e), p.at(r), doc),
        (Ok((a, ty)), r) => (Ok(()), p.with_alias(a, ty).at(r), doc),
    }
}

/// An enum, added to the document and to what the parser knows.
pub open spec fn spec_def_enum(p: SpecParser, doc: SpecDocument) -> SpecStep {
    match spec_parse_enum(p) {
        (Err(e), r) => (Err(e), p.at(r), doc),
        (Ok(en), r) => (
            Ok(()),
            p.with_enum(en).at(r),
            SpecDocument { enums: assoc_insert(doc.enums, en.name, en), ..doc },
        ),
    }
}

/// A constant, checked and dropped.
pub open spec fn spec_def_const(p: SpecParser, doc: SpecDocument) -> SpecStep {
    match spec_parse_const(p) {
        (Err(e), r) => (Err(e), p.at(r), doc),
        (Ok(_), r) => (Ok(()), p.at(r), doc),
    }
}

/// The definition at the position, added to `doc`; a token that starts
/// none is skipped.
pub open spec fn spec_definition(p: SpecParser, doc: SpecDocument) -> SpecStep {
    let t = p.tokens[p.pos];
    if is_kw(t, "struct"@) || is_kw(t, "exception"@) || is_kw(t, "union"@) {
        spec_def_struct(p, doc)
    } else if is_kw(t, "service"@) {
        spec_def_service(p, doc)
    } else if is_kw(t, file_keyword()) {
        spec_def_file(p, doc)
    } else if is_kw(t, "namespace"@) {
        spec_def_namespace(p, doc)
    } else if is_kw(t, "typedef"@) {
        spec_def_typedef(p, doc)
    } else if is_kw(t, "enum"@) {
        spec_def_enum(p, doc)
    } else if is_kw(t, "const"@) {
        spec_def_const(p, doc)
    } else {
        (Ok(()), p.at(p.pos + 1), doc)
    }
}

/// Parsing the rest of a document from `p`, into `doc`, definition after
/// definition; the result comes with the parser as it is left.
pub open spec fn spec_document_from(p: SpecParser, doc: SpecDocument) -> (Result<SpecDocument, SpecParseError>, SpecParser)
    decreases p.left(),
{
    match p.current() {
        None => (Ok(doc), p),
        Some(_) => match spec_definition(p, doc) {
            (Err(e), p2, _) => (Err(e), p2),
            (Ok(_), p2, d2) => if p2.tokens == p.tokens && p.pos < p2.pos <= p2.tokens.len() {
                spec_document_from(p2, d2)
            } else {
                (Err(SpecParseError::EndOfInput), p2)
            },
        },
    }
}

impl Parser {
    fn remember_struct(&mut self, st: ThriftStruct)
        ensures
            final(self)@ == old(self)@.with_struct(st@),
    {
        proof { use_type_invariant(&*self); }
        let mut known = NameMap::new();
        std::mem::swap(&mut known, &mut self.parsed_structs);
        known.insert(st.name.clone(), st);
        self.parsed_structs = known;
    }

    fn remember_service(&mut self, sv: ThriftService)
        ensures
            final(self)@ == old(self)@.with_service(sv@),
    {
        proof { use_type_invariant(&*self); }
        let mut known = NameMap::new();
        std::mem::swap(&mut known, &mut self.parsed_services);
        known.insert(sv.name.clone(), sv);
        self.parsed_services = known;
    }

    fn remember_alias(&mut self, name: String, t: ThriftType)
        ensures
            final(self)@ == old(self)@.with_alias(name@, t@),
    {
        proof { use_type_invariant(&*self); }
        let mut known = NameMap::new();
        std::mem::swap(&mut known, &mut self.type_aliases);
        known.insert(name, t);
        self.type_aliases = known;
    }

    fn remember_enum(&mut self, e: &ThriftEnum)
        ensures
            final(self)@ == old(self)@.with_enum(e@),
    {
        proof { use_type_invariant(&*self); }
        let mut aliases = NameMap::new();
        std::mem::swap(&mut aliases, &mut self.type_aliases);
        aliases.insert(e.name.clone(), ThriftType::I32);
        self.type_aliases = aliases;
        let mut values = NameMap::new();
        std::mem::swap(&mut values, &mut self.enum_values);
        values.insert(e.name.clone(), e.variants.copied());
        self.enum_values = values;
    }

    /// Whether the current token is the keyword that names another file.
    fn at_file_keyword(&self) -> (r: bool)
        ensures
            r == (self@.current() == Some(TokenKind::<Seq<char>>::Keyword(file_keyword()))),
    {
        let mut w = String::from_str("inc");
        w.append("lude");
        self.at_keyword(w.as_str())
    }

    fn define_struct(&mut self, document: &mut ThriftDocument, keyword: &str) -> (r: Result<(), ParseError>)
        ensures
            final(self)@ == spec_def_struct(old(self)@, old(document)@).1,
            final(document)@ == spec_def_struct(old(self)@, old(document)@).2,
            res_view(r) == spec_def_struct(old(self)@, old(document)@).0,
            r is Ok ==> old(self)@.pos < final(self)@.pos <= final(self)@.tokens.len(),
    {
        let struct_def = self.parse_struct(keyword)?;
        proof { use_type_invariant(&*self); }
        self.remember_struct(struct_def.deep_copy());
        document.structs.insert(struct_def.name.clone(), struct_def);
        Ok(())
    }

    fn define_service(&mut self, document: &mut ThriftDocument) -> (r: Result<(), ParseError>)
        ensures
            final(self)@ == spec_def_service(old(self)@, old(document)@).1,
            final(document)@ == spec_def_service(old(self)@, old(document)@).2,
            res_view(r) == spec_def_service(old(self)@, old(document)@).0,
            r is Ok ==> old(self)@.pos < final(self)@.pos <= final(self)@.tokens.len(),
    {
        let service_def = self.parse_service()?;
        proof { use_type_invariant(&*self); }
        self.remember_service(service_def.deep_copy());
        document.services.insert(service_def.name.clone(), service_def);
        Ok(())
    }

    fn define_file(&mut self, document: &mut ThriftDocument) -> (r: Result<(), ParseError>)
        ensures
            final(self)@ == spec_def_file(old(self)@, old(document)@).1,
            final(document)@ == spec_def_file(old(self)@, old(document)@).2,
            res_view(r) == spec_def_file(old(self)@, old(document)@).0,
            r is Ok ==> old(self)@.pos < final(self)@.pos <= final(self)@.tokens.len(),
    {
        let file = self.parse_include()?;
        proof { use_type_invariant(&*self); }
        let ghost fv = file@;
        let ghost before = document.includes@;
        document.includes.push(file);
        assert(string_list_view(document.includes@) =~= string_list_view(before).push(fv));
        Ok(())
    }

    fn define_namespace(&mut self, document: &mut ThriftDocument) -> (r: Result<(), ParseError>)
        ensures
            final(self)@ == spec_def_namespace(old(self)@, old(document)@).1,
            final(document)@ == spec_def_namespace(old(self)@, old(document)@).2,
            res_view(r) == spec_def_namespace(old(self)@, old(document)@).0,
            r is Ok ==> old(self)@.pos < final(self)@.pos <= final(self)@.tokens.len(),
    {
        let (scope, namespace) = self.parse_namespace()?;
        proof { use_type_invariant(&*self); }
        document.namespaces.insert(scope, namespace);
        Ok(())
    }

    fn define_typedef(&mut self, document: &mut ThriftDocument) -> (r: Result<(), ParseError>)
        ensures
            final(self)@ == spec_def_typedef(old(self)@, old(document)@).1,
            final(document)@ == spec_def_typedef(old(self)@, old(document)@).2,
            res_view(r) == spec_def_typedef(old(self)@, old(document)@).0,
            r is Ok ==> old(self)@.pos < final(self)@.pos <= final(self)@.tokens.len(),
    {
        let (alias, aliased) = self.parse_typedef()?;
        proof { use_type_invariant(&*self); }
        self.remember_alias(alias, aliased);
        Ok(())
    }

    fn define_enum(&mut self, document: &mut ThriftDocument) -> (r: Result<(), ParseError>)
        ensures
            final(self)@ == spec_def_enum(old(self)@, old(document)@).1,
            final(document)@ == spec_def_enum(old(self)@, old(document)@).2,
            res_view(r) == spec_def_enum(old(self)@, old(document)@).0,
            r is Ok ==> old(self)@.pos < final(self)@.pos <= final(self)@.tokens.len(),
    {
        let enum_def = self.parse_enum()?;
        proof { use_type_invariant(&*self); }
        self.remember_enum(&enum_def);
        document.enums.insert(enum_def.name.clone(), enum_def);
        Ok(())
    }

    fn define_const(&mut self, document: &mut ThriftDocument) -> (r: Result<(), ParseError>)
        ensures
            final(self)@ == spec_def_const(old(self)@, old(document)@).1,
            final(document)@ == spec_def_const(old(self)@, old(document)@).2,
            res_view(r) == spec_def_const(old(self)@, old(document)@).0,
            r is Ok ==> old(self)@.pos < final(self)@.pos <= final(self)@.tokens.len(),
    {
        self.parse_const()?;
        proof { use_type_invariant(&*self); }
        Ok(())
    }

    /// The definition at the position, added to the document.
    fn document_step(&mut self, document: &mut ThriftDocument) -> (r: Result<(), ParseError>)
        requires
            old(self)@.current() is Some,
        ensures
            final(self)@ == spec_definition(old(self)@, old(document)@).1,
            final(document)@ == spec_definition(old(self)@, old(document)@).2,
            res_view(r) == spec_definition(old(self)@, old(document)@).0,
            r is Ok ==> old(self)@.pos < final(self)@.pos <= final(self)@.tokens.len(),
    {
        if self.at_keyword("struct") {
            self.define_struct(document, "struct")
        } else if self.at_keyword("exception") {
            self.define_struct(document, "exception")
        } else if self.at_keyword("union") {
            self.define_struct(document, "union")
        } else if self.at_keyword("service") {
            self.define_service(document)
        } else if self.at_file_keyword() {
            self.define_file(document)
        } else if self.at_keyword("namespace") {
            self.define_namespace(document)
        } else if self.at_keyword("typedef") {
            self.define_typedef(document)
        } else if self.at_keyword("enum") {
            self.define_enum(document)
        } else if self.at_keyword("const") {
            self.define_const(document)
        } else {
            proof { use_type_invariant(&*self); }
            self.position = self.position + 1;
            Ok(())
        }
    }

    /// Parses the whole document from the position: its structs, unions and
    /// exceptions, services, enums, includes and namespaces, after the
    /// typedefs and enums declared before each use.
    pub fn parse_document(&mut self) -> (r: Result<ThriftDocument, ParseError>)
        ensures
            res_view(r) == spec_document_from(old(self)@, empty_doc()).0,
            final(self)@ == spec_document_from(old(self)@, empty_doc()).1,
    {
        let ghost p0 = self@;
        let mut document = ThriftDocument {
            structs: NameMap::new(),
            services: NameMap::new(),
            enums: NameMap::new(),
            includes: Vec::new(),
            namespaces: NameMap::new(),
        };
        assert(string_list_view(document.includes@) =~= Seq::<Seq<char>>::empty());
        assert(document@ == empty_doc());
        while self.position < self.tokens.len()
            invariant
                p0 == old(self)@,
                self@.tokens == p0.tokens,
                spec_document_from(p0, empty_doc()) == spec_document_from(self@, document@),
            decreases self@.left(),
        {
            self.document_step(&mut document)?;
        }
        Ok(document)
    }
}

// ─── Building a parser ────────────────────────────────────────────────────────

/// Unicode's `White_Space` property, the one `char::is_whitespace` of std
/// tests: U+0009 to U+000D, U+0020, U+0085, U+00A0, U+1680, U+2000 to
/// U+200A, U+2028, U+2029, U+202F, U+205F and U+3000.
pub open spec fn unicode_white_space(c: char) -> bool {
    let u = c as u32;
    ||| 0x09 <= u <= 0x0d
    ||| u == 0x20
    ||| u == 0x85
    ||| u == 0xa0
    ||| u == 0x1680
    ||| 0x2000 <= u <= 0x200a
    ||| u == 0x2028
    ||| u == 0x2029
    ||| u == 0x202f
    ||| u == 0x205f
    ||| u == 0x3000
}

/// Whether `c` has Unicode's `White_Space` property, as `char::is_whitespace`
/// of std tests it.
fn char_is_whitespace(c: char) -> (r: bool)
    ensures
        r == unicode_white_space(c),
{
    let u = c as u32;
    (0x09 <= u && u <= 0x0d) || u == 0x20 || u == 0x85 || u == 0xa0 || u == 0x1680
        || (0x2000 <= u && u <= 0x200a) || u == 0x2028 || u == 0x2029 || u == 0x202f
        || u == 0x205f || u == 0x3000
}

/// What `{:?}` of std writes for a string: the text in double quotes, with
/// quotes, backslashes and control characters escaped.
pub uninterp spec fn str_debug(s: Seq<char>) -> Seq<char>;

/// The `Debug` text of a string slice (std's `<str as Debug>::fmt`).
#[verifier::external_body]
fn debug_quoted(s: &str) -> (r: String)
    ensures
        r@ == str_debug(s@),
{
    format!("{:?}", s)
}

/// The first index from `i` on that does not hold white space, or the length.
pub open spec fn first_non_white(s: Seq<char>, i: int) -> int
    decreases s.len() - i,
{
    if i < 0 || i >= s.len() {
        i
    } else if unicode_white_space(s[i]) {
        first_non_white(s, i + 1)
    } else {
        i
    }
}

/// The index after the last character before `j` that is not white space, or 0.
pub open spec fn end_non_white(s: Seq<char>, j: int) -> int
    decreases j,
{
    if j <= 0 {
        0
    } else if unicode_white_space(s[j - 1]) {
        end_non_white(s, j - 1)
    } else {
        j
    }
}

/// How many bytes UTF-8 takes for `c`.
pub open spec fn utf8_len(c: char) -> int {
    if (c as u32) < 0x80 {
        1
    } else if (c as u32) < 0x800 {
        2
    } else if (c as u32) < 0x10000 {
        3
    } else {
        4
    }
}

/// The end of the longest run of characters from `i`, before `b`, that fits
/// in 40 bytes of UTF-8 together with `used` bytes already taken.
pub open spec fn prefix_end(s: Seq<char>, i: int, b: int, used: int) -> int
    decreases b - i,
{
    if i >= b || i < 0 || i >= s.len() {
        i
    } else if used + utf8_len(s[i]) > 40 {
        i
    } else {
        prefix_end(s, i + 1, b, used + utf8_len(s[i]))
    }
}

/// The text left after the tokens of `input`.
pub open spec fn untokenized(input: Seq<char>) -> Seq<char> {
    input.skip(spec_tokenize(input, 0).1)
}

/// The parser of `tokens`, at their start, knowing nothing yet.
pub open spec fn fresh_parser(tokens: Seq<SpecToken>) -> SpecParser {
    SpecParser {
        tokens,
        pos: 0,
        aliases: Seq::empty(),
        enums: Seq::empty(),
        structs: Seq::empty(),
        services: Seq::empty(),
    }
}

impl Parser {
    /// A parser over the tokens of `input`. The text that no token can be
    /// read from must be white space: else the error quotes (in `Debug`
    /// form) its start, without white space, up to 40 bytes.
    pub fn new(input: &str) -> (r: Result<Parser, ParseError>)
        ensures
            ({
                let rest = untokenized(input@);
                let a = first_non_white(rest, 0);
                let b = end_non_white(rest, rest.len() as int);
                &&& a >= b ==> (r matches Ok(p) && p@ == fresh_parser(spec_tokenize(input@, 0).0))
                &&& a < b ==> (r matches Err(e) && e@ == SpecParseError::Syntax(
                    "Unexpected input: "@ + str_debug(rest.subrange(a, prefix_end(rest, a, b, 0))),
                ))
            }),
    {
        let (remaining, tokens) = match tokenize(input) {
            Ok(x) => x,
            Err(_) => return Err(ParseError::SyntaxError(String::from_str("Tokenization failed"))),
        };
        let cs = chars_of(remaining.as_str());
        let mut a: usize = 0;
        while a < cs.len() && char_is_whitespace(cs[a])
            invariant
                a <= cs@.len(),
                first_non_white(cs@, 0) == first_non_white(cs@, a as int),
            decreases cs@.len() - a,
        {
            a = a + 1;
        }
        let mut b: usize = cs.len();
        while b > 0 && char_is_whitespace(cs[b - 1])
            invariant
                b <= cs@.len(),
                end_non_white(cs@, cs@.len() as int) == end_non_white(cs@, b as int),
            decreases b,
        {
            b = b - 1;
        }
        if a >= b {
            let p = Parser {
                tokens,
                position: 0,
                type_aliases: NameMap::new(),
                enum_values: NameMap::new(),
                parsed_structs: NameMap::new(),
                parsed_services: NameMap::new(),
            };
            return Ok(p);
        }
        let mut k: usize = a;
        let mut used: u32 = 0;
        while k < b
            invariant
                a <= k <= b <= cs@.len(),
                used <= 40,
                prefix_end(cs@, a as int, b as int, 0) == prefix_end(cs@, k as int, b as int, used as int),
            ensures
                a <= k <= b <= cs@.len(),
                prefix_end(cs@, a as int, b as int, 0) == k,
            decreases b - k,
        {
            let c = cs[k];
            let n: u32 = if (c as u32) < 0x80 {
                1
            } else if (c as u32) < 0x800 {
                2
            } else if (c as u32) < 0x10000 {
                3
            } else {
                4
            };
            if used + n > 40 {
                break;
            }
            used = used + n;
            k = k + 1;
        }
        let shown = string_of(&cs, a, k);
        let mut msg = String::from_str("Unexpected input: ");
        msg.append(debug_quoted(shown.as_str()).as_str());
        Err(ParseError::SyntaxError(msg))
    }
}

pub open spec fn opt_str_view(o: Option<String>) -> Option<Seq<char>> {
    match o {
        Some(s) => Some(s@),
        None => None,
    }
}

/// A dotted path only grows the parts it continues.
proof fn lemma_path_parts_grow(p: SpecParser, parts: Seq<Seq<char>>)
    ensures
        spec_path_parts(p, parts).0 matches Ok(ps) ==> ps.len() >= parts.len(),
    decreases p.left(),
{
    if p.current() == Some(TokenKind::<Seq<char>>::Dot) {
        let q = p.pos + 1;
        if q < p.tokens.len() {
            match p.tokens[q] {
                TokenKind::Identifier(s) => lemma_path_parts_grow(p.at(q + 1), parts.push(s)),
                TokenKind::Keyword(s) => lemma_path_parts_grow(p.at(q + 1), parts.push(s)),
                _ => {},
            }
        }
    }
}

} // verus!
