//! The tokenizer: splits text into keywords, literals, names and punctuation.

use vstd::prelude::*;
use crate::text::{chars_of, hex_encode, hex_text, is_hex_char, is_hex_digit};
use crate::types::{is_ident_char, is_valid_identifier_char, ParseError};

verus! {

/// What a token stands for.
pub enum SpecToken {
    U8Type,
    U64Type,
    U128Type,
    BoolType,
    AddressType,
    VectorType,
    SignerType,
    Whitespace,
    Name(Seq<char>),
    Address(Seq<char>),
    U8(Seq<char>),
    U64(Seq<char>),
    U128(Seq<char>),
    Bytes(Seq<char>),
    True,
    False,
    ColonColon,
    Lt,
    Gt,
    Comma,
    EOF,
}

/// A lexical token. Literals keep their text: digits for numbers, `0x` and digits for
/// addresses, hexadecimal digits for byte strings.
pub enum Token {
    U8Type,
    U64Type,
    U128Type,
    BoolType,
    AddressType,
    VectorType,
    SignerType,
    Whitespace,
    Name(Vec<char>),
    Address(Vec<char>),
    U8(Vec<char>),
    U64(Vec<char>),
    U128(Vec<char>),
    Bytes(Vec<char>),
    True,
    False,
    ColonColon,
    Lt,
    Gt,
    Comma,
    EOF,
}

impl View for Token {
    type V = SpecToken;

    open spec fn view(&self) -> SpecToken {
        match self {
            Token::U8Type => SpecToken::U8Type,
            Token::U64Type => SpecToken::U64Type,
            Token::U128Type => SpecToken::U128Type,
            Token::BoolType => SpecToken::BoolType,
            Token::AddressType => SpecToken::AddressType,
            Token::VectorType => SpecToken::VectorType,
            Token::SignerType => SpecToken::SignerType,
            Token::Whitespace => SpecToken::Whitespace,
            Token::Name(v) => SpecToken::Name(v@),
            Token::Address(v) => SpecToken::Address(v@),
            Token::U8(v) => SpecToken::U8(v@),
            Token::U64(v) => SpecToken::U64(v@),
            Token::U128(v) => SpecToken::U128(v@),
            Token::Bytes(v) => SpecToken::Bytes(v@),
            Token::True => SpecToken::True,
            Token::False => SpecToken::False,
            Token::ColonColon => SpecToken::ColonColon,
            Token::Lt => SpecToken::Lt,
            Token::Gt => SpecToken::Gt,
            Token::Comma => SpecToken::Comma,
            Token::EOF => SpecToken::EOF,
        }
    }
}

/// A token that carries no text.
pub open spec fn is_bare(t: SpecToken) -> bool {
    !(t is Name || t is Address || t is U8 || t is U64 || t is U128 || t is Bytes)
}

pub open spec fn views_of(ts: Seq<Token>) -> Seq<SpecToken> {
    ts.map_values(|t: Token| t@)
}

impl Token {
    pub fn is_whitespace(&self) -> (r: bool)
        ensures
            r == (self@ is Whitespace),
    {
        match self {
            Token::Whitespace => true,
            _ => false,
        }
    }

    /// Whether this token equals `other`, which carries no text.
    pub fn same_as(&self, other: &Token) -> (r: bool)
        requires
            is_bare(other@),
        ensures
            r == (self@ == other@),
    {
        match (self, other) {
            (Token::U8Type, Token::U8Type) => true,
            (Token::U64Type, Token::U64Type) => true,
            (Token::U128Type, Token::U128Type) => true,
            (Token::BoolType, Token::BoolType) => true,
            (Token::AddressType, Token::AddressType) => true,
            (Token::VectorType, Token::VectorType) => true,
            (Token::SignerType, Token::SignerType) => true,
            (Token::Whitespace, Token::Whitespace) => true,
            (Token::True, Token::True) => true,
            (Token::False, Token::False) => true,
            (Token::ColonColon, Token::ColonColon) => true,
            (Token::Lt, Token::Lt) => true,
            (Token::Gt, Token::Gt) => true,
            (Token::Comma, Token::Comma) => true,
            (Token::EOF, Token::EOF) => true,
            _ => false,
        }
    }

    /// A copy of this token.
    pub fn duplicate(&self) -> (r: Token)
        ensures
            r@ == self@,
    {
        match self {
            Token::U8Type => Token::U8Type,
            Token::U64Type => Token::U64Type,
            Token::U128Type => Token::U128Type,
            Token::BoolType => Token::BoolType,
            Token::AddressType => Token::AddressType,
            Token::VectorType => Token::VectorType,
            Token::SignerType => Token::SignerType,
            Token::Whitespace => Token::Whitespace,
            Token::Name(v) => Token::Name(copy_chars(v)),
            Token::Address(v) => Token::Address(copy_chars(v)),
            Token::U8(v) => Token::U8(copy_chars(v)),
            Token::U64(v) => Token::U64(copy_chars(v)),
            Token::U128(v) => Token::U128(copy_chars(v)),
            Token::Bytes(v) => Token::Bytes(copy_chars(v)),
            Token::True => Token::True,
            Token::False => Token::False,
            Token::ColonColon => Token::ColonColon,
            Token::Lt => Token::Lt,
            Token::Gt => Token::Gt,
            Token::Comma => Token::Comma,
            Token::EOF => Token::EOF,
        }
    }
}

fn copy_chars(v: &Vec<char>) -> (r: Vec<char>)
    ensures
        r@ == v@,
{
    subvec(v, 0, v.len())
}

/// The characters `s[i..j]`.
fn subvec(s: &Vec<char>, i: usize, j: usize) -> (r: Vec<char>)
    requires
        i <= j <= s.len(),
    ensures
        r@ == s@.subrange(i as int, j as int),
{
    let mut r: Vec<char> = Vec::new();
    let mut k: usize = i;
    while k < j
        invariant
            i <= k <= j,
            j <= s.len(),
            r@ == s@.subrange(i as int, k as int),
        decreases j - k,
    {
        r.push(s[k]);
        k = k + 1;
        assert(r@ =~= s@.subrange(i as int, k as int));
    }
    r
}

} // verus!

verus! {

/// The character classes that the tokenizer reads runs of.
#[derive(Clone, Copy, PartialEq, Eq, Structural)]
pub enum CharClass {
    Digit,
    Hex,
    Alnum,
    Space,
    Ident,
    /// An ASCII character other than a double quote.
    ByteChar,
}

pub open spec fn is_digit(c: char) -> bool {
    '0' <= c && c <= '9'
}

pub open spec fn is_letter(c: char) -> bool {
    ('a' <= c && c <= 'z') || ('A' <= c && c <= 'Z')
}

pub open spec fn is_space(c: char) -> bool {
    c == ' ' || c == '\t' || c == '\n' || c == '\r' || c == '\x0C'
}

pub open spec fn in_class(c: char, k: CharClass) -> bool {
    match k {
        CharClass::Digit => is_digit(c),
        CharClass::Hex => is_hex_digit(c),
        CharClass::Alnum => is_digit(c) || is_letter(c),
        CharClass::Space => is_space(c),
        CharClass::Ident => is_ident_char(c),
        CharClass::ByteChar => (c as u32) < 128 && c != '"',
    }
}

/// The end of the run of characters of class `k` that starts at `i`.
pub open spec fn run_end(s: Seq<char>, i: int, k: CharClass) -> int
    decreases s.len() - i,
{
    if 0 <= i < s.len() && in_class(s[i], k) {
        run_end(s, i + 1, k)
    } else {
        i
    }
}

/// The byte of each ASCII character.
pub open spec fn ascii_bytes(cs: Seq<char>) -> Seq<u8> {
    Seq::new(cs.len(), |i: int| (cs[i] as u32) as u8)
}

/// A keyword for its spelling, or a name.
pub open spec fn spec_name_token(s: Seq<char>) -> SpecToken {
    if s == seq!['u', '8'] {
        SpecToken::U8Type
    } else if s == seq!['u', '6', '4'] {
        SpecToken::U64Type
    } else if s == seq!['u', '1', '2', '8'] {
        SpecToken::U128Type
    } else if s == seq!['b', 'o', 'o', 'l'] {
        SpecToken::BoolType
    } else if s == seq!['a', 'd', 'd', 'r', 'e', 's', 's'] {
        SpecToken::AddressType
    } else if s == seq!['v', 'e', 'c', 't', 'o', 'r'] {
        SpecToken::VectorType
    } else if s == seq!['t', 'r', 'u', 'e'] {
        SpecToken::True
    } else if s == seq!['f', 'a', 'l', 's', 'e'] {
        SpecToken::False
    } else if s == seq!['s', 'i', 'g', 'n', 'e', 'r'] {
        SpecToken::SignerType
    } else {
        SpecToken::Name(s)
    }
}

/// Whether a character is alphabetic or numeric in the Unicode sense.
pub uninterp spec fn is_alphanumeric_of(c: char) -> bool;

/// Relies on `char::is_alphanumeric`: alphabetic or numeric in the Unicode sense, which
/// for an ASCII character means an ASCII letter or digit.
#[verifier::external_body]
fn is_alphanumeric(c: char) -> (r: bool)
    ensures
        r == is_alphanumeric_of(c),
        (c as u32) < 128 ==> r == (is_digit(c) || is_letter(c)),
{
    c.is_alphanumeric()
}

/// A numeric literal starting with the digit at `i`: its digits, and an optional suffix
/// that starts at the first alphanumeric character after them and runs on over ASCII
/// letters and digits; the suffix must be `u8`, `u64` or `u128`. Without a suffix the
/// literal is 64 bits wide.
pub open spec fn lex_number(s: Seq<char>, i: int) -> Result<(SpecToken, int), ParseError> {
    let j = run_end(s, i, CharClass::Digit);
    let num = s.subrange(i, j);
    if j < s.len() && is_alphanumeric_of(s[j]) {
        let k = run_end(s, j + 1, CharClass::Alnum);
        let suffix = s.subrange(j, k);
        if suffix == seq!['u', '8'] {
            Ok((SpecToken::U8(num), k))
        } else if suffix == seq!['u', '6', '4'] {
            Ok((SpecToken::U64(num), k))
        } else if suffix == seq!['u', '1', '2', '8'] {
            Ok((SpecToken::U128(num), k))
        } else {
            Err(ParseError::Lex)
        }
    } else {
        Ok((SpecToken::U64(num), j))
    }
}

/// The token that starts at `i`, and where it ends.
pub open spec fn lex_one(s: Seq<char>, i: int) -> Result<(SpecToken, int), ParseError> {
    let c = s[i];
    let next_is = |d: char| i + 1 < s.len() && s[i + 1] == d;
    if c == '<' {
        Ok((SpecToken::Lt, i + 1))
    } else if c == '>' {
        Ok((SpecToken::Gt, i + 1))
    } else if c == ',' {
        Ok((SpecToken::Comma, i + 1))
    } else if c == ':' {
        if next_is(':') {
            Ok((SpecToken::ColonColon, i + 2))
        } else {
            Err(ParseError::Lex)
        }
    } else if c == '0' && (next_is('x') || next_is('X')) {
        if i + 2 < s.len() && is_hex_digit(s[i + 2]) {
            let j = run_end(s, i + 2, CharClass::Hex);
            Ok((SpecToken::Address(seq!['0', 'x'] + s.subrange(i + 2, j)), j))
        } else {
            Err(ParseError::Lex)
        }
    } else if is_digit(c) {
        lex_number(s, i)
    } else if c == 'b' && next_is('"') {
        let j = run_end(s, i + 2, CharClass::ByteChar);
        if j < s.len() && s[j] == '"' {
            Ok((SpecToken::Bytes(hex_text(ascii_bytes(s.subrange(i + 2, j)))), j + 1))
        } else {
            Err(ParseError::Lex)
        }
    } else if c == 'x' && next_is('"') {
        let j = run_end(s, i + 2, CharClass::Hex);
        if j < s.len() && s[j] == '"' {
            Ok((SpecToken::Bytes(s.subrange(i + 2, j)), j + 1))
        } else {
            Err(ParseError::Lex)
        }
    } else if is_space(c) {
        Ok((SpecToken::Whitespace, run_end(s, i, CharClass::Space)))
    } else if is_letter(c) {
        let j = run_end(s, i + 1, CharClass::Ident);
        Ok((spec_name_token(s.subrange(i, j)), j))
    } else {
        Err(ParseError::Lex)
    }
}

/// The tokens of `s` from `i` on, or the first lexical error.
pub open spec fn lex_from(s: Seq<char>, i: int) -> Result<Seq<SpecToken>, ParseError>
    decreases s.len() - i,
{
    if i < 0 || i >= s.len() {
        Ok(Seq::empty())
    } else {
        match lex_one(s, i) {
            Err(e) => Err(e),
            Ok((t, j)) => if j <= i || j > s.len() {
                Err(ParseError::Lex)
            } else {
                match lex_from(s, j) {
                    Err(e) => Err(e),
                    Ok(rest) => Ok(seq![t] + rest),
                }
            },
        }
    }
}

pub open spec fn prepend<T>(p: Seq<T>, r: Result<Seq<T>, ParseError>) -> Result<Seq<T>, ParseError> {
    match r {
        Ok(x) => Ok(p + x),
        Err(e) => Err(e),
    }
}

pub fn char_in_class(c: char, k: CharClass) -> (r: bool)
    ensures
        r == in_class(c, k),
{
    match k {
        CharClass::Digit => '0' <= c && c <= '9',
        CharClass::Hex => is_hex_char(c),
        CharClass::Alnum => ('0' <= c && c <= '9') || ('a' <= c && c <= 'z') || ('A' <= c && c
            <= 'Z'),
        CharClass::Space => c == ' ' || c == '\t' || c == '\n' || c == '\r' || c == '\x0C',
        CharClass::Ident => is_valid_identifier_char(c),
        CharClass::ByteChar => (c as u32) < 128 && c != '"',
    }
}

fn scan(s: &Vec<char>, i: usize, k: CharClass) -> (j: usize)
    requires
        i <= s.len(),
    ensures
        j == run_end(s@, i as int, k),
        i <= j <= s.len(),
        i < s.len() && in_class(s@[i as int], k) ==> i < j,
{
    let mut j = i;
    while j < s.len() && char_in_class(s[j], k)
        invariant
            i <= j <= s.len(),
            run_end(s@, i as int, k) == run_end(s@, j as int, k),
        decreases s.len() - j,
    {
        j = j + 1;
    }
    j
}

} // verus!

verus! {

/// Whether `v` spells exactly `w`.
fn spells(v: &Vec<char>, w: &[char]) -> (r: bool)
    ensures
        r == (v@ == w@),
{
    if v.len() != w.len() {
        return false;
    }
    let mut i: usize = 0;
    while i < v.len()
        invariant
            i <= v.len() == w@.len(),
            forall|k: int| 0 <= k < i ==> v@[k] == w@[k],
        decreases v.len() - i,
    {
        if v[i] != w[i] {
            return false;
        }
        i = i + 1;
    }
    assert(v@ =~= w@);
    true
}

fn name_token(s: Vec<char>) -> (r: Token)
    ensures
        r@ == spec_name_token(s@),
{
    let w_u8 = ['u', '8'];
    let w_u64 = ['u', '6', '4'];
    let w_u128 = ['u', '1', '2', '8'];
    let w_bool = ['b', 'o', 'o', 'l'];
    let w_address = ['a', 'd', 'd', 'r', 'e', 's', 's'];
    let w_vector = ['v', 'e', 'c', 't', 'o', 'r'];
    let w_true = ['t', 'r', 'u', 'e'];
    let w_false = ['f', 'a', 'l', 's', 'e'];
    let w_signer = ['s', 'i', 'g', 'n', 'e', 'r'];
    assert(w_u8@ =~= seq!['u', '8']);
    assert(w_u64@ =~= seq!['u', '6', '4']);
    assert(w_u128@ =~= seq!['u', '1', '2', '8']);
    assert(w_bool@ =~= seq!['b', 'o', 'o', 'l']);
    assert(w_address@ =~= seq!['a', 'd', 'd', 'r', 'e', 's', 's']);
    assert(w_vector@ =~= seq!['v', 'e', 'c', 't', 'o', 'r']);
    assert(w_true@ =~= seq!['t', 'r', 'u', 'e']);
    assert(w_false@ =~= seq!['f', 'a', 'l', 's', 'e']);
    assert(w_signer@ =~= seq!['s', 'i', 'g', 'n', 'e', 'r']);
    if spells(&s, &w_u8) {
        Token::U8Type
    } else if spells(&s, &w_u64) {
        Token::U64Type
    } else if spells(&s, &w_u128) {
        Token::U128Type
    } else if spells(&s, &w_bool) {
        Token::BoolType
    } else if spells(&s, &w_address) {
        Token::AddressType
    } else if spells(&s, &w_vector) {
        Token::VectorType
    } else if spells(&s, &w_true) {
        Token::True
    } else if spells(&s, &w_false) {
        Token::False
    } else if spells(&s, &w_signer) {
        Token::SignerType
    } else {
        Token::Name(s)
    }
}

/// Reads a numeric literal whose first digit is at `i`.
fn next_number(s: &Vec<char>, i: usize) -> (r: Result<(Token, usize), ParseError>)
    requires
        i < s.len(),
        is_digit(s@[i as int]),
    ensures
        match r {
            Ok((t, j)) => lex_number(s@, i as int) == Ok::<(SpecToken, int), ParseError>((t@, j as int)),
            Err(e) => lex_number(s@, i as int) == Err::<(SpecToken, int), ParseError>(e),
        },
        r is Ok ==> i < r->Ok_0.1 <= s.len(),
{
    let j = scan(s, i, CharClass::Digit);
    let num = subvec(s, i, j);
    if j < s.len() && is_alphanumeric(s[j]) {
        let k = scan(s, j + 1, CharClass::Alnum);
        let suffix = subvec(s, j, k);
        let w_u8 = ['u', '8'];
        let w_u64 = ['u', '6', '4'];
        let w_u128 = ['u', '1', '2', '8'];
        assert(w_u8@ =~= seq!['u', '8']);
        assert(w_u64@ =~= seq!['u', '6', '4']);
        assert(w_u128@ =~= seq!['u', '1', '2', '8']);
        if spells(&suffix, &w_u8) {
            Ok((Token::U8(num), k))
        } else if spells(&suffix, &w_u64) {
            Ok((Token::U64(num), k))
        } else if spells(&suffix, &w_u128) {
            Ok((Token::U128(num), k))
        } else {
            Err(ParseError::Lex)
        }
    } else {
        Ok((Token::U64(num), j))
    }
}

} // verus!

verus! {

fn ascii_bytes_of(s: &Vec<char>, i: usize, j: usize) -> (r: Vec<u8>)
    requires
        i <= j <= s.len(),
    ensures
        r@ == ascii_bytes(s@.subrange(i as int, j as int)),
{
    let mut r: Vec<u8> = Vec::new();
    let mut k: usize = i;
    while k < j
        invariant
            i <= k <= j,
            j <= s.len(),
            r@ == ascii_bytes(s@.subrange(i as int, k as int)),
        decreases j - k,
    {
        r.push((s[k] as u32) as u8);
        k = k + 1;
        assert(r@ =~= ascii_bytes(s@.subrange(i as int, k as int)));
    }
    r
}

/// Reads the token that starts at `i`.
fn next_token(s: &Vec<char>, i: usize) -> (r: Result<(Token, usize), ParseError>)
    requires
        i < s.len(),
    ensures
        match r {
            Ok((t, j)) => lex_one(s@, i as int) == Ok::<(SpecToken, int), ParseError>((t@, j as int)),
            Err(e) => lex_one(s@, i as int) == Err::<(SpecToken, int), ParseError>(e),
        },
        r is Ok ==> i < r->Ok_0.1 <= s.len(),
{
    let c = s[i];
    let next_is_quote = i + 1 < s.len() && s[i + 1] == '"';
    if c == '<' {
        Ok((Token::Lt, i + 1))
    } else if c == '>' {
        Ok((Token::Gt, i + 1))
    } else if c == ',' {
        Ok((Token::Comma, i + 1))
    } else if c == ':' {
        if i + 1 < s.len() && s[i + 1] == ':' {
            Ok((Token::ColonColon, i + 2))
        } else {
            Err(ParseError::Lex)
        }
    } else if c == '0' && i + 1 < s.len() && (s[i + 1] == 'x' || s[i + 1] == 'X') {
        if i + 2 < s.len() && is_hex_char(s[i + 2]) {
            let j = scan(s, i + 2, CharClass::Hex);
            let mut r: Vec<char> = vec!['0', 'x'];
            let digits = subvec(s, i + 2, j);
            let ghost pre = r@;
            let mut k: usize = 0;
            while k < digits.len()
                invariant
                    k <= digits.len(),
                    r@ == pre + digits@.take(k as int),
                decreases digits.len() - k,
            {
                r.push(digits[k]);
                k = k + 1;
                assert(r@ =~= pre + digits@.take(k as int));
            }
            assert(digits@.take(k as int) =~= digits@);
            assert(pre =~= seq!['0', 'x']);
            Ok((Token::Address(r), j))
        } else {
            Err(ParseError::Lex)
        }
    } else if '0' <= c && c <= '9' {
        next_number(s, i)
    } else if c == 'b' && next_is_quote {
        let j = scan(s, i + 2, CharClass::ByteChar);
        if j < s.len() && s[j] == '"' {
            let bytes = ascii_bytes_of(s, i + 2, j);
            let encoded = hex_encode(&bytes);
            Ok((Token::Bytes(chars_of(encoded.as_str())), j + 1))
        } else {
            Err(ParseError::Lex)
        }
    } else if c == 'x' && next_is_quote {
        let j = scan(s, i + 2, CharClass::Hex);
        if j < s.len() && s[j] == '"' {
            Ok((Token::Bytes(subvec(s, i + 2, j)), j + 1))
        } else {
            Err(ParseError::Lex)
        }
    } else if char_in_class(c, CharClass::Space) {
        Ok((Token::Whitespace, scan(s, i, CharClass::Space)))
    } else if ('a' <= c && c <= 'z') || ('A' <= c && c <= 'Z') {
        let j = scan(s, i + 1, CharClass::Ident);
        Ok((name_token(subvec(s, i, j)), j))
    } else {
        Err(ParseError::Lex)
    }
}

/// Splits `s` into tokens, whitespace runs included.
pub(crate) fn tokenize(s: &Vec<char>) -> (r: Result<Vec<Token>, ParseError>)
    ensures
        match r {
            Ok(v) => lex_from(s@, 0) == Ok::<Seq<SpecToken>, ParseError>(views_of(v@)),
            Err(e) => lex_from(s@, 0) == Err::<Seq<SpecToken>, ParseError>(e),
        },
{
    let mut v: Vec<Token> = Vec::new();
    let mut i: usize = 0;
    while i < s.len()
        invariant
            i <= s.len(),
            lex_from(s@, 0) == prepend(views_of(v@), lex_from(s@, i as int)),
        decreases s.len() - i,
    {
        match next_token(s, i) {
            Ok((t, j)) => {
                let ghost tv = t@;
                let ghost before = views_of(v@);
                v.push(t);
                proof {
                    assert(views_of(v@) =~= before.push(tv));
                    match lex_from(s@, j as int) {
                        Ok(rest) => {
                            assert(before + (seq![tv] + rest) =~= before.push(tv) + rest);
                        },
                        Err(_) => {},
                    }
                }
                i = j;
            },
            Err(e) => {
                return Err(e);
            },
        }
    }
    assert(views_of(v@) + Seq::<SpecToken>::empty() =~= views_of(v@));
    Ok(v)
}

} // verus!
