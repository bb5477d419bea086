//! Laws of the parser, stated over the spec functions that the entry points' contracts use.

use vstd::prelude::*;
use crate::parser::{argument_of, spec_argument, spec_tokens, spec_type_tag, strip_ws, type_tag_of};
use crate::text::{hex_bytes, hex_digit_of, hex_text, is_hex_digit, is_hex_text};
use crate::token::{ascii_bytes, in_class, lex_from, lex_one, run_end, spec_name_token, CharClass, SpecToken};
use crate::types::{is_ident_char, ArgModel, ParseError, TagModel, MAX_TYPE_TAG_NESTING};

verus! {

proof fn lemma_run_end_shift(s: Seq<char>, i: int, a: int, k: CharClass)
    requires
        0 <= i <= s.len(),
        0 <= a,
    ensures
        run_end(s, i + a, k) == i + run_end(s.subrange(i, s.len() as int), a, k),
    decreases s.len() - i - a,
{
    let t = s.subrange(i, s.len() as int);
    if i + a < s.len() {
        assert(t[a] == s[i + a]);
        if in_class(s[i + a], k) {
            lemma_run_end_shift(s, i, a + 1, k);
        }
    }
}

proof fn lemma_run_end_bounds(s: Seq<char>, i: int, k: CharClass)
    requires
        0 <= i <= s.len(),
    ensures
        i <= run_end(s, i, k) <= s.len(),
    decreases s.len() - i,
{
    if i < s.len() && in_class(s[i], k) {
        lemma_run_end_bounds(s, i + 1, k);
    }
}

pub open spec fn shifted(r: Result<(SpecToken, int), ParseError>, i: int) -> Result<(SpecToken, int), ParseError> {
    match r {
        Ok((t, j)) => Ok((t, j + i)),
        Err(e) => Err(e),
    }
}

proof fn lemma_lex_one_shift(s: Seq<char>, i: int)
    requires
        0 <= i < s.len(),
    ensures
        lex_one(s, i) == shifted(lex_one(s.subrange(i, s.len() as int), 0), i),
{
    let t = s.subrange(i, s.len() as int);
    let n = s.len() as int;
    assert(t[0] == s[i]);
    if 1 < t.len() {
        assert(t[1] == s[i + 1]);
    }
    if 2 < t.len() {
        assert(t[2] == s[i + 2]);
    }
    lemma_run_end_shift(s, i, 0, CharClass::Digit);
    lemma_run_end_shift(s, i, 0, CharClass::Space);
    lemma_run_end_shift(s, i, 1, CharClass::Ident);
    lemma_run_end_shift(s, i, 2, CharClass::Hex);
    lemma_run_end_shift(s, i, 2, CharClass::ByteChar);
    let jd = run_end(t, 0, CharClass::Digit);
    lemma_run_end_bounds(t, 0, CharClass::Digit);
    lemma_run_end_shift(s, i, jd + 1, CharClass::Alnum);
    let jd2 = run_end(s, i, CharClass::Digit);
    if jd < t.len() {
        assert(t[jd] == s[i + jd]);
        lemma_run_end_bounds(t, jd + 1, CharClass::Alnum);
        let k = run_end(t, jd + 1, CharClass::Alnum);
        assert(s.subrange(jd2, i + k) =~= t.subrange(jd, k));
    }
    assert(s.subrange(i, jd2) =~= t.subrange(0, jd));
    if 2 <= t.len() {
        lemma_run_end_bounds(t, 2, CharClass::Hex);
        lemma_run_end_bounds(t, 2, CharClass::ByteChar);
        let jh = run_end(t, 2, CharClass::Hex);
        let jb = run_end(t, 2, CharClass::ByteChar);
        assert(s.subrange(i + 2, i + jh) =~= t.subrange(2, jh));
        if jh < t.len() {
            assert(t[jh] == s[i + jh]);
        }
        assert(s.subrange(i + 2, i + jb) =~= t.subrange(2, jb));
        if jb < t.len() {
            assert(t[jb] == s[i + jb]);
        }
    }
    lemma_run_end_bounds(t, 1, CharClass::Ident);
    let ji = run_end(t, 1, CharClass::Ident);
    assert(s.subrange(i, i + ji) =~= t.subrange(0, ji));
}

/// Tokenizing from `i` on depends only on the text from `i` on.
pub proof fn lemma_lex_from_suffix(s: Seq<char>, i: int)
    requires
        0 <= i <= s.len(),
    ensures
        lex_from(s, i) == lex_from(s.subrange(i, s.len() as int), 0),
    decreases s.len() - i,
{
    let t = s.subrange(i, s.len() as int);
    if i < s.len() {
        lemma_lex_one_shift(s, i);
        match lex_one(t, 0) {
            Ok((tok, j)) => {
                if 0 < j <= t.len() {
                    lemma_lex_from_suffix(s, i + j);
                    lemma_lex_from_suffix(t, j);
                    assert(s.subrange(i + j, s.len() as int) =~= t.subrange(j, t.len() as int));
                }
            },
            Err(_) => {},
        }
    }
}

} // verus!

verus! {

proof fn lemma_run_end_all(s: Seq<char>, i: int, k: CharClass)
    requires
        0 <= i <= s.len(),
        forall|j: int| i <= j < s.len() ==> in_class(#[trigger] s[j], k),
    ensures
        run_end(s, i, k) == s.len(),
    decreases s.len() - i,
{
    if i < s.len() {
        lemma_run_end_all(s, i + 1, k);
    }
}

/// A word that starts with a letter is one token, a keyword or a name.
proof fn lemma_lex_word(w: Seq<char>)
    requires
        w.len() > 0,
        ('a' <= w[0] && w[0] <= 'z') || ('A' <= w[0] && w[0] <= 'Z'),
        forall|j: int| 0 <= j < w.len() ==> is_ident_char(#[trigger] w[j]),
    ensures
        lex_from(w, 0) == Ok::<Seq<SpecToken>, ParseError>(seq![spec_name_token(w)]),
{
    assert forall|j: int| 1 <= j < w.len() implies in_class(#[trigger] w[j], CharClass::Ident) by {
        assert(is_ident_char(w[j]));
    }
    lemma_run_end_all(w, 1, CharClass::Ident);
    if w.len() > 1 {
        assert(is_ident_char(w[1]));
    }
    assert(w.subrange(0, w.len() as int) =~= w);
    assert(lex_one(w, 0) == Ok::<(SpecToken, int), ParseError>((spec_name_token(w), w.len() as int)));
    assert(lex_from(w, w.len() as int) == Ok::<Seq<SpecToken>, ParseError>(Seq::empty()));
    assert(seq![spec_name_token(w)] + Seq::<SpecToken>::empty() =~= seq![spec_name_token(w)]);
}

proof fn lemma_keyword_type(w: Seq<char>, t: TagModel)
    requires
        w.len() > 0,
        ('a' <= w[0] && w[0] <= 'z') || ('A' <= w[0] && w[0] <= 'Z'),
        forall|j: int| 0 <= j < w.len() ==> is_ident_char(#[trigger] w[j]),
        spec_type_tag(seq![spec_name_token(w), SpecToken::EOF], 0, 0) == Ok::<(TagModel, int), ParseError>((t, 1)),
    ensures
        type_tag_of(w) == Ok::<TagModel, ParseError>(t),
{
    lemma_lex_word(w);
    let one = seq![spec_name_token(w)];
    assert(one.drop_last() =~= Seq::<SpecToken>::empty());
    assert(strip_ws(Seq::<SpecToken>::empty()) == Seq::<SpecToken>::empty());
    assert(!(one.last() is Whitespace));
    assert(strip_ws(one) =~= one);
    assert(one.push(SpecToken::EOF) =~= seq![spec_name_token(w), SpecToken::EOF]);
    assert(spec_tokens(w) == Ok::<Seq<SpecToken>, ParseError>(seq![spec_name_token(w), SpecToken::EOF]));
}

/// Each primitive keyword, standing alone, parses as the primitive type it names.
pub proof fn lemma_primitive_keywords()
    ensures
        type_tag_of(seq!['u', '8']) == Ok::<TagModel, ParseError>(TagModel::U8),
        type_tag_of(seq!['u', '6', '4']) == Ok::<TagModel, ParseError>(TagModel::U64),
        type_tag_of(seq!['u', '1', '2', '8']) == Ok::<TagModel, ParseError>(TagModel::U128),
        type_tag_of(seq!['b', 'o', 'o', 'l']) == Ok::<TagModel, ParseError>(TagModel::Bool),
        type_tag_of(seq!['a', 'd', 'd', 'r', 'e', 's', 's']) == Ok::<TagModel, ParseError>(
            TagModel::Address,
        ),
        type_tag_of(seq!['s', 'i', 'g', 'n', 'e', 'r']) == Ok::<TagModel, ParseError>(
            TagModel::Signer,
        ),
{
    lemma_keyword_type(seq!['u', '8'], TagModel::U8);
    lemma_keyword_type(seq!['u', '6', '4'], TagModel::U64);
    lemma_keyword_type(seq!['u', '1', '2', '8'], TagModel::U128);
    lemma_keyword_type(seq!['b', 'o', 'o', 'l'], TagModel::Bool);
    lemma_keyword_type(seq!['a', 'd', 'd', 'r', 'e', 's', 's'], TagModel::Address);
    lemma_keyword_type(seq!['s', 'i', 'g', 'n', 'e', 'r'], TagModel::Signer);
}

} // verus!

verus! {

/// `vector<` written `n` times.
pub open spec fn vector_opens(n: nat) -> Seq<char>
    decreases n,
{
    if n == 0 {
        Seq::empty()
    } else {
        seq!['v', 'e', 'c', 't', 'o', 'r', '<'] + vector_opens((n - 1) as nat)
    }
}

/// `>` written `n` times.
pub open spec fn closers(n: nat) -> Seq<char>
    decreases n,
{
    if n == 0 {
        Seq::empty()
    } else {
        seq!['>'] + closers((n - 1) as nat)
    }
}

/// `u64` wrapped in `n` vectors.
pub open spec fn vector_chain(n: nat) -> Seq<char> {
    vector_opens(n) + (seq!['u', '6', '4'] + closers(n))
}

/// The type `u64` wrapped in `n` vectors.
pub open spec fn nested_vectors(n: nat) -> TagModel
    decreases n,
{
    if n == 0 {
        TagModel::U64
    } else {
        TagModel::Vector(Box::new(nested_vectors((n - 1) as nat)))
    }
}

spec fn open_toks(n: nat) -> Seq<SpecToken>
    decreases n,
{
    if n == 0 {
        Seq::empty()
    } else {
        seq![SpecToken::VectorType, SpecToken::Lt] + open_toks((n - 1) as nat)
    }
}

spec fn close_toks(n: nat) -> Seq<SpecToken>
    decreases n,
{
    if n == 0 {
        Seq::empty()
    } else {
        seq![SpecToken::Gt] + close_toks((n - 1) as nat)
    }
}

proof fn lemma_lex_closers(n: nat)
    ensures
        lex_from(closers(n), 0) == Ok::<Seq<SpecToken>, ParseError>(close_toks(n)),
    decreases n,
{
    if n > 0 {
        let c = closers(n);
        lemma_lex_closers((n - 1) as nat);
        lemma_lex_from_suffix(c, 1);
        assert(c.subrange(1, c.len() as int) =~= closers((n - 1) as nat));
        assert(lex_one(c, 0) == Ok::<(SpecToken, int), ParseError>((SpecToken::Gt, 1)));
    }
}

proof fn lemma_lex_u64_closers(n: nat)
    ensures
        lex_from(seq!['u', '6', '4'] + closers(n), 0) == Ok::<Seq<SpecToken>, ParseError>(
            seq![SpecToken::U64Type] + close_toks(n),
        ),
{
    let s = seq!['u', '6', '4'] + closers(n);
    let c = closers(n);
    if n > 0 {
        assert(s[3] == '>');
    }
    assert(run_end(s, 3, CharClass::Ident) == 3);
    assert(run_end(s, 2, CharClass::Ident) == 3);
    assert(run_end(s, 1, CharClass::Ident) == 3);
    assert(s.subrange(0, 3) =~= seq!['u', '6', '4']);
    assert(lex_one(s, 0) == Ok::<(SpecToken, int), ParseError>((SpecToken::U64Type, 3)));
    lemma_lex_from_suffix(s, 3);
    assert(s.subrange(3, s.len() as int) =~= c);
    lemma_lex_closers(n);
}

proof fn lemma_lex_opens(m: nat, rest: Seq<char>)
    requires
        rest.len() > 0,
        rest[0] == 'u',
    ensures
        lex_from(vector_opens(m) + rest, 0) == crate::token::prepend(open_toks(m), lex_from(rest, 0)),
    decreases m,
{
    let s = vector_opens(m) + rest;
    if m == 0 {
        assert(s =~= rest);
        match lex_from(rest, 0) {
            Ok(x) => {
                assert(Seq::<SpecToken>::empty() + x =~= x);
            },
            Err(_) => {},
        }
    } else {
        let inner = vector_opens((m - 1) as nat) + rest;
        assert(s =~= seq!['v', 'e', 'c', 't', 'o', 'r', '<'] + inner);
        assert(run_end(s, 6, CharClass::Ident) == 6);
        assert(run_end(s, 5, CharClass::Ident) == 6);
        assert(run_end(s, 4, CharClass::Ident) == 6);
        assert(run_end(s, 3, CharClass::Ident) == 6);
        assert(run_end(s, 2, CharClass::Ident) == 6);
        assert(run_end(s, 1, CharClass::Ident) == 6);
        assert(s.subrange(0, 6) =~= seq!['v', 'e', 'c', 't', 'o', 'r']);
        assert(lex_one(s, 0) == Ok::<(SpecToken, int), ParseError>((SpecToken::VectorType, 6)));
        assert(lex_one(s, 6) == Ok::<(SpecToken, int), ParseError>((SpecToken::Lt, 7)));
        lemma_lex_from_suffix(s, 7);
        assert(s.subrange(7, s.len() as int) =~= inner);
        lemma_lex_opens((m - 1) as nat, rest);
        assert(s.len() > 7);
        match lex_from(s, 7) {
            Ok(x) => {
                assert(lex_from(s, 6) == Ok::<Seq<SpecToken>, ParseError>(seq![SpecToken::Lt] + x));
                assert(lex_from(s, 0) == Ok::<Seq<SpecToken>, ParseError>(
                    seq![SpecToken::VectorType] + (seq![SpecToken::Lt] + x),
                ));
            },
            Err(e) => {
                assert(lex_from(s, 6) == Err::<Seq<SpecToken>, ParseError>(e));
            },
        }
        match lex_from(rest, 0) {
            Ok(x) => {
                assert(seq![SpecToken::VectorType] + (seq![SpecToken::Lt] + (open_toks(
                    (m - 1) as nat,
                ) + x)) =~= open_toks(m) + x);
            },
            Err(_) => {},
        }
    }
}

} // verus!

verus! {

proof fn lemma_open_index(n: nat)
    ensures
        open_toks(n).len() == 2 * n,
        forall|i: int| 0 <= i < 2 * n ==> #[trigger] open_toks(n)[i] == if i % 2 == 0 {
            SpecToken::VectorType
        } else {
            SpecToken::Lt
        },
    decreases n,
{
    if n > 0 {
        lemma_open_index((n - 1) as nat);
        let o = open_toks(n);
        let p = open_toks((n - 1) as nat);
        assert forall|i: int| 0 <= i < 2 * n implies #[trigger] o[i] == if i % 2 == 0 {
            SpecToken::VectorType
        } else {
            SpecToken::Lt
        } by {
            if i >= 2 {
                assert(o[i] == p[i - 2]);
            }
        }
    }
}

proof fn lemma_close_index(n: nat)
    ensures
        close_toks(n).len() == n,
        forall|i: int| 0 <= i < n ==> #[trigger] close_toks(n)[i] == SpecToken::Gt,
    decreases n,
{
    if n > 0 {
        lemma_close_index((n - 1) as nat);
        let c = close_toks(n);
        assert forall|i: int| 0 <= i < n implies #[trigger] c[i] == SpecToken::Gt by {
            if i >= 1 {
                assert(c[i] == close_toks((n - 1) as nat)[i - 1]);
            }
        }
    }
}

pub(crate) proof fn lemma_strip_plain(ts: Seq<SpecToken>)
    requires
        forall|i: int| 0 <= i < ts.len() ==> !(#[trigger] ts[i] is Whitespace),
    ensures
        strip_ws(ts) == ts,
    decreases ts.len(),
{
    if ts.len() > 0 {
        lemma_strip_plain(ts.drop_last());
        assert(ts.drop_last().push(ts.last()) =~= ts);
    }
}

spec fn chain_toks(n: nat) -> Seq<SpecToken> {
    open_toks(n) + seq![SpecToken::U64Type] + close_toks(n) + seq![SpecToken::EOF]
}

proof fn lemma_chain_toks_index(n: nat)
    ensures
        chain_toks(n).len() == 3 * n + 2,
        forall|k: int| 0 <= k < n ==> #[trigger] chain_toks(n)[2 * k] == SpecToken::VectorType,
        forall|k: int| 0 <= k < n ==> #[trigger] chain_toks(n)[2 * k + 1] == SpecToken::Lt,
        chain_toks(n)[2 * n as int] == SpecToken::U64Type,
        forall|j: int| 0 <= j < n ==> #[trigger] chain_toks(n)[2 * n + 1 + j] == SpecToken::Gt,
        chain_toks(n)[3 * n as int + 1] == SpecToken::EOF,
        forall|i: int| 0 <= i < chain_toks(n).len() ==> !(#[trigger] chain_toks(n)[i] is Whitespace),
{
    lemma_open_index(n);
    lemma_close_index(n);
    let t = chain_toks(n);
    assert forall|k: int| 0 <= k < n implies #[trigger] t[2 * k] == SpecToken::VectorType by {
        assert(t[2 * k] == open_toks(n)[2 * k]);
        assert((2 * k) % 2 == 0);
    }
    assert forall|k: int| 0 <= k < n implies #[trigger] t[2 * k + 1] == SpecToken::Lt by {
        assert(t[2 * k + 1] == open_toks(n)[2 * k + 1]);
        assert((2 * k + 1) % 2 == 1);
    }
    assert forall|j: int| 0 <= j < n implies #[trigger] t[2 * n + 1 + j] == SpecToken::Gt by {
        assert(t[2 * n + 1 + j] == close_toks(n)[j]);
    }
    assert forall|i: int| 0 <= i < t.len() implies !(#[trigger] t[i] is Whitespace) by {
        if i < 2 * n {
            assert(t[i] == open_toks(n)[i]);
        } else if 2 * n + 1 <= i < 3 * n + 1 {
            assert(t[i] == close_toks(n)[i - 2 * n - 1]);
        }
    }
}

proof fn lemma_chain_tokens(n: nat)
    ensures
        spec_tokens(vector_chain(n)) == Ok::<Seq<SpecToken>, ParseError>(chain_toks(n)),
{
    lemma_lex_u64_closers(n);
    lemma_lex_opens(n, seq!['u', '6', '4'] + closers(n));
    let body = open_toks(n) + (seq![SpecToken::U64Type] + close_toks(n));
    assert(lex_from(vector_chain(n), 0) == Ok::<Seq<SpecToken>, ParseError>(body));
    lemma_chain_toks_index(n);
    assert(body.push(SpecToken::EOF) =~= chain_toks(n));
    assert forall|i: int| 0 <= i < body.len() implies !(#[trigger] body[i] is Whitespace) by {
        assert(body[i] == chain_toks(n)[i]);
    }
    lemma_strip_plain(body);
}

proof fn lemma_chain_ok(n: nat, k: nat)
    requires
        n < MAX_TYPE_TAG_NESTING,
        k <= n,
    ensures
        spec_type_tag(chain_toks(n), 2 * k as int, k as int) == Ok::<(TagModel, int), ParseError>(
            (nested_vectors((n - k) as nat), 2 * n + 1 + (n - k)),
        ),
    decreases n - k,
{
    lemma_chain_toks_index(n);
    if k < n {
        lemma_chain_ok(n, k + 1);
        let j = (n - k - 1) as int;
        assert(chain_toks(n)[2 * n + 1 + j] == SpecToken::Gt);
        assert(2 * k + 2 == 2 * (k + 1));
    }
}

proof fn lemma_chain_too_deep(n: nat, k: nat)
    requires
        n >= MAX_TYPE_TAG_NESTING,
        k <= MAX_TYPE_TAG_NESTING,
    ensures
        spec_type_tag(chain_toks(n), 2 * k as int, k as int) == Err::<(TagModel, int), ParseError>(
            ParseError::NestingLimit,
        ),
    decreases MAX_TYPE_TAG_NESTING - k,
{
    lemma_chain_toks_index(n);
    if k < MAX_TYPE_TAG_NESTING {
        lemma_chain_too_deep(n, k + 1);
        assert(2 * k + 2 == 2 * (k + 1));
    }
}

/// A chain of `n` vectors around `u64` parses exactly when `n` is below the nesting
/// limit; deeper chains fail with the nesting-limit error.
pub proof fn lemma_vector_chain_limit(n: nat)
    ensures
        n < MAX_TYPE_TAG_NESTING ==> type_tag_of(vector_chain(n)) == Ok::<TagModel, ParseError>(
            nested_vectors(n),
        ),
        n >= MAX_TYPE_TAG_NESTING ==> type_tag_of(vector_chain(n)) == Err::<TagModel, ParseError>(
            ParseError::NestingLimit,
        ),
{
    lemma_chain_tokens(n);
    lemma_chain_toks_index(n);
    if n < MAX_TYPE_TAG_NESTING {
        lemma_chain_ok(n, 0);
    } else {
        lemma_chain_too_deep(n, 0);
    }
}

} // verus!

verus! {

pub(crate) proof fn lemma_hex_digit(n: int)
    requires
        0 <= n < 16,
    ensures
        is_hex_digit(hex_digit_of(n)),
        crate::text::hex_value(hex_digit_of(n)) == n,
{
}

} // verus!

verus! {

pub(crate) proof fn lemma_hex_round_trip(b: Seq<u8>)
    ensures
        hex_text(b).len() == 2 * b.len(),
        is_hex_text(hex_text(b)),
        hex_bytes(hex_text(b)) == b,
    decreases b.len(),
{
    if b.len() > 0 {
        let p = b.drop_last();
        let x = b.last() as int;
        lemma_hex_round_trip(p);
        lemma_hex_digit(x / 16);
        lemma_hex_digit(x % 16);
        let t = hex_text(b);
        let tp = hex_text(p);
        assert forall|i: int| 0 <= i < t.len() implies is_hex_digit(#[trigger] t[i]) by {
            if i < tp.len() {
                assert(t[i] == tp[i]);
            }
        }
        assert forall|i: int| 0 <= i < b.len() implies #[trigger] hex_bytes(t)[i] == b[i] by {
            if i < p.len() {
                assert(t[2 * i] == tp[2 * i]);
                assert(t[2 * i + 1] == tp[2 * i + 1]);
                assert(hex_bytes(tp)[i] == p[i]);
            } else {
                assert(t[2 * i] == hex_digit_of(x / 16));
                assert(t[2 * i + 1] == hex_digit_of(x % 16));
            }
        }
        assert(hex_bytes(t) =~= b);
    }
}

pub(crate) proof fn lemma_run_end_upto(s: Seq<char>, i: int, e: int, k: CharClass)
    requires
        0 <= i <= e <= s.len(),
        forall|j: int| i <= j < e ==> in_class(#[trigger] s[j], k),
        e == s.len() || !in_class(s[e], k),
    ensures
        run_end(s, i, k) == e,
    decreases e - i,
{
    if i < e {
        lemma_run_end_upto(s, i + 1, e, k);
    }
}

/// `b"`, the characters, `"`.
pub open spec fn byte_string_literal(c: Seq<char>) -> Seq<char> {
    seq!['b', '"'] + c + seq!['"']
}

/// `x"`, the hexadecimal digits, `"`.
pub open spec fn hex_string_literal(h: Seq<char>) -> Seq<char> {
    seq!['x', '"'] + h + seq!['"']
}

proof fn lemma_single_token_argument(s: Seq<char>, t: SpecToken)
    requires
        lex_from(s, 0) == Ok::<Seq<SpecToken>, ParseError>(seq![t]),
        !(t is Whitespace),
    ensures
        argument_of(s) == match spec_argument(seq![t, SpecToken::EOF], 0) {
            Ok((a, p)) => if p == 1 { Ok::<ArgModel, ParseError>(a) } else { Err(ParseError::UnexpectedToken) },
            Err(e) => Err(e),
        },
{
    let one = seq![t];
    assert(one.drop_last() =~= Seq::<SpecToken>::empty());
    assert(strip_ws(Seq::<SpecToken>::empty()) == Seq::<SpecToken>::empty());
    assert(strip_ws(one) =~= one);
    assert(one.push(SpecToken::EOF) =~= seq![t, SpecToken::EOF]);
}

/// A `b"..."` literal of ASCII characters other than the double quote stands for the
/// bytes of those characters, as does the `x"..."` literal of their hexadecimal digits.
pub proof fn lemma_byte_string_literals(c: Seq<char>)
    requires
        forall|i: int| 0 <= i < c.len() ==> (#[trigger] c[i] as u32) < 128 && c[i] != '"',
    ensures
        argument_of(byte_string_literal(c)) == Ok::<ArgModel, ParseError>(
            ArgModel::U8Vector(ascii_bytes(c)),
        ),
        argument_of(hex_string_literal(hex_text(ascii_bytes(c)))) == Ok::<ArgModel, ParseError>(
            ArgModel::U8Vector(ascii_bytes(c)),
        ),
{
    let bytes = ascii_bytes(c);
    let h = hex_text(bytes);
    lemma_hex_round_trip(bytes);
    let s = byte_string_literal(c);
    let e = 2 + c.len() as int;
    assert forall|j: int| 2 <= j < e implies in_class(#[trigger] s[j], CharClass::ByteChar) by {
        assert(s[j] == c[j - 2]);
    }
    assert(s[e] == '"');
    lemma_run_end_upto(s, 2, e, CharClass::ByteChar);
    assert(s.subrange(2, e) =~= c);
    assert(lex_one(s, 0) == Ok::<(SpecToken, int), ParseError>((SpecToken::Bytes(h), e + 1)));
    assert(lex_from(s, e + 1) == Ok::<Seq<SpecToken>, ParseError>(Seq::empty()));
    assert(seq![SpecToken::Bytes(h)] + Seq::<SpecToken>::empty() =~= seq![SpecToken::Bytes(h)]);
    lemma_single_token_argument(s, SpecToken::Bytes(h));

    let x = hex_string_literal(h);
    let f = 2 + h.len() as int;
    assert forall|j: int| 2 <= j < f implies in_class(#[trigger] x[j], CharClass::Hex) by {
        assert(x[j] == h[j - 2]);
    }
    assert(x[f] == '"');
    lemma_run_end_upto(x, 2, f, CharClass::Hex);
    assert(x.subrange(2, f) =~= h);
    assert(lex_one(x, 0) == Ok::<(SpecToken, int), ParseError>((SpecToken::Bytes(h), f + 1)));
    assert(lex_from(x, f + 1) == Ok::<Seq<SpecToken>, ParseError>(Seq::empty()));
    lemma_single_token_argument(x, SpecToken::Bytes(h));
}

} // verus!

verus! {

pub(crate) open spec fn plain_tokens(t: TagModel) -> Seq<SpecToken>
    decreases t,
{
    match t {
        TagModel::Bool => seq![SpecToken::BoolType],
        TagModel::U8 => seq![SpecToken::U8Type],
        TagModel::U64 => seq![SpecToken::U64Type],
        TagModel::U128 => seq![SpecToken::U128Type],
        TagModel::Address => seq![SpecToken::AddressType],
        TagModel::Signer => seq![SpecToken::SignerType],
        TagModel::Vector(inner) => seq![SpecToken::VectorType, SpecToken::Lt] + plain_tokens(*inner)
            + seq![SpecToken::Gt],
        TagModel::Struct(_) => Seq::empty(),
    }
}

pub(crate) proof fn lemma_lex_vector_prefix(r: Seq<char>)
    ensures
        lex_from(seq!['v', 'e', 'c', 't', 'o', 'r', '<'] + r, 0) == crate::token::prepend(
            seq![SpecToken::VectorType, SpecToken::Lt],
            lex_from(r, 0),
        ),
{
    let s = seq!['v', 'e', 'c', 't', 'o', 'r', '<'] + r;
    assert(run_end(s, 6, CharClass::Ident) == 6);
    assert(run_end(s, 5, CharClass::Ident) == 6);
    assert(run_end(s, 4, CharClass::Ident) == 6);
    assert(run_end(s, 3, CharClass::Ident) == 6);
    assert(run_end(s, 2, CharClass::Ident) == 6);
    assert(run_end(s, 1, CharClass::Ident) == 6);
    assert(s.subrange(0, 6) =~= seq!['v', 'e', 'c', 't', 'o', 'r']);
    assert(lex_one(s, 0) == Ok::<(SpecToken, int), ParseError>((SpecToken::VectorType, 6)));
    assert(lex_one(s, 6) == Ok::<(SpecToken, int), ParseError>((SpecToken::Lt, 7)));
    lemma_lex_from_suffix(s, 7);
    assert(s.subrange(7, s.len() as int) =~= r);
    match lex_from(s, 7) {
        Ok(x) => {
            assert(lex_from(s, 6) == Ok::<Seq<SpecToken>, ParseError>(seq![SpecToken::Lt] + x));
            assert(seq![SpecToken::VectorType] + (seq![SpecToken::Lt] + x) =~= seq![
                SpecToken::VectorType,
                SpecToken::Lt,
            ] + x);
        },
        Err(e) => {
            assert(lex_from(s, 6) == Err::<Seq<SpecToken>, ParseError>(e));
        },
    }
}

pub(crate) proof fn lemma_lex_gt_prefix(r: Seq<char>)
    ensures
        lex_from(seq!['>'] + r, 0) == crate::token::prepend(seq![SpecToken::Gt], lex_from(r, 0)),
{
    let s = seq!['>'] + r;
    assert(lex_one(s, 0) == Ok::<(SpecToken, int), ParseError>((SpecToken::Gt, 1)));
    lemma_lex_from_suffix(s, 1);
    assert(s.subrange(1, s.len() as int) =~= r);
}

pub(crate) proof fn lemma_lex_keyword(w: Seq<char>, rest: Seq<char>)
    requires
        w.len() > 0,
        ('a' <= w[0] && w[0] <= 'z'),
        w[0] != 'b' && w[0] != 'x' || w.len() > 1 && w[1] != '"',
        forall|j: int| 0 <= j < w.len() ==> is_ident_char(#[trigger] w[j]),
        rest.len() == 0 || rest[0] == '>' || rest[0] == ',',
    ensures
        lex_from(w + rest, 0) == crate::token::prepend(seq![spec_name_token(w)], lex_from(rest, 0)),
{
    let s = w + rest;
    let n = w.len() as int;
    assert forall|j: int| 1 <= j < n implies in_class(#[trigger] s[j], CharClass::Ident) by {
        assert(s[j] == w[j]);
    }
    lemma_run_end_upto(s, 1, n, CharClass::Ident);
    assert(s.subrange(0, n) =~= w);
    assert(lex_one(s, 0) == Ok::<(SpecToken, int), ParseError>((spec_name_token(w), n)));
    lemma_lex_from_suffix(s, n);
    assert(s.subrange(n, s.len() as int) =~= rest);
}

} // verus!
