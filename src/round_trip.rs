//! The round trip between canonical text and type tags.

use vstd::prelude::*;
use crate::laws::{
    lemma_hex_round_trip, lemma_lex_from_suffix, lemma_lex_gt_prefix, lemma_lex_keyword,
    lemma_lex_vector_prefix, lemma_run_end_upto, lemma_strip_plain, plain_tokens,
};
use crate::parser::{spec_type_tag, strip_ws, type_tag_of};
use crate::text::{hex_text, is_hex_digit};
use crate::token::{in_class, lex_from, lex_one, spec_name_token, CharClass, SpecToken};
use crate::types::{is_ident_char, ParseError, StructModel, TagModel, MAX_TYPE_TAG_NESTING};

verus! {

broadcast use
    vstd::seq::axiom_seq_index_decreases,
    vstd::seq::axiom_seq_subrange_decreases,
;

/// A name that reads back as the same name: a letter, then identifier characters, and
/// no keyword.
pub open spec fn is_plain_name(n: Seq<char>) -> bool {
    &&& n.len() > 0
    &&& crate::token::is_letter(n[0])
    &&& forall|j: int| 0 <= j < n.len() ==> is_ident_char(#[trigger] n[j])
    &&& spec_name_token(n) == SpecToken::Name(n)
}

/// A type tag whose canonical text reads back as itself: every address has the width
/// of an account address and every module and struct name is a plain name.
pub open spec fn is_canonical(t: TagModel) -> bool
    decreases t,
{
    match t {
        TagModel::Vector(inner) => is_canonical(*inner),
        TagModel::Struct(st) => {
            &&& st.address.len() == crate::types::ADDRESS_LENGTH
            &&& is_plain_name(st.module)
            &&& is_plain_name(st.name)
            &&& forall|i: int| 0 <= i < st.type_params.len() ==> is_canonical(#[trigger] st.type_params[i])
        },
        _ => true,
    }
}

/// How deeply a type tag nests: vectors and struct type arguments each add a level.
pub open spec fn nesting(t: TagModel) -> nat
    decreases t,
{
    match t {
        TagModel::Vector(inner) => 1 + nesting(*inner),
        TagModel::Struct(st) => if st.type_params.len() == 0 {
            0
        } else {
            1 + max_nesting(st.type_params)
        },
        _ => 0,
    }
}

/// The deepest nesting among the tags.
pub open spec fn max_nesting(s: Seq<TagModel>) -> nat
    decreases s,
{
    if s.len() == 0 {
        0
    } else {
        let a = max_nesting(s.drop_last());
        let b = nesting(s.last());
        if a >= b {
            a
        } else {
            b
        }
    }
}

spec fn address_text(b: Seq<u8>) -> Seq<char> {
    seq!['0', 'x'] + crate::render::short_hex(b)
}

spec fn raw_toks(t: TagModel) -> Seq<SpecToken>
    decreases t,
{
    match t {
        TagModel::Vector(inner) => seq![SpecToken::VectorType, SpecToken::Lt] + raw_toks(*inner)
            + seq![SpecToken::Gt],
        TagModel::Struct(st) => seq![
            SpecToken::Address(address_text(st.address)),
            SpecToken::ColonColon,
            SpecToken::Name(st.module),
            SpecToken::ColonColon,
            SpecToken::Name(st.name),
        ] + if st.type_params.len() == 0 {
            Seq::empty()
        } else {
            seq![SpecToken::Lt] + raw_list(st.type_params) + seq![SpecToken::Gt]
        },
        _ => plain_tokens(t),
    }
}

spec fn raw_list(s: Seq<TagModel>) -> Seq<SpecToken>
    decreases s,
{
    if s.len() == 0 {
        Seq::empty()
    } else if s.len() == 1 {
        raw_toks(s[0])
    } else {
        raw_list(s.drop_last()) + seq![SpecToken::Comma, SpecToken::Whitespace] + raw_toks(s.last())
    }
}

proof fn lemma_trim_suffix(h: Seq<char>)
    ensures
        exists|k: int|
            0 <= k <= h.len() && #[trigger] h.subrange(k, h.len() as int) == crate::render::trim_zeros(h) && (
            forall|j: int| 0 <= j < k ==> #[trigger] h[j] == '0'),
    decreases h.len(),
{
    if h.len() > 0 && h[0] == '0' {
        lemma_trim_suffix(h.drop_first());
        let k = choose|k: int|
            0 <= k <= h.drop_first().len() && #[trigger] h.drop_first().subrange(
                k,
                h.drop_first().len() as int,
            ) == crate::render::trim_zeros(h.drop_first()) && (forall|j: int|
                0 <= j < k ==> #[trigger] h.drop_first()[j] == '0');
        assert(h.subrange(k + 1, h.len() as int) =~= h.drop_first().subrange(k, h.drop_first().len() as int));
        assert forall|j: int| 0 <= j < k + 1 implies #[trigger] h[j] == '0' by {
            if j > 0 {
                assert(h[j] == h.drop_first()[j - 1]);
            }
        }
    } else {
        assert(h.subrange(0, h.len() as int) =~= h);
    }
}

proof fn lemma_short_hex(b: Seq<u8>)
    requires
        b.len() == crate::types::ADDRESS_LENGTH,
    ensures
        crate::render::short_hex(b).len() > 0,
        crate::render::short_hex(b).len() <= 2 * crate::types::ADDRESS_LENGTH,
        forall|j: int| 0 <= j < crate::render::short_hex(b).len() ==> is_hex_digit(#[trigger] crate::render::short_hex(b)[j]),
        crate::types::address_of_literal(address_text(b)) == Some(b),
{
    let h = hex_text(b);
    lemma_hex_round_trip(b);
    lemma_trim_suffix(h);
    let k = choose|k: int|
        0 <= k <= h.len() && #[trigger] h.subrange(k, h.len() as int) == crate::render::trim_zeros(h) && (forall|j: int|
            0 <= j < k ==> #[trigger] h[j] == '0');
    let sh = crate::render::short_hex(b);
    let lit = address_text(b);
    assert(lit.subrange(2, lit.len() as int) =~= sh);
    if k < h.len() {
        assert(sh == h.subrange(k, h.len() as int));
        assert forall|j: int| 0 <= j < sh.len() implies is_hex_digit(#[trigger] sh[j]) by {
            assert(sh[j] == h[k + j]);
        }
        assert(crate::types::padded_digits(sh) =~= h);
    } else {
        assert(sh =~= seq!['0']);
        assert(crate::types::padded_digits(sh) =~= h);
    }
}

proof fn lemma_render_start(t: TagModel)
    ensures
        crate::render::render_tag(t).len() > 0,
        crate::token::is_letter(crate::render::render_tag(t)[0]) || crate::render::render_tag(t)[0]
            == '0',
{
}

proof fn lemma_lex_name(w: Seq<char>, rest: Seq<char>)
    requires
        w.len() > 0,
        crate::token::is_letter(w[0]),
        forall|j: int| 0 <= j < w.len() ==> is_ident_char(#[trigger] w[j]),
        rest.len() == 0 || !is_ident_char(rest[0]) && rest[0] != '"',
    ensures
        lex_from(w + rest, 0) == crate::token::prepend(seq![spec_name_token(w)], lex_from(rest, 0)),
{
    let s = w + rest;
    let n = w.len() as int;
    assert forall|j: int| 1 <= j < n implies in_class(#[trigger] s[j], CharClass::Ident) by {
        assert(s[j] == w[j]);
    }
    lemma_run_end_upto(s, 1, n, CharClass::Ident);
    if n > 1 {
        assert(is_ident_char(w[1]));
    }
    assert(s.subrange(0, n) =~= w);
    assert(lex_one(s, 0) == Ok::<(SpecToken, int), ParseError>((spec_name_token(w), n)));
    lemma_lex_from_suffix(s, n);
    assert(s.subrange(n, s.len() as int) =~= rest);
}

proof fn lemma_lex_single(c: char, t: SpecToken, r: Seq<char>)
    requires
        lex_one(seq![c] + r, 0) == Ok::<(SpecToken, int), ParseError>((t, 1)),
    ensures
        lex_from(seq![c] + r, 0) == crate::token::prepend(seq![t], lex_from(r, 0)),
{
    let s = seq![c] + r;
    lemma_lex_from_suffix(s, 1);
    assert(s.subrange(1, s.len() as int) =~= r);
}

proof fn lemma_lex_colons(r: Seq<char>)
    ensures
        lex_from(seq![':', ':'] + r, 0) == crate::token::prepend(seq![SpecToken::ColonColon], lex_from(r, 0)),
{
    let s = seq![':', ':'] + r;
    assert(lex_one(s, 0) == Ok::<(SpecToken, int), ParseError>((SpecToken::ColonColon, 2)));
    lemma_lex_from_suffix(s, 2);
    assert(s.subrange(2, s.len() as int) =~= r);
}

proof fn lemma_lex_address(b: Seq<u8>, r: Seq<char>)
    requires
        b.len() == crate::types::ADDRESS_LENGTH,
        r.len() > 0 && r[0] == ':',
    ensures
        lex_from(address_text(b) + r, 0) == crate::token::prepend(
            seq![SpecToken::Address(address_text(b))],
            lex_from(r, 0),
        ),
{
    lemma_short_hex(b);
    let sh = crate::render::short_hex(b);
    let s = address_text(b) + r;
    let e = 2 + sh.len() as int;
    assert forall|j: int| 2 <= j < e implies in_class(#[trigger] s[j], CharClass::Hex) by {
        assert(s[j] == sh[j - 2]);
    }
    assert(s[e] == ':');
    lemma_run_end_upto(s, 2, e, CharClass::Hex);
    assert(s[2] == sh[0]);
    assert(seq!['0', 'x'] + s.subrange(2, e) =~= address_text(b));
    assert(lex_one(s, 0) == Ok::<(SpecToken, int), ParseError>((SpecToken::Address(address_text(b)), e)));
    lemma_lex_from_suffix(s, e);
    assert(s.subrange(e, s.len() as int) =~= r);
}

} // verus!

verus! {

proof fn lemma_lex_tag(t: TagModel, rest: Seq<char>)
    requires
        is_canonical(t),
        rest.len() == 0 || rest[0] == '>' || rest[0] == ',',
    ensures
        lex_from(crate::render::render_tag(t) + rest, 0) == crate::token::prepend(
            raw_toks(t),
            lex_from(rest, 0),
        ),
    decreases t, 1int,
{
    match t {
        TagModel::Vector(inner) => {
            let ri = crate::render::render_tag(*inner);
            let v = seq!['v', 'e', 'c', 't', 'o', 'r', '<'];
            let tail = seq!['>'] + rest;
            lemma_lex_tag(*inner, tail);
            lemma_lex_gt_prefix(rest);
            assert(crate::render::render_tag(t) + rest =~= v + (ri + tail));
            lemma_lex_vector_prefix(ri + tail);
            match lex_from(rest, 0) {
                Ok(x) => {
                    assert(seq![SpecToken::VectorType, SpecToken::Lt] + (raw_toks(*inner) + (
                    seq![SpecToken::Gt] + x)) =~= raw_toks(t) + x);
                },
                Err(_) => {},
            }
        },
        TagModel::Struct(_) => {
            lemma_lex_struct(t, rest);
        },
        _ => {
            lemma_lex_keyword(crate::render::render_tag(t), rest);
        },
    }
}

#[verifier::spinoff_prover]
#[verifier::rlimit(100)]
proof fn lemma_lex_struct(t: TagModel, rest: Seq<char>)
    requires
        t is Struct,
        is_canonical(t),
        rest.len() == 0 || rest[0] == '>' || rest[0] == ',',
    ensures
        lex_from(crate::render::render_tag(t) + rest, 0) == crate::token::prepend(
            raw_toks(t),
            lex_from(rest, 0),
        ),
    decreases t, 0int,
{
    let st = t->Struct_0;
            let params = st.type_params;
            let p: Seq<char> = if params.len() == 0 {
                Seq::empty()
            } else {
                seq!['<'] + crate::render::render_list(params) + seq!['>']
            };
            let pr = p + rest;
            let name_part = st.name + pr;
            let after_module = seq![':', ':'] + name_part;
            let module_part = st.module + after_module;
            let after_address = seq![':', ':'] + module_part;
            assert(crate::render::render_tag(t) + rest =~= address_text(st.address) + after_address);
            let ptoks: Seq<SpecToken> = if params.len() == 0 {
                Seq::empty()
            } else {
                seq![SpecToken::Lt] + raw_list(params) + seq![SpecToken::Gt]
            };
            // the type arguments
            if params.len() == 0 {
                assert(pr =~= rest);
                match lex_from(rest, 0) {
                    Ok(x) => {
                        assert(ptoks + x =~= x);
                    },
                    Err(_) => {},
                }
            } else {
                let lr = seq!['>'] + rest;
                lemma_lex_list(params, lr);
                lemma_lex_gt_prefix(rest);
                let inner = crate::render::render_list(params) + lr;
                assert(pr =~= seq!['<'] + inner);
                assert(lex_one(seq!['<'] + inner, 0) == Ok::<(SpecToken, int), ParseError>((SpecToken::Lt, 1)));
                lemma_lex_single('<', SpecToken::Lt, inner);
                match lex_from(rest, 0) {
                    Ok(x) => {
                        assert(seq![SpecToken::Lt] + (raw_list(params) + (seq![SpecToken::Gt] + x))
                            =~= ptoks + x);
                    },
                    Err(_) => {},
                }
            }
            // the names and the address
            if pr.len() > 0 {
                assert(pr[0] == '<' || pr[0] == '>' || pr[0] == ',');
            }
            lemma_lex_name(st.name, pr);
            lemma_lex_colons(name_part);
            assert(after_module[0] == ':');
            lemma_lex_name(st.module, after_module);
            lemma_lex_colons(module_part);
            lemma_lex_address(st.address, after_address);
            match lex_from(pr, 0) {
                Ok(y) => {
                    assert(seq![SpecToken::Address(address_text(st.address))] + (seq![SpecToken::ColonColon]
                        + (seq![SpecToken::Name(st.module)] + (seq![SpecToken::ColonColon] + (seq![
                        SpecToken::Name(st.name)] + y)))) =~= seq![
                        SpecToken::Address(address_text(st.address)),
                        SpecToken::ColonColon,
                        SpecToken::Name(st.module),
                        SpecToken::ColonColon,
                        SpecToken::Name(st.name),
                    ] + y);
                    match lex_from(rest, 0) {
                        Ok(x) => {
                            assert(seq![
                                SpecToken::Address(address_text(st.address)),
                                SpecToken::ColonColon,
                                SpecToken::Name(st.module),
                                SpecToken::ColonColon,
                                SpecToken::Name(st.name),
                            ] + (ptoks + x) =~= raw_toks(t) + x);
                        },
                        Err(_) => {},
                    }
                },
                Err(_) => {},
            }
        
}

proof fn lemma_lex_list(s: Seq<TagModel>, rest: Seq<char>)
    requires
        s.len() > 0,
        forall|i: int| 0 <= i < s.len() ==> is_canonical(#[trigger] s[i]),
        rest.len() > 0 && (rest[0] == '>' || rest[0] == ','),
    ensures
        lex_from(crate::render::render_list(s) + rest, 0) == crate::token::prepend(
            raw_list(s),
            lex_from(rest, 0),
        ),
    decreases s, 2int,
{
    if s.len() == 1 {
        lemma_lex_tag(s[0], rest);
    } else {
        let last = s.last();
        let rl = crate::render::render_tag(last);
        let x = rl + rest;
        let tail = seq![',', ' '] + x;
        lemma_lex_list(s.drop_last(), tail);
        assert(crate::render::render_list(s) + rest =~= crate::render::render_list(s.drop_last()) + tail);
        lemma_lex_tag(last, rest);
        lemma_render_start(last);
        // ", " then the last tag
        let sp = seq![' '] + x;
        assert(tail =~= seq![','] + sp);
        assert(lex_one(seq![','] + sp, 0) == Ok::<(SpecToken, int), ParseError>((SpecToken::Comma, 1)));
        lemma_lex_single(',', SpecToken::Comma, sp);
        assert(x[0] == rl[0]);
        lemma_run_end_upto(sp, 0, 1, CharClass::Space);
        assert(lex_one(sp, 0) == Ok::<(SpecToken, int), ParseError>((SpecToken::Whitespace, 1)));
        lemma_lex_single(' ', SpecToken::Whitespace, x);
        match lex_from(rest, 0) {
            Ok(y) => {
                assert(raw_list(s.drop_last()) + (seq![SpecToken::Comma] + (seq![SpecToken::Whitespace]
                    + (raw_toks(last) + y))) =~= raw_list(s) + y);
            },
            Err(_) => {},
        }
    }
}

} // verus!

verus! {

spec fn struct_head_toks(st: StructModel) -> Seq<SpecToken> {
    seq![
        SpecToken::Address(address_text(st.address)),
        SpecToken::ColonColon,
        SpecToken::Name(st.module),
        SpecToken::ColonColon,
        SpecToken::Name(st.name),
    ]
}

spec fn clean_toks(t: TagModel) -> Seq<SpecToken>
    decreases t,
{
    match t {
        TagModel::Vector(inner) => seq![SpecToken::VectorType, SpecToken::Lt] + clean_toks(*inner)
            + seq![SpecToken::Gt],
        TagModel::Struct(st) => struct_head_toks(st) + if st.type_params.len() == 0 {
            Seq::empty()
        } else {
            seq![SpecToken::Lt] + clean_list(st.type_params) + seq![SpecToken::Gt]
        },
        _ => plain_tokens(t),
    }
}

spec fn clean_list(s: Seq<TagModel>) -> Seq<SpecToken>
    decreases s,
{
    if s.len() == 0 {
        Seq::empty()
    } else if s.len() == 1 {
        clean_toks(s[0])
    } else {
        clean_list(s.drop_last()) + seq![SpecToken::Comma] + clean_toks(s.last())
    }
}

proof fn lemma_strip_concat(a: Seq<SpecToken>, b: Seq<SpecToken>)
    ensures
        strip_ws(a + b) == strip_ws(a) + strip_ws(b),
    decreases b.len(),
{
    if b.len() == 0 {
        assert(a + b =~= a);
        assert(strip_ws(a) + strip_ws(b) =~= strip_ws(a));
    } else {
        lemma_strip_concat(a, b.drop_last());
        assert((a + b).drop_last() =~= a + b.drop_last());
        if b.last() is Whitespace {
        } else {
            assert(strip_ws(a) + strip_ws(b.drop_last()).push(b.last()) =~= (strip_ws(a) + strip_ws(
                b.drop_last(),
            )).push(b.last()));
        }
    }
}

proof fn lemma_strip_single(t: SpecToken)
    ensures
        strip_ws(seq![t]) == if t is Whitespace { Seq::<SpecToken>::empty() } else { seq![t] },
{
    assert(seq![t].drop_last() =~= Seq::<SpecToken>::empty());
    assert(strip_ws(Seq::<SpecToken>::empty()) == Seq::<SpecToken>::empty());
    assert(Seq::<SpecToken>::empty().push(t) =~= seq![t]);
}

proof fn lemma_strip_plain_seq(p: Seq<SpecToken>)
    requires
        forall|i: int| 0 <= i < p.len() ==> !(#[trigger] p[i] is Whitespace),
    ensures
        strip_ws(p) == p,
{
    lemma_strip_plain(p);
}

proof fn lemma_clean_tag(t: TagModel)
    ensures
        strip_ws(raw_toks(t)) == clean_toks(t),
    decreases t, 0int,
{
    match t {
        TagModel::Vector(inner) => {
            lemma_clean_tag(*inner);
            let a = seq![SpecToken::VectorType, SpecToken::Lt];
            lemma_strip_concat(a + raw_toks(*inner), seq![SpecToken::Gt]);
            lemma_strip_concat(a, raw_toks(*inner));
            lemma_strip_plain_seq(a);
            lemma_strip_single(SpecToken::Gt);
        },
        TagModel::Struct(st) => {
            let h = struct_head_toks(st);
            lemma_strip_plain_seq(h);
            if st.type_params.len() == 0 {
                assert(raw_toks(t) =~= h);
                assert(clean_toks(t) =~= h);
            } else {
                let l = raw_list(st.type_params);
                lemma_clean_list(st.type_params);
                lemma_strip_concat(h, seq![SpecToken::Lt] + l + seq![SpecToken::Gt]);
                lemma_strip_concat(seq![SpecToken::Lt] + l, seq![SpecToken::Gt]);
                lemma_strip_concat(seq![SpecToken::Lt], l);
                lemma_strip_single(SpecToken::Lt);
                lemma_strip_single(SpecToken::Gt);
            }
        },
        _ => {
            lemma_strip_single(plain_tokens(t)[0]);
            assert(plain_tokens(t) =~= seq![plain_tokens(t)[0]]);
        },
    }
}

proof fn lemma_clean_list(s: Seq<TagModel>)
    ensures
        strip_ws(raw_list(s)) == clean_list(s),
    decreases s, 1int,
{
    if s.len() == 0 {
    } else if s.len() == 1 {
        lemma_clean_tag(s[0]);
    } else {
        lemma_clean_list(s.drop_last());
        lemma_clean_tag(s.last());
        let a = raw_list(s.drop_last());
        let cw = seq![SpecToken::Comma, SpecToken::Whitespace];
        lemma_strip_concat(a + cw, raw_toks(s.last()));
        lemma_strip_concat(a, cw);
        assert(cw.drop_last() =~= seq![SpecToken::Comma]);
        lemma_strip_single(SpecToken::Comma);
    }
}

} // verus!

verus! {

proof fn lemma_clean_facts(t: TagModel)
    ensures
        clean_toks(t).len() > 0,
        clean_toks(t)[0] != SpecToken::Gt,
        clean_toks(t)[0] != SpecToken::EOF,
{
}

proof fn lemma_clean_list_front(s: Seq<TagModel>)
    requires
        s.len() >= 2,
    ensures
        clean_list(s) == clean_toks(s[0]) + seq![SpecToken::Comma] + clean_list(s.drop_first()),
    decreases s.len(),
{
    let d = s.drop_last();
    let f = s.drop_first();
    if s.len() == 2 {
        assert(d =~= seq![s[0]]);
        assert(f =~= seq![s[1]]);
        assert(clean_list(d) == clean_toks(s[0]));
        assert(clean_list(f) == clean_toks(s[1]));
    } else {
        lemma_clean_list_front(d);
        assert(f.drop_last() =~= d.drop_first());
        assert(d[0] == s[0]);
        assert(f.last() == s.last());
        assert(clean_list(f) == clean_list(d.drop_first()) + seq![SpecToken::Comma] + clean_toks(s.last()));
        assert(clean_list(s) =~= clean_toks(s[0]) + seq![SpecToken::Comma] + clean_list(f));
    }
}

proof fn lemma_clean_list_first(s: Seq<TagModel>)
    requires
        s.len() >= 1,
    ensures
        clean_list(s).len() > 0,
        clean_list(s)[0] == clean_toks(s[0])[0],
{
    lemma_clean_facts(s[0]);
    if s.len() >= 2 {
        lemma_clean_list_front(s);
    }
}

proof fn lemma_max_nesting(s: Seq<TagModel>)
    ensures
        forall|i: int| 0 <= i < s.len() ==> nesting(#[trigger] s[i]) <= max_nesting(s),
    decreases s.len(),
{
    if s.len() > 0 {
        lemma_max_nesting(s.drop_last());
        assert forall|i: int| 0 <= i < s.len() implies nesting(#[trigger] s[i]) <= max_nesting(s) by {
            if i < s.len() - 1 {
                assert(s[i] == s.drop_last()[i]);
            }
        }
    }
}

pub open spec fn tag_list_items(s: Seq<TagModel>) -> Seq<crate::parser::ListItem> {
    s.map_values(|t: TagModel| crate::parser::ListItem::Tag(t))
}

proof fn lemma_parse_tag(ts: Seq<SpecToken>, pos: int, depth: int, t: TagModel)
    requires
        is_canonical(t),
        0 <= depth,
        depth + nesting(t) < MAX_TYPE_TAG_NESTING,
        0 <= pos,
        pos + clean_toks(t).len() < ts.len(),
        ts.subrange(pos, pos + clean_toks(t).len()) == clean_toks(t),
        ts[pos + clean_toks(t).len()] != SpecToken::Lt,
    ensures
        spec_type_tag(ts, pos, depth) == Ok::<(TagModel, int), ParseError>(
            (t, pos + clean_toks(t).len()),
        ),
    decreases t, 1int,
{
    let c = clean_toks(t);
    assert(ts[pos] == c[0]);
    match t {
        TagModel::Vector(inner) => {
            let q = clean_toks(*inner);
            assert(ts[pos + 1] == c[1]);
            assert(ts.subrange(pos + 2, pos + 2 + q.len()) =~= q) by {
                assert forall|i: int| 0 <= i < q.len() implies ts.subrange(pos + 2, pos + 2 + q.len())[i]
                    == q[i] by {
                    assert(ts[pos + 2 + i] == c[2 + i]);
                }
            }
            assert(ts[pos + 2 + q.len()] == c[2 + q.len() as int]);
            lemma_parse_tag(ts, pos + 2, depth + 1, *inner);
        },
        TagModel::Struct(_) => {
            lemma_parse_struct(ts, pos, depth, t);
        },
        _ => {},
    }
}

#[verifier::spinoff_prover]
#[verifier::rlimit(100)]
proof fn lemma_parse_struct(ts: Seq<SpecToken>, pos: int, depth: int, t: TagModel)
    requires
        t is Struct,
        is_canonical(t),
        0 <= depth,
        depth + nesting(t) < MAX_TYPE_TAG_NESTING,
        0 <= pos,
        pos + clean_toks(t).len() < ts.len(),
        ts.subrange(pos, pos + clean_toks(t).len()) == clean_toks(t),
        ts[pos + clean_toks(t).len()] != SpecToken::Lt,
    ensures
        spec_type_tag(ts, pos, depth) == Ok::<(TagModel, int), ParseError>(
            (t, pos + clean_toks(t).len()),
        ),
    decreases t, 0int,
{
    let st = t->Struct_0;
    let c = clean_toks(t);
    let n = c.len() as int;
    assert forall|i: int| 0 <= i < n implies #[trigger] ts[pos + i] == c[i] by {
        assert(ts.subrange(pos, pos + n)[i] == c[i]);
    }
    assert(ts[pos] == c[0]);
    assert(ts[pos + 1] == c[1]);
    assert(ts[pos + 2] == c[2]);
    assert(ts[pos + 3] == c[3]);
    assert(ts[pos + 4] == c[4]);
    lemma_short_hex(st.address);
    let params = st.type_params;
    assert(crate::types::is_valid_identifier(st.module));
    assert(crate::types::is_valid_identifier(st.name));
    if params.len() == 0 {
        assert(n == 5);
        assert(params =~= Seq::<TagModel>::empty());
    } else {
        let l = clean_list(params);
        let m = l.len() as int;
        assert(ts[pos + 5] == c[5]);
        lemma_clean_list_first(params);
        assert(ts[pos + 6] == c[6]);
        lemma_max_nesting(params);
        assert(ts[pos + 6 + m] == c[6 + m]);
        assert(ts.subrange(pos + 6, pos + 6 + m) =~= l) by {
            assert forall|i: int| 0 <= i < m implies ts.subrange(pos + 6, pos + 6 + m)[i] == l[i] by {
                assert(ts[pos + 6 + i] == c[6 + i]);
            }
        }
        lemma_parse_items(ts, pos + 6, depth + 1, params);
        assert(crate::parser::tags_of(tag_list_items(params)) =~= params);
    }
}

proof fn lemma_parse_items(ts: Seq<SpecToken>, pos: int, depth: int, s: Seq<TagModel>)
    requires
        s.len() > 0,
        forall|i: int| 0 <= i < s.len() ==> is_canonical(#[trigger] s[i]),
        0 <= depth,
        forall|i: int| 0 <= i < s.len() ==> depth + nesting(#[trigger] s[i]) < MAX_TYPE_TAG_NESTING,
        0 <= pos,
        pos + clean_list(s).len() < ts.len(),
        ts.subrange(pos, pos + clean_list(s).len()) == clean_list(s),
        ts[pos + clean_list(s).len()] == SpecToken::Gt,
    ensures
        crate::parser::spec_items(ts, pos, depth, crate::parser::ItemKind::Tag, SpecToken::Gt)
            == Ok::<(Seq<crate::parser::ListItem>, int), ParseError>(
            (tag_list_items(s), pos + clean_list(s).len()),
        ),
        crate::parser::spec_list(ts, pos, depth, crate::parser::ItemKind::Tag, SpecToken::Gt)
            == Ok::<(Seq<crate::parser::ListItem>, int), ParseError>(
            (tag_list_items(s), pos + clean_list(s).len()),
        ),
    decreases s, 2int,
{
    let l = clean_list(s);
    let c0 = clean_toks(s[0]);
    lemma_clean_list_first(s);
    assert(ts[pos] == l[0]);
    if s.len() == 1 {
        assert(tag_list_items(s) =~= seq![crate::parser::ListItem::Tag(s[0])]);
        lemma_parse_tag(ts, pos, depth, s[0]);
    } else {
        lemma_clean_list_front(s);
        let rest = s.drop_first();
        let lr = clean_list(rest);
        let k = c0.len() as int;
        assert(ts.subrange(pos, pos + k) =~= c0) by {
            assert forall|i: int| 0 <= i < k implies ts.subrange(pos, pos + k)[i] == c0[i] by {
                assert(ts[pos + i] == l[i]);
            }
        }
        assert(ts[pos + k] == l[k]);
        lemma_parse_tag(ts, pos, depth, s[0]);
        assert(ts.subrange(pos + k + 1, pos + k + 1 + lr.len()) =~= lr) by {
            assert forall|i: int| 0 <= i < lr.len() implies ts.subrange(pos + k + 1, pos + k + 1 + lr.len())[i]
                == lr[i] by {
                assert(ts[pos + k + 1 + i] == l[k + 1 + i]);
            }
        }
        lemma_clean_list_first(rest);
        assert(ts[pos + k + 1] == lr[0]);
        assert(lr[0] == clean_toks(rest[0])[0]);
        lemma_clean_facts(rest[0]);
        assert forall|i: int| 0 <= i < rest.len() implies is_canonical(#[trigger] rest[i]) && depth
            + nesting(rest[i]) < MAX_TYPE_TAG_NESTING by {
            assert(rest[i] == s[i + 1]);
        }
        lemma_parse_items(ts, pos + k + 1, depth, rest);
        assert(seq![crate::parser::ListItem::Tag(s[0])] + tag_list_items(rest) =~= tag_list_items(s));
    }
}

/// Parsing the canonical text of a type tag gives the tag back, for every tag whose
/// addresses have the width of an account address, whose names are plain names, and
/// which nests less deeply than the limit.
pub proof fn lemma_type_tag_round_trip(t: TagModel)
    requires
        is_canonical(t),
        nesting(t) < MAX_TYPE_TAG_NESTING,
    ensures
        type_tag_of(crate::render::render_tag(t)) == Ok::<TagModel, ParseError>(t),
{
    let r = crate::render::render_tag(t);
    lemma_lex_tag(t, Seq::empty());
    assert(r + Seq::<char>::empty() =~= r);
    let raw = raw_toks(t);
    assert(raw + Seq::<SpecToken>::empty() =~= raw);
    lemma_clean_tag(t);
    let c = clean_toks(t);
    let ts = c.push(SpecToken::EOF);
    assert(ts.subrange(0, c.len() as int) =~= c);
    lemma_parse_tag(ts, 0, 0, t);
}

/// A struct tag written in canonical text reads back as itself, and its canonical text
/// is the text it was read from.
pub proof fn lemma_struct_tag_round_trip(st: StructModel)
    requires
        is_canonical(TagModel::Struct(st)),
        nesting(TagModel::Struct(st)) < MAX_TYPE_TAG_NESTING,
    ensures
        crate::parser::struct_tag_of(crate::render::render_struct(st)) == Some(st),
        match crate::parser::struct_tag_of(crate::render::render_struct(st)) {
            Some(m) => crate::render::render_struct(m) == crate::render::render_struct(st),
            None => false,
        },
{
    lemma_type_tag_round_trip(TagModel::Struct(st));
}

} // verus!
