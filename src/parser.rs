//! The recursive-descent grammar and the public entry points.

use vstd::prelude::*;
use crate::text::{chars_of, hex_bytes, hex_decode, is_hex_text, string_of};
use crate::token::{is_bare, lex_from, tokenize, views_of, SpecToken, Token};
use crate::types::{
    address_of_literal, is_valid_identifier, models_of, AccountAddress, ArgModel, Identifier,
    ParseError, StructModel, StructTag, TagModel, TransactionArgument, TypeTag,
    MAX_TYPE_TAG_NESTING,
};

verus! {

/// The tokens without the whitespace runs.
pub open spec fn strip_ws(ts: Seq<SpecToken>) -> Seq<SpecToken>
    decreases ts.len(),
{
    if ts.len() == 0 {
        Seq::empty()
    } else if ts.last() is Whitespace {
        strip_ws(ts.drop_last())
    } else {
        strip_ws(ts.drop_last()).push(ts.last())
    }
}

/// What the grammar reads: the tokens of `s` without whitespace, then the end marker.
pub open spec fn spec_tokens(s: Seq<char>) -> Result<Seq<SpecToken>, ParseError> {
    match lex_from(s, 0) {
        Ok(ts) => Ok(strip_ws(ts).push(SpecToken::EOF)),
        Err(e) => Err(e),
    }
}

pub open spec fn tok_is(ts: Seq<SpecToken>, p: int, t: SpecToken) -> bool {
    0 <= p < ts.len() && ts[p] == t
}

/// The value of a run of decimal digits.
pub open spec fn decimal_value(d: Seq<char>) -> nat
    decreases d.len(),
{
    if d.len() == 0 {
        0
    } else {
        decimal_value(d.drop_last()) * 10 + (d.last() as int - '0' as int) as nat
    }
}

/// A non-empty run of decimal digits.
pub open spec fn is_decimal(d: Seq<char>) -> bool {
    d.len() > 0 && forall|i: int| 0 <= i < d.len() ==> '0' <= #[trigger] d[i] <= '9'
}

/// A single transaction argument at `pos`, and the position after it.
pub open spec fn spec_argument(ts: Seq<SpecToken>, pos: int) -> Result<(ArgModel, int), ParseError> {
    if pos < 0 || pos >= ts.len() {
        Err(ParseError::UnexpectedToken)
    } else {
        match ts[pos] {
            SpecToken::U8(d) => if is_decimal(d) && decimal_value(d) <= u8::MAX {
                Ok((ArgModel::U8(decimal_value(d) as u8), pos + 1))
            } else {
                Err(ParseError::InvalidNumber)
            },
            SpecToken::U64(d) => if is_decimal(d) && decimal_value(d) <= u64::MAX {
                Ok((ArgModel::U64(decimal_value(d) as u64), pos + 1))
            } else {
                Err(ParseError::InvalidNumber)
            },
            SpecToken::U128(d) => if is_decimal(d) && decimal_value(d) <= u128::MAX {
                Ok((ArgModel::U128(decimal_value(d) as u128), pos + 1))
            } else {
                Err(ParseError::InvalidNumber)
            },
            SpecToken::True => Ok((ArgModel::Bool(true), pos + 1)),
            SpecToken::False => Ok((ArgModel::Bool(false), pos + 1)),
            SpecToken::Address(a) => match address_of_literal(a) {
                Some(b) => Ok((ArgModel::Address(b), pos + 1)),
                None => Err(ParseError::InvalidAddress),
            },
            SpecToken::Bytes(h) => if is_hex_text(h) {
                Ok((ArgModel::U8Vector(hex_bytes(h)), pos + 1))
            } else {
                Err(ParseError::InvalidHex)
            },
            _ => Err(ParseError::UnexpectedToken),
        }
    }
}

/// What a list holds.
#[derive(Clone, Copy, PartialEq, Eq, Structural)]
pub enum ItemKind {
    Name,
    Tag,
    Argument,
}

/// One item of a list, as read.
pub enum ListItem {
    Name(Seq<char>),
    Tag(TagModel),
    Argument(ArgModel),
}

/// One list item of the given kind at `pos`, type tags at nesting `depth`.
pub open spec fn spec_item(ts: Seq<SpecToken>, pos: int, depth: int, kind: ItemKind) -> Result<
    (ListItem, int),
    ParseError,
>
    decreases MAX_TYPE_TAG_NESTING - depth, ts.len() - pos, 1int,
{
    match kind {
        ItemKind::Name => if 0 <= pos < ts.len() && ts[pos] is Name {
            Ok((ListItem::Name(ts[pos]->Name_0), pos + 1))
        } else {
            Err(ParseError::UnexpectedToken)
        },
        ItemKind::Tag => match spec_type_tag(ts, pos, depth) {
            Ok((t, p)) => Ok((ListItem::Tag(t), p)),
            Err(e) => Err(e),
        },
        ItemKind::Argument => match spec_argument(ts, pos) {
            Ok((a, p)) => Ok((ListItem::Argument(a), p)),
            Err(e) => Err(e),
        },
    }
}

/// At least one item, each but the last followed by a comma, up to `end`; a comma
/// may stand before `end`. The position is that of `end`, which is left unread.
pub open spec fn spec_items(
    ts: Seq<SpecToken>,
    pos: int,
    depth: int,
    kind: ItemKind,
    end: SpecToken,
) -> Result<(Seq<ListItem>, int), ParseError>
    decreases MAX_TYPE_TAG_NESTING - depth, ts.len() - pos, 2int,
{
    match spec_item(ts, pos, depth, kind) {
        Err(e) => Err(e),
        Ok((t, p)) => if tok_is(ts, p, end) {
            Ok((seq![t], p))
        } else if !tok_is(ts, p, SpecToken::Comma) {
            Err(ParseError::UnexpectedToken)
        } else if tok_is(ts, p + 1, end) {
            Ok((seq![t], p + 1))
        } else if p + 1 <= pos {
            Err(ParseError::UnexpectedToken)
        } else {
            match spec_items(ts, p + 1, depth, kind, end) {
                Err(e) => Err(e),
                Ok((rest, q)) => Ok((seq![t] + rest, q)),
            }
        },
    }
}

/// A comma-separated list up to `end`, possibly empty.
pub open spec fn spec_list(
    ts: Seq<SpecToken>,
    pos: int,
    depth: int,
    kind: ItemKind,
    end: SpecToken,
) -> Result<(Seq<ListItem>, int), ParseError>
    decreases MAX_TYPE_TAG_NESTING - depth, ts.len() - pos, 3int,
{
    if tok_is(ts, pos, end) {
        Ok((Seq::empty(), pos))
    } else {
        spec_items(ts, pos, depth, kind, end)
    }
}

pub open spec fn tags_of(items: Seq<ListItem>) -> Seq<TagModel> {
    items.map_values(|i: ListItem| i->Tag_0)
}

/// A type tag at `pos`, nested `depth` deep, and the position after it.
pub open spec fn spec_type_tag(ts: Seq<SpecToken>, pos: int, depth: int) -> Result<
    (TagModel, int),
    ParseError,
>
    decreases MAX_TYPE_TAG_NESTING - depth, ts.len() - pos, 0int,
{
    if depth >= MAX_TYPE_TAG_NESTING {
        Err(ParseError::NestingLimit)
    } else if pos < 0 || pos >= ts.len() {
        Err(ParseError::UnexpectedToken)
    } else {
        match ts[pos] {
            SpecToken::U8Type => Ok((TagModel::U8, pos + 1)),
            SpecToken::U64Type => Ok((TagModel::U64, pos + 1)),
            SpecToken::U128Type => Ok((TagModel::U128, pos + 1)),
            SpecToken::BoolType => Ok((TagModel::Bool, pos + 1)),
            SpecToken::AddressType => Ok((TagModel::Address, pos + 1)),
            SpecToken::SignerType => Ok((TagModel::Signer, pos + 1)),
            SpecToken::VectorType => if !tok_is(ts, pos + 1, SpecToken::Lt) {
                Err(ParseError::UnexpectedToken)
            } else {
                match spec_type_tag(ts, pos + 2, depth + 1) {
                    Err(e) => Err(e),
                    Ok((t, p)) => if tok_is(ts, p, SpecToken::Gt) {
                        Ok((TagModel::Vector(Box::new(t)), p + 1))
                    } else {
                        Err(ParseError::UnexpectedToken)
                    },
                }
            },
            SpecToken::Address(a) => if !tok_is(ts, pos + 1, SpecToken::ColonColon) || !(pos + 2
                < ts.len() && ts[pos + 2] is Name) || !tok_is(ts, pos + 3, SpecToken::ColonColon)
                || !(pos + 4 < ts.len() && ts[pos + 4] is Name) {
                Err(ParseError::UnexpectedToken)
            } else {
                let module = ts[pos + 2]->Name_0;
                let name = ts[pos + 4]->Name_0;
                let params: Result<(Seq<TagModel>, int), ParseError> = if tok_is(
                    ts,
                    pos + 5,
                    SpecToken::Lt,
                ) {
                    match spec_list(ts, pos + 6, depth + 1, ItemKind::Tag, SpecToken::Gt) {
                        Err(e) => Err(e),
                        Ok((l, p)) => if tok_is(ts, p, SpecToken::Gt) {
                            Ok((tags_of(l), p + 1))
                        } else {
                            Err(ParseError::UnexpectedToken)
                        },
                    }
                } else {
                    Ok((Seq::empty(), pos + 5))
                };
                match params {
                    Err(e) => Err(e),
                    Ok((l, p)) => match address_of_literal(a) {
                        None => Err(ParseError::InvalidAddress),
                        Some(b) => if !is_valid_identifier(module) || !is_valid_identifier(name) {
                            Err(ParseError::InvalidIdentifier)
                        } else {
                            Ok(
                                (
                                    TagModel::Struct(
                                        StructModel {
                                            address: b,
                                            module: module,
                                            name: name,
                                            type_params: l,
                                        },
                                    ),
                                    p,
                                ),
                            )
                        },
                    },
                }
            },
            _ => Err(ParseError::UnexpectedToken),
        }
    }
}

} // verus!

verus! {

proof fn lemma_decimal_prefix(d: Seq<char>, k: int)
    requires
        0 <= k <= d.len(),
    ensures
        decimal_value(d.take(k)) <= decimal_value(d),
    decreases d.len(),
{
    if k < d.len() {
        assert(d.drop_last().take(k) =~= d.take(k));
        lemma_decimal_prefix(d.drop_last(), k);
    } else {
        assert(d.take(k) =~= d);
    }
}

/// The value of the decimal digits `d`, if they are digits and the value is at most `max`.
fn decimal_at_most(d: &Vec<char>, max: u128) -> (r: Result<u128, ParseError>)
    requires
        max >= 9,
    ensures
        is_decimal(d@) && decimal_value(d@) <= max ==> r == Ok::<u128, ParseError>(
            decimal_value(d@) as u128,
        ),
        !(is_decimal(d@) && decimal_value(d@) <= max) ==> r == Err::<u128, ParseError>(
            ParseError::InvalidNumber,
        ),
{
    if d.len() == 0 {
        return Err(ParseError::InvalidNumber);
    }
    let mut acc: u128 = 0;
    let mut i: usize = 0;
    while i < d.len()
        invariant
            i <= d.len(),
            acc == decimal_value(d@.take(i as int)),
            acc <= max,
            max >= 9,
            forall|k: int| 0 <= k < i ==> '0' <= #[trigger] d@[k] <= '9',
        decreases d.len() - i,
    {
        let c = d[i];
        if !('0' <= c && c <= '9') {
            return Err(ParseError::InvalidNumber);
        }
        let digit: u128 = (c as u32 - '0' as u32) as u128;
        assert(d@.take(i + 1).drop_last() =~= d@.take(i as int));
        assert(decimal_value(d@.take(i + 1)) == acc * 10 + digit);
        if acc > (max - digit) / 10 {
            assert(acc * 10 + digit > max) by (nonlinear_arith)
                requires
                    acc > (max - digit) / 10,
                    digit <= 9,
                    digit <= max,
            ;
            proof {
                lemma_decimal_prefix(d@, i + 1);
            }
            return Err(ParseError::InvalidNumber);
        }
        assert(acc * 10 + digit <= max) by (nonlinear_arith)
            requires
                acc <= (max - digit) / 10,
                digit <= max,
        ;
        acc = acc * 10 + digit;
        i = i + 1;
    }
    assert(d@.take(i as int) =~= d@);
    Ok(acc)
}

} // verus!

verus! {

/// A cursor over a token sequence that ends with the end marker.
pub struct Parser {
    tokens: Vec<Token>,
}

pub open spec fn tag_items(v: Seq<TypeTag>) -> Seq<ListItem> {
    v.map_values(|t: TypeTag| ListItem::Tag(t.model()))
}

pub open spec fn arg_items(v: Seq<TransactionArgument>) -> Seq<ListItem> {
    v.map_values(|a: TransactionArgument| ListItem::Argument(a.model()))
}

pub open spec fn name_items(v: Seq<String>) -> Seq<ListItem> {
    v.map_values(|s: String| ListItem::Name(s@))
}

pub open spec fn prepend_items(pre: Seq<ListItem>, r: Result<(Seq<ListItem>, int), ParseError>) -> Result<
    (Seq<ListItem>, int),
    ParseError,
> {
    match r {
        Ok((l, p)) => Ok((pre + l, p)),
        Err(e) => Err(e),
    }
}

proof fn lemma_models_of(v: Seq<TypeTag>)
    ensures
        models_of(v) == tags_of(tag_items(v)),
    decreases v.len(),
{
    if v.len() > 0 {
        lemma_models_of(v.drop_last());
        assert(tag_items(v.drop_last()) =~= tag_items(v).drop_last());
    }
    assert(models_of(v) =~= tags_of(tag_items(v)));
}

impl Parser {
    pub closed spec fn toks(&self) -> Seq<SpecToken> {
        views_of(self.tokens@)
    }

    proof fn lemma_len(&self)
        ensures
            self.toks().len() == self.tokens@.len(),
    {
    }

    pub fn new(tokens: Vec<Token>) -> (r: Parser)
        ensures
            r.toks() == views_of(tokens@),
    {
        Parser { tokens }
    }

    /// The token at `pos`, and the position after it.
    fn next(&self, pos: usize) -> (r: Result<(Token, usize), ParseError>)
        ensures
            pos < self.toks().len() ==> r is Ok && r->Ok_0.0@ == self.toks()[pos as int]
                && r->Ok_0.1 == pos + 1,
            pos >= self.toks().len() ==> r == Err::<(Token, usize), ParseError>(
                ParseError::UnexpectedToken,
            ),
    {
        if pos < self.tokens.len() {
            Ok((self.tokens[pos].duplicate(), pos + 1))
        } else {
            Err(ParseError::UnexpectedToken)
        }
    }

    fn peek(&self, pos: usize) -> (r: Option<&Token>)
        ensures
            pos < self.toks().len() ==> r is Some && r->Some_0@ == self.toks()[pos as int],
            pos >= self.toks().len() ==> r is None,
    {
        if pos < self.tokens.len() {
            Some(&self.tokens[pos])
        } else {
            None
        }
    }

    fn peek_is(&self, pos: usize, tok: &Token) -> (r: bool)
        requires
            is_bare(tok@),
        ensures
            r == tok_is(self.toks(), pos as int, tok@),
    {
        match self.peek(pos) {
            Some(t) => t.same_as(tok),
            None => false,
        }
    }

    /// Reads the token `tok` at `pos`.
    fn consume(&self, pos: usize, tok: Token) -> (r: Result<usize, ParseError>)
        requires
            is_bare(tok@),
        ensures
            r is Ok <==> tok_is(self.toks(), pos as int, tok@),
            r is Ok ==> r->Ok_0 == pos + 1,
            r is Err ==> r->Err_0 == ParseError::UnexpectedToken,
    {
        match self.next(pos) {
            Ok((t, p)) => if t.same_as(&tok) {
                Ok(p)
            } else {
                Err(ParseError::UnexpectedToken)
            },
            Err(e) => Err(e),
        }
    }

    fn parse_string(&self, pos: usize) -> (r: Result<(String, usize), ParseError>)
        ensures
            match r {
                Ok((s, p)) => spec_item(self.toks(), pos as int, 0, ItemKind::Name) == Ok::<
                    (ListItem, int),
                    ParseError,
                >((ListItem::Name(s@), p as int)),
                Err(e) => spec_item(self.toks(), pos as int, 0, ItemKind::Name) == Err::<
                    (ListItem, int),
                    ParseError,
                >(e),
            },
            r is Ok ==> pos < r->Ok_0.1 <= self.toks().len(),
    {
        match self.next(pos) {
            Ok((Token::Name(v), p)) => Ok((string_of(&v), p)),
            Ok(_) => Err(ParseError::UnexpectedToken),
            Err(e) => Err(e),
        }
    }

    fn parse_transaction_argument(&self, pos: usize) -> (r: Result<(TransactionArgument, usize), ParseError>)
        ensures
            match r {
                Ok((a, p)) => spec_argument(self.toks(), pos as int) == Ok::<(ArgModel, int), ParseError>(
                    (a.model(), p as int),
                ),
                Err(e) => spec_argument(self.toks(), pos as int) == Err::<(ArgModel, int), ParseError>(e),
            },
            r is Ok ==> pos < r->Ok_0.1 <= self.toks().len(),
    {
        match self.next(pos) {
            Ok((tok, p)) => match tok {
                Token::U8(d) => match decimal_at_most(&d, 255) {
                    Ok(n) => Ok((TransactionArgument::U8(n as u8), p)),
                    Err(e) => Err(e),
                },
                Token::U64(d) => match decimal_at_most(&d, 18446744073709551615) {
                    Ok(n) => Ok((TransactionArgument::U64(n as u64), p)),
                    Err(e) => Err(e),
                },
                Token::U128(d) => match decimal_at_most(&d, 340282366920938463463374607431768211455) {
                    Ok(n) => Ok((TransactionArgument::U128(n), p)),
                    Err(e) => Err(e),
                },
                Token::True => Ok((TransactionArgument::Bool(true), p)),
                Token::False => Ok((TransactionArgument::Bool(false), p)),
                Token::Address(a) => match AccountAddress::from_literal_chars(&a) {
                    Ok(addr) => Ok((TransactionArgument::Address(addr), p)),
                    Err(e) => Err(e),
                },
                Token::Bytes(h) => match hex_decode(&string_of(&h)) {
                    Ok(bytes) => Ok((TransactionArgument::U8Vector(bytes), p)),
                    Err(_) => Err(ParseError::InvalidHex),
                },
                _ => Err(ParseError::UnexpectedToken),
            },
            Err(e) => Err(e),
        }
    }
}

} // verus!

verus! {

impl Parser {
    /// Reads a type tag at `pos`, nested `depth` deep.
    #[verifier::spinoff_prover]
    #[verifier::rlimit(40)]
    fn parse_type_tag(&self, pos: usize, depth: u8) -> (r: Result<(TypeTag, usize), ParseError>)
        ensures
            match r {
                Ok((t, p)) => spec_type_tag(self.toks(), pos as int, depth as int) == Ok::<
                    (TagModel, int),
                    ParseError,
                >((t.model(), p as int)),
                Err(e) => spec_type_tag(self.toks(), pos as int, depth as int) == Err::<
                    (TagModel, int),
                    ParseError,
                >(e),
            },
            r is Ok ==> pos < r->Ok_0.1 <= self.toks().len(),
        decreases MAX_TYPE_TAG_NESTING as int - depth as int, self.toks().len() - pos, 0int,
    {
        let n = self.tokens.len();
        assert(self.toks().len() == n);
        if depth >= MAX_TYPE_TAG_NESTING {
            return Err(ParseError::NestingLimit);
        }
        let (tok, p) = match self.next(pos) {
            Ok(x) => x,
            Err(e) => return Err(e),
        };
        match tok {
            Token::U8Type => Ok((TypeTag::U8, p)),
            Token::U64Type => Ok((TypeTag::U64, p)),
            Token::U128Type => Ok((TypeTag::U128, p)),
            Token::BoolType => Ok((TypeTag::Bool, p)),
            Token::AddressType => Ok((TypeTag::Address, p)),
            Token::SignerType => Ok((TypeTag::Signer, p)),
            Token::VectorType => {
                let p = match self.consume(p, Token::Lt) {
                    Ok(p) => p,
                    Err(e) => return Err(e),
                };
                let (inner, p) = match self.parse_type_tag(p, depth + 1) {
                    Ok(x) => x,
                    Err(e) => return Err(e),
                };
                let p = match self.consume(p, Token::Gt) {
                    Ok(p) => p,
                    Err(e) => return Err(e),
                };
                Ok((TypeTag::Vector(Box::new(inner)), p))
            },
            Token::Address(addr) => {
                let p = match self.consume(p, Token::ColonColon) {
                    Ok(p) => p,
                    Err(e) => return Err(e),
                };
                let (module, p) = match self.next(p) {
                    Ok((Token::Name(m), p)) => (m, p),
                    Ok(_) => return Err(ParseError::UnexpectedToken),
                    Err(e) => return Err(e),
                };
                let p = match self.consume(p, Token::ColonColon) {
                    Ok(p) => p,
                    Err(e) => return Err(e),
                };
                let (name, p) = match self.next(p) {
                    Ok((Token::Name(n), p)) => (n, p),
                    Ok(_) => return Err(ParseError::UnexpectedToken),
                    Err(e) => return Err(e),
                };
                let (type_params, p) = if self.peek_is(p, &Token::Lt) {
                    let (params, q) = match self.parse_type_list(p + 1, depth + 1, &Token::Gt) {
                        Ok(x) => x,
                        Err(e) => return Err(e),
                    };
                    let q = match self.consume(q, Token::Gt) {
                        Ok(q) => q,
                        Err(e) => return Err(e),
                    };
                    proof {
                        lemma_models_of(params@);
                    }
                    (params, q)
                } else {
                    (Vec::new(), p)
                };
                let address = match AccountAddress::from_literal_chars(&addr) {
                    Ok(a) => a,
                    Err(e) => return Err(e),
                };
                let module = match Identifier::new(string_of(&module)) {
                    Ok(m) => m,
                    Err(e) => return Err(e),
                };
                let name = match Identifier::new(string_of(&name)) {
                    Ok(n) => n,
                    Err(e) => return Err(e),
                };
                let st = StructTag { address, module, name, type_params };
                proof {
                    let ts = self.toks();
                    assert(ts[pos as int] is Address);
                    assert(tok_is(ts, pos + 1, SpecToken::ColonColon));
                    assert(ts[pos + 2] is Name);
                    assert(tok_is(ts, pos + 3, SpecToken::ColonColon));
                    assert(ts[pos + 4] is Name);
                    assert(st.model().module == ts[pos + 2]->Name_0);
                    assert(st.model().address == address_of_literal(ts[pos as int]->Address_0)->Some_0);
                }
                Ok((TypeTag::Struct(Box::new(st)), p))
            },
            _ => Err(ParseError::UnexpectedToken),
        }
    }

    /// Reads a comma-separated list of type tags up to `end`, which is left unread.
    fn parse_type_list(&self, pos: usize, depth: u8, end: &Token) -> (r: Result<
        (Vec<TypeTag>, usize),
        ParseError,
    >)
        requires
            is_bare(end@),
            pos <= self.toks().len(),
        ensures
            match r {
                Ok((v, p)) => spec_list(self.toks(), pos as int, depth as int, ItemKind::Tag, end@)
                    == Ok::<(Seq<ListItem>, int), ParseError>((tag_items(v@), p as int)),
                Err(e) => spec_list(self.toks(), pos as int, depth as int, ItemKind::Tag, end@)
                    == Err::<(Seq<ListItem>, int), ParseError>(e),
            },
            r is Ok ==> pos <= r->Ok_0.1 <= self.toks().len(),
        decreases MAX_TYPE_TAG_NESTING as int - depth as int, self.toks().len() - pos, 3int,
    {
        let ghost ts = self.toks();
        let ghost d = depth as int;
        let n = self.tokens.len();
        assert(ts.len() == n);
        let mut v: Vec<TypeTag> = Vec::new();
        if self.peek_is(pos, end) {
            assert(tag_items(v@) =~= Seq::<ListItem>::empty());
            return Ok((v, pos));
        }
        proof {
            match spec_items(ts, pos as int, d, ItemKind::Tag, end@) {
                Ok((l, q)) => {
                    assert(tag_items(v@) + l =~= l);
                },
                Err(_) => {},
            }
        }
        let mut cur = pos;
        loop
            invariant
                ts == self.toks(),
                d == depth as int,
                is_bare(end@),
                pos <= cur <= ts.len(),
                spec_list(ts, pos as int, d, ItemKind::Tag, end@) == prepend_items(
                    tag_items(v@),
                    spec_items(ts, cur as int, d, ItemKind::Tag, end@),
                ),
            decreases ts.len() - cur,
        {
            let ghost before = tag_items(v@);
            let (item, p) = match self.parse_type_tag(cur, depth) {
                Ok(x) => x,
                Err(e) => return Err(e),
            };
            let ghost im = ListItem::Tag(item.model());
            assert(cur < p <= ts.len());
            assert(spec_item(ts, cur as int, d, ItemKind::Tag) == Ok::<(ListItem, int), ParseError>((im, p as int)));
            v.push(item);
            assert(tag_items(v@) =~= before.push(im));
            if self.peek_is(p, end) {
                assert(before + seq![im] =~= before.push(im));
                return Ok((v, p));
            }
            let p2 = match self.consume(p, Token::Comma) {
                Ok(q) => q,
                Err(e) => return Err(e),
            };
            let p = p2;
            if self.peek_is(p, end) {
                assert(before + seq![im] =~= before.push(im));
                return Ok((v, p));
            }
            proof {
                match spec_items(ts, p as int, d, ItemKind::Tag, end@) {
                    Ok((rest, q)) => {
                        assert(before + (seq![im] + rest) =~= before.push(im) + rest);
                    },
                    Err(_) => {},
                }
            }
            cur = p;
        }
    }

    /// Reads a comma-separated list of transaction arguments up to `end`, which is left unread.
    fn parse_argument_list(&self, pos: usize, end: &Token) -> (r: Result<
        (Vec<TransactionArgument>, usize),
        ParseError,
    >)
        requires
            is_bare(end@),
            pos <= self.toks().len(),
        ensures
            match r {
                Ok((v, p)) => spec_list(self.toks(), pos as int, 0, ItemKind::Argument, end@)
                    == Ok::<(Seq<ListItem>, int), ParseError>((arg_items(v@), p as int)),
                Err(e) => spec_list(self.toks(), pos as int, 0, ItemKind::Argument, end@)
                    == Err::<(Seq<ListItem>, int), ParseError>(e),
            },
            r is Ok ==> pos <= r->Ok_0.1 <= self.toks().len(),
    {
        let ghost ts = self.toks();
        let ghost d = 0int;
        let n = self.tokens.len();
        assert(ts.len() == n);
        let mut v: Vec<TransactionArgument> = Vec::new();
        if self.peek_is(pos, end) {
            assert(arg_items(v@) =~= Seq::<ListItem>::empty());
            return Ok((v, pos));
        }
        proof {
            match spec_items(ts, pos as int, d, ItemKind::Argument, end@) {
                Ok((l, q)) => {
                    assert(arg_items(v@) + l =~= l);
                },
                Err(_) => {},
            }
        }
        let mut cur = pos;
        loop
            invariant
                ts == self.toks(),
                d == 0,
                is_bare(end@),
                pos <= cur <= ts.len(),
                spec_list(ts, pos as int, d, ItemKind::Argument, end@) == prepend_items(
                    arg_items(v@),
                    spec_items(ts, cur as int, d, ItemKind::Argument, end@),
                ),
            decreases ts.len() - cur,
        {
            let ghost before = arg_items(v@);
            let (item, p) = match self.parse_transaction_argument(cur) {
                Ok(x) => x,
                Err(e) => return Err(e),
            };
            let ghost im = ListItem::Argument(item.model());
            assert(cur < p <= ts.len());
            assert(spec_item(ts, cur as int, d, ItemKind::Argument) == Ok::<(ListItem, int), ParseError>((im, p as int)));
            v.push(item);
            assert(arg_items(v@) =~= before.push(im));
            if self.peek_is(p, end) {
                assert(before + seq![im] =~= before.push(im));
                return Ok((v, p));
            }
            let p2 = match self.consume(p, Token::Comma) {
                Ok(q) => q,
                Err(e) => return Err(e),
            };
            let p = p2;
            if self.peek_is(p, end) {
                assert(before + seq![im] =~= before.push(im));
                return Ok((v, p));
            }
            proof {
                match spec_items(ts, p as int, d, ItemKind::Argument, end@) {
                    Ok((rest, q)) => {
                        assert(before + (seq![im] + rest) =~= before.push(im) + rest);
                    },
                    Err(_) => {},
                }
            }
            cur = p;
        }
    }

    /// Reads a comma-separated list of names up to `end`, which is left unread.
    fn parse_string_list(&self, pos: usize, end: &Token) -> (r: Result<
        (Vec<String>, usize),
        ParseError,
    >)
        requires
            is_bare(end@),
            pos <= self.toks().len(),
        ensures
            match r {
                Ok((v, p)) => spec_list(self.toks(), pos as int, 0, ItemKind::Name, end@)
                    == Ok::<(Seq<ListItem>, int), ParseError>((name_items(v@), p as int)),
                Err(e) => spec_list(self.toks(), pos as int, 0, ItemKind::Name, end@)
                    == Err::<(Seq<ListItem>, int), ParseError>(e),
            },
            r is Ok ==> pos <= r->Ok_0.1 <= self.toks().len(),
    {
        let ghost ts = self.toks();
        let ghost d = 0int;
        let n = self.tokens.len();
        assert(ts.len() == n);
        let mut v: Vec<String> = Vec::new();
        if self.peek_is(pos, end) {
            assert(name_items(v@) =~= Seq::<ListItem>::empty());
            return Ok((v, pos));
        }
        proof {
            match spec_items(ts, pos as int, d, ItemKind::Name, end@) {
                Ok((l, q)) => {
                    assert(name_items(v@) + l =~= l);
                },
                Err(_) => {},
            }
        }
        let mut cur = pos;
        loop
            invariant
                ts == self.toks(),
                d == 0,
                is_bare(end@),
                pos <= cur <= ts.len(),
                spec_list(ts, pos as int, d, ItemKind::Name, end@) == prepend_items(
                    name_items(v@),
                    spec_items(ts, cur as int, d, ItemKind::Name, end@),
                ),
            decreases ts.len() - cur,
        {
            let ghost before = name_items(v@);
            let (item, p) = match self.parse_string(cur) {
                Ok(x) => x,
                Err(e) => return Err(e),
            };
            let ghost im = ListItem::Name(item@);
            assert(cur < p <= ts.len());
            assert(spec_item(ts, cur as int, d, ItemKind::Name) == Ok::<(ListItem, int), ParseError>((im, p as int)));
            v.push(item);
            assert(name_items(v@) =~= before.push(im));
            if self.peek_is(p, end) {
                assert(before + seq![im] =~= before.push(im));
                return Ok((v, p));
            }
            let p2 = match self.consume(p, Token::Comma) {
                Ok(q) => q,
                Err(e) => return Err(e),
            };
            let p = p2;
            if self.peek_is(p, end) {
                assert(before + seq![im] =~= before.push(im));
                return Ok((v, p));
            }
            proof {
                match spec_items(ts, p as int, d, ItemKind::Name, end@) {
                    Ok((rest, q)) => {
                        assert(before + (seq![im] + rest) =~= before.push(im) + rest);
                    },
                    Err(_) => {},
                }
            }
            cur = p;
        }
    }
}

} // verus!

verus! {

/// The tokens of `s` without whitespace, then the end marker, ready for the grammar.
fn token_stream(s: &str) -> (r: Result<Parser, ParseError>)
    ensures
        match r {
            Ok(p) => spec_tokens(s@) == Ok::<Seq<SpecToken>, ParseError>(p.toks()),
            Err(e) => spec_tokens(s@) == Err::<Seq<SpecToken>, ParseError>(e),
        },
{
    let cs = chars_of(s);
    let all = match tokenize(&cs) {
        Ok(v) => v,
        Err(e) => return Err(e),
    };
    let ghost av = views_of(all@);
    let mut kept: Vec<Token> = Vec::new();
    let mut i: usize = 0;
    while i < all.len()
        invariant
            i <= all.len(),
            av == views_of(all@),
            views_of(kept@) == strip_ws(av.take(i as int)),
        decreases all.len() - i,
    {
        assert(av.take(i + 1).drop_last() =~= av.take(i as int));
        if !all[i].is_whitespace() {
            let t = all[i].duplicate();
            let ghost before = views_of(kept@);
            kept.push(t);
            assert(views_of(kept@) =~= before.push(av[i as int]));
        }
        i = i + 1;
    }
    assert(av.take(i as int) =~= av);
    let ghost before = views_of(kept@);
    kept.push(Token::EOF);
    assert(views_of(kept@) =~= before.push(SpecToken::EOF));
    Ok(Parser::new(kept))
}

/// The type tag that `s` spells.
pub open spec fn type_tag_of(s: Seq<char>) -> Result<TagModel, ParseError> {
    match spec_tokens(s) {
        Err(e) => Err(e),
        Ok(ts) => match spec_type_tag(ts, 0, 0) {
            Err(e) => Err(e),
            Ok((t, p)) => if tok_is(ts, p, SpecToken::EOF) {
                Ok(t)
            } else {
                Err(ParseError::UnexpectedToken)
            },
        },
    }
}

/// The struct tag that `s` spells.
pub open spec fn struct_tag_of(s: Seq<char>) -> Option<StructModel> {
    match type_tag_of(s) {
        Ok(TagModel::Struct(st)) => Some(st),
        _ => None,
    }
}

/// The transaction argument that `s` spells.
pub open spec fn argument_of(s: Seq<char>) -> Result<ArgModel, ParseError> {
    match spec_tokens(s) {
        Err(e) => Err(e),
        Ok(ts) => match spec_argument(ts, 0) {
            Err(e) => Err(e),
            Ok((a, p)) => if tok_is(ts, p, SpecToken::EOF) {
                Ok(a)
            } else {
                Err(ParseError::UnexpectedToken)
            },
        },
    }
}

/// The comma-separated list of items of the given kind that `s` spells.
pub open spec fn list_of(s: Seq<char>, kind: ItemKind) -> Result<Seq<ListItem>, ParseError> {
    match spec_tokens(s) {
        Err(e) => Err(e),
        Ok(ts) => match spec_list(ts, 0, 0, kind, SpecToken::EOF) {
            Err(e) => Err(e),
            Ok((l, p)) => if tok_is(ts, p, SpecToken::EOF) {
                Ok(l)
            } else {
                Err(ParseError::UnexpectedToken)
            },
        },
    }
}

/// Parses one type tag.
pub fn parse_type_tag(s: &str) -> (r: Result<TypeTag, ParseError>)
    ensures
        match r {
            Ok(t) => type_tag_of(s@) == Ok::<TagModel, ParseError>(t.model()),
            Err(e) => type_tag_of(s@) == Err::<TagModel, ParseError>(e),
        },
{
    let parser = match token_stream(s) {
        Ok(p) => p,
        Err(e) => return Err(e),
    };
    let (t, p) = match parser.parse_type_tag(0, 0) {
        Ok(x) => x,
        Err(e) => return Err(e),
    };
    match parser.consume(p, Token::EOF) {
        Ok(_) => Ok(t),
        Err(e) => Err(e),
    }
}

/// Parses one struct tag. A text that is not one gives an error that holds the text,
/// and the error of reading it as a type tag where there was one.
pub fn parse_struct_tag(s: &str) -> (r: Result<StructTag, ParseError>)
    ensures
        match r {
            Ok(st) => struct_tag_of(s@) == Some(st.model()),
            Err(ParseError::InvalidStructTag(text, cause)) => {
                &&& text@ == s@
                &&& struct_tag_of(s@) is None
                &&& match type_tag_of(s@) {
                    Err(e) => cause == Some(Box::new(e)),
                    Ok(_) => cause is None,
                }
            },
            Err(_) => false,
        },
{
    match parse_type_tag(s) {
        Ok(TypeTag::Struct(st)) => Ok(*st),
        Ok(_) => Err(ParseError::InvalidStructTag(s.to_owned(), None)),
        Err(e) => Err(ParseError::InvalidStructTag(s.to_owned(), Some(Box::new(e)))),
    }
}

/// Parses one transaction argument.
pub fn parse_transaction_argument(s: &str) -> (r: Result<TransactionArgument, ParseError>)
    ensures
        match r {
            Ok(a) => argument_of(s@) == Ok::<ArgModel, ParseError>(a.model()),
            Err(e) => argument_of(s@) == Err::<ArgModel, ParseError>(e),
        },
{
    let parser = match token_stream(s) {
        Ok(p) => p,
        Err(e) => return Err(e),
    };
    let (a, p) = match parser.parse_transaction_argument(0) {
        Ok(x) => x,
        Err(e) => return Err(e),
    };
    match parser.consume(p, Token::EOF) {
        Ok(_) => Ok(a),
        Err(e) => Err(e),
    }
}

/// Parses a comma-separated list of type tags; a comma may end the list.
pub fn parse_type_tags(s: &str) -> (r: Result<Vec<TypeTag>, ParseError>)
    ensures
        match r {
            Ok(v) => list_of(s@, ItemKind::Tag) == Ok::<Seq<ListItem>, ParseError>(tag_items(v@)),
            Err(e) => list_of(s@, ItemKind::Tag) == Err::<Seq<ListItem>, ParseError>(e),
        },
{
    let parser = match token_stream(s) {
        Ok(p) => p,
        Err(e) => return Err(e),
    };
    proof {
        parser.lemma_len();
    }
    let (v, p) = match parser.parse_type_list(0, 0, &Token::EOF) {
        Ok(x) => x,
        Err(e) => return Err(e),
    };
    match parser.consume(p, Token::EOF) {
        Ok(_) => Ok(v),
        Err(e) => Err(e),
    }
}

/// Parses a comma-separated list of transaction arguments; a comma may end the list.
pub fn parse_transaction_arguments(s: &str) -> (r: Result<Vec<TransactionArgument>, ParseError>)
    ensures
        match r {
            Ok(v) => list_of(s@, ItemKind::Argument) == Ok::<Seq<ListItem>, ParseError>(arg_items(v@)),
            Err(e) => list_of(s@, ItemKind::Argument) == Err::<Seq<ListItem>, ParseError>(e),
        },
{
    let parser = match token_stream(s) {
        Ok(p) => p,
        Err(e) => return Err(e),
    };
    let (v, p) = match parser.parse_argument_list(0, &Token::EOF) {
        Ok(x) => x,
        Err(e) => return Err(e),
    };
    match parser.consume(p, Token::EOF) {
        Ok(_) => Ok(v),
        Err(e) => Err(e),
    }
}

/// Parses a comma-separated list of names; a comma may end the list.
pub fn parse_string_list(s: &str) -> (r: Result<Vec<String>, ParseError>)
    ensures
        match r {
            Ok(v) => list_of(s@, ItemKind::Name) == Ok::<Seq<ListItem>, ParseError>(name_items(v@)),
            Err(e) => list_of(s@, ItemKind::Name) == Err::<Seq<ListItem>, ParseError>(e),
        },
{
    let parser = match token_stream(s) {
        Ok(p) => p,
        Err(e) => return Err(e),
    };
    let (v, p) = match parser.parse_string_list(0, &Token::EOF) {
        Ok(x) => x,
        Err(e) => return Err(e),
    };
    match parser.consume(p, Token::EOF) {
        Ok(_) => Ok(v),
        Err(e) => Err(e),
    }
}

} // verus!
