//! Account addresses, identifiers, type tags and transaction arguments, with their models.

use vstd::prelude::*;
use crate::text::{chars_of, hex_bytes, hex_decode, is_hex_digit, string_of};

verus! {

/// Number of bytes in an account address.
pub const ADDRESS_LENGTH: usize = 16;

/// Why a text could not be read.
#[derive(Debug, PartialEq, Eq)]
pub enum ParseError {
    /// A character that starts no token, an unterminated or malformed byte string,
    /// a bad numeric suffix, or `0x` without a digit after it.
    Lex,
    /// A token other than the one the grammar asks for, including input left over.
    UnexpectedToken,
    /// Digits that do not make a number of the literal's width.
    InvalidNumber,
    /// An address literal that does not make an account address.
    InvalidAddress,
    /// A name that is not a valid identifier.
    InvalidIdentifier,
    /// Byte-string content that is not an even number of hexadecimal digits.
    InvalidHex,
    /// A text asked for as a struct tag that is not one: the text, and the error that
    /// reading it as a type tag gave, if it gave one.
    InvalidStructTag(String, Option<Box<ParseError>>),
    /// Type tags nested deeper than the limit.
    NestingLimit,
}

/// A fixed-width account identifier.
#[derive(Clone, Debug, PartialEq, Eq, Hash)]
pub struct AccountAddress {
    pub bytes: Vec<u8>,
}

/// The digits of a `0x` literal, left-padded with zeros to the width of an address.
pub open spec fn padded_digits(d: Seq<char>) -> Seq<char> {
    Seq::new((2 * ADDRESS_LENGTH - d.len()) as nat, |i: int| '0') + d
}

/// The address bytes that a `0x` literal stands for, if it stands for one: at most
/// twice as many hexadecimal digits as the address has bytes.
pub open spec fn address_of_literal(lit: Seq<char>) -> Option<Seq<u8>> {
    let d = lit.subrange(2, lit.len() as int);
    if lit.len() >= 2 && lit[0] == '0' && lit[1] == 'x' && d.len() <= 2 * ADDRESS_LENGTH
        && forall|i: int| 0 <= i < d.len() ==> is_hex_digit(#[trigger] d[i]) {
        Some(hex_bytes(padded_digits(d)))
    } else {
        None
    }
}

impl View for AccountAddress {
    type V = Seq<u8>;

    open spec fn view(&self) -> Seq<u8> {
        self.bytes@
    }
}

impl AccountAddress {
    pub open spec fn wf(&self) -> bool {
        self@.len() == ADDRESS_LENGTH
    }

    /// Reads a `0x` literal; shorter literals are padded with leading zeros.
    pub fn from_hex_literal(literal: &str) -> (r: Result<AccountAddress, ParseError>)
        ensures
            match address_of_literal(literal@) {
                Some(b) => r is Ok && r->Ok_0@ == b && r->Ok_0.wf(),
                None => r == Err::<AccountAddress, ParseError>(ParseError::InvalidAddress),
            },
    {
        let cs = chars_of(literal);
        Self::from_literal_chars(&cs)
    }

    pub(crate) fn from_literal_chars(cs: &Vec<char>) -> (r: Result<AccountAddress, ParseError>)
        ensures
            match address_of_literal(cs@) {
                Some(b) => r is Ok && r->Ok_0@ == b && r->Ok_0.wf(),
                None => r == Err::<AccountAddress, ParseError>(ParseError::InvalidAddress),
            },
    {
        if cs.len() < 2 || cs[0] != '0' || cs[1] != 'x' || cs.len() - 2 > 2 * ADDRESS_LENGTH {
            return Err(ParseError::InvalidAddress);
        }
        let ghost d = cs@.subrange(2, cs@.len() as int);
        let mut padded: Vec<char> = Vec::new();
        let pad: usize = 2 * ADDRESS_LENGTH - (cs.len() - 2);
        while padded.len() < pad
            invariant
                padded.len() <= pad,
                forall|i: int| 0 <= i < padded.len() ==> padded@[i] == '0',
            decreases pad - padded.len(),
        {
            padded.push('0');
        }
        let mut i: usize = 2;
        while i < cs.len()
            invariant
                2 <= i <= cs.len(),
                padded@ == Seq::new(pad as nat, |k: int| '0') + cs@.subrange(2, i as int),
            decreases cs.len() - i,
        {
            proof {
                if i == 2 {
                    assert(padded@ =~= Seq::new(pad as nat, |k: int| '0') + cs@.subrange(2, i as int));
                }
            }
            padded.push(cs[i]);
            i = i + 1;
            assert(padded@ =~= Seq::new(pad as nat, |k: int| '0') + cs@.subrange(2, i as int));
        }
        proof {
            if cs.len() == 2 {
                assert(padded@ =~= Seq::new(pad as nat, |k: int| '0') + cs@.subrange(2, i as int));
            }
            assert(padded@ =~= padded_digits(d));
        }
        let text = string_of(&padded);
        match hex_decode(&text) {
            Ok(bytes) => {
                proof {
                    assert forall|k: int| 0 <= k < d.len() implies is_hex_digit(#[trigger] d[k]) by {
                        assert(padded@[pad + k] == d[k]);
                    }
                }
                Ok(AccountAddress { bytes })
            },
            Err(_) => {
                proof {
                    if forall|k: int| 0 <= k < d.len() ==> is_hex_digit(#[trigger] d[k]) {
                        assert forall|k: int| 0 <= k < padded@.len() implies is_hex_digit(#[trigger] padded@[k]) by {
                            if k >= pad {
                                assert(padded@[k] == d[k - pad]);
                            }
                        }
                    }
                }
                Err(ParseError::InvalidAddress)
            },
        }
    }

    /// The address bytes.
    pub fn to_vec(&self) -> (r: Vec<u8>)
        ensures
            r@ == self@,
    {
        self.bytes.clone()
    }
}

} // verus!

verus! {

/// A character that may follow the first character of an identifier.
pub open spec fn is_ident_char(c: char) -> bool {
    c == '_' || ('a' <= c && c <= 'z') || ('A' <= c && c <= 'Z') || ('0' <= c && c <= '9')
}

/// A valid identifier: a letter followed by identifier characters, or an underscore
/// followed by at least one identifier character.
pub open spec fn is_valid_identifier(s: Seq<char>) -> bool {
    &&& s.len() > 0
    &&& (('a' <= s[0] && s[0] <= 'z') || ('A' <= s[0] && s[0] <= 'Z') || (s[0] == '_' && s.len()
        > 1))
    &&& forall|i: int| 1 <= i < s.len() ==> is_ident_char(#[trigger] s[i])
}

pub fn is_valid_identifier_char(c: char) -> (r: bool)
    ensures
        r == is_ident_char(c),
{
    c == '_' || ('a' <= c && c <= 'z') || ('A' <= c && c <= 'Z') || ('0' <= c && c <= '9')
}

/// A name of a module or of a struct.
#[derive(Clone, Debug, PartialEq, Eq, Hash)]
pub struct Identifier {
    pub name: String,
}

impl View for Identifier {
    type V = Seq<char>;

    open spec fn view(&self) -> Seq<char> {
        self.name@
    }
}

impl Identifier {
    /// Accepts `s` exactly when it is a valid identifier.
    pub fn new(s: String) -> (r: Result<Identifier, ParseError>)
        ensures
            is_valid_identifier(s@) ==> r is Ok && r->Ok_0@ == s@,
            !is_valid_identifier(s@) ==> r == Err::<Identifier, ParseError>(
                ParseError::InvalidIdentifier,
            ),
    {
        let cs = chars_of(s.as_str());
        if cs.len() == 0 {
            return Err(ParseError::InvalidIdentifier);
        }
        let c0 = cs[0];
        if !(('a' <= c0 && c0 <= 'z') || ('A' <= c0 && c0 <= 'Z') || (c0 == '_' && cs.len() > 1)) {
            return Err(ParseError::InvalidIdentifier);
        }
        let mut i: usize = 1;
        while i < cs.len()
            invariant
                1 <= i <= cs.len(),
                cs@ == s@,
                forall|k: int| 1 <= k < i ==> is_ident_char(#[trigger] cs@[k]),
            decreases cs.len() - i,
        {
            if !is_valid_identifier_char(cs[i]) {
                return Err(ParseError::InvalidIdentifier);
            }
            i = i + 1;
        }
        Ok(Identifier { name: s })
    }

    pub fn as_str(&self) -> (r: &str)
        ensures
            r@ == self@,
    {
        self.name.as_str()
    }
}

/// The deepest nesting of type tags that the parser accepts is one below this.
pub const MAX_TYPE_TAG_NESTING: u8 = 13;

/// The type of a value.
#[derive(Debug, PartialEq, Eq)]
pub enum TypeTag {
    Bool,
    U8,
    U64,
    U128,
    Address,
    Signer,
    Vector(Box<TypeTag>),
    Struct(Box<StructTag>),
}

/// A user-defined struct type: where it is published, its module, its name and its
/// type arguments.
#[derive(Debug, PartialEq, Eq)]
pub struct StructTag {
    pub address: AccountAddress,
    pub module: Identifier,
    pub name: Identifier,
    pub type_params: Vec<TypeTag>,
}

/// A literal passed into a contract call.
#[derive(Clone, Debug, PartialEq, Eq)]
pub enum TransactionArgument {
    U8(u8),
    U64(u64),
    U128(u128),
    Address(AccountAddress),
    U8Vector(Vec<u8>),
    Bool(bool),
}

/// What a type tag stands for.
pub enum TagModel {
    Bool,
    U8,
    U64,
    U128,
    Address,
    Signer,
    Vector(Box<TagModel>),
    Struct(StructModel),
}

/// What a struct tag stands for.
pub struct StructModel {
    pub address: Seq<u8>,
    pub module: Seq<char>,
    pub name: Seq<char>,
    pub type_params: Seq<TagModel>,
}

/// What a transaction argument stands for.
pub enum ArgModel {
    U8(u8),
    U64(u64),
    U128(u128),
    Address(Seq<u8>),
    U8Vector(Seq<u8>),
    Bool(bool),
}

pub open spec fn models_of(s: Seq<TypeTag>) -> Seq<TagModel>
    decreases s,
{
    if s.len() == 0 {
        Seq::empty()
    } else {
        models_of(s.drop_last()).push(s.last().model())
    }
}

impl TypeTag {
    pub open spec fn model(&self) -> TagModel
        decreases self,
    {
        match self {
            TypeTag::Bool => TagModel::Bool,
            TypeTag::U8 => TagModel::U8,
            TypeTag::U64 => TagModel::U64,
            TypeTag::U128 => TagModel::U128,
            TypeTag::Address => TagModel::Address,
            TypeTag::Signer => TagModel::Signer,
            TypeTag::Vector(t) => TagModel::Vector(Box::new((**t).model())),
            TypeTag::Struct(st) => TagModel::Struct((**st).model()),
        }
    }
}

impl StructTag {
    pub open spec fn model(&self) -> StructModel
        decreases self,
    {
        StructModel {
            address: self.address@,
            module: self.module@,
            name: self.name@,
            type_params: models_of(self.type_params@),
        }
    }
}

impl TransactionArgument {
    pub open spec fn model(&self) -> ArgModel {
        match self {
            TransactionArgument::U8(n) => ArgModel::U8(*n),
            TransactionArgument::U64(n) => ArgModel::U64(*n),
            TransactionArgument::U128(n) => ArgModel::U128(*n),
            TransactionArgument::Address(a) => ArgModel::Address(a@),
            TransactionArgument::U8Vector(v) => ArgModel::U8Vector(v@),
            TransactionArgument::Bool(b) => ArgModel::Bool(*b),
        }
    }
}

} // verus!
