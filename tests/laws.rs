use move_core_types::{
    parse_string_list, parse_struct_tag, parse_transaction_argument, parse_transaction_arguments,
    parse_type_tag, parse_type_tags, AccountAddress, Identifier, ParseError, StructTag,
    TransactionArgument, TypeTag, MAX_TYPE_TAG_NESTING,
};

fn vector_chain(n: usize) -> String {
    format!("{}u64{}", "vector<".repeat(n), ">".repeat(n))
}

#[test]
fn primitive_keywords_parse_as_primitives() {
    assert_eq!(parse_type_tag("u8"), Ok(TypeTag::U8));
    assert_eq!(parse_type_tag("u64"), Ok(TypeTag::U64));
    assert_eq!(parse_type_tag("u128"), Ok(TypeTag::U128));
    assert_eq!(parse_type_tag("bool"), Ok(TypeTag::Bool));
    assert_eq!(parse_type_tag("address"), Ok(TypeTag::Address));
    assert_eq!(parse_type_tag("signer"), Ok(TypeTag::Signer));
    assert_eq!(parse_type_tag(" u8 "), Ok(TypeTag::U8));
}

#[test]
fn keyword_prefix_is_a_name() {
    assert_eq!(parse_type_tag("vector2"), Err(ParseError::UnexpectedToken));
    assert_eq!(parse_string_list("vector2, u8x"), Ok(vec!["vector2".to_string(), "u8x".to_string()]));
}

#[test]
fn struct_tag_renders_back() {
    let st = parse_struct_tag("0x1::M::S<u8, vector<0x2::N::T>>").unwrap();
    assert_eq!(st.to_string(), "0x1::M::S<u8, vector<0x2::N::T>>");
    let st = parse_struct_tag("0x00000000004::M::S").unwrap();
    assert_eq!(st.to_string(), "0x4::M::S");
    let st = parse_struct_tag("0x0::M::S").unwrap();
    assert_eq!(st.to_string(), "0x0::M::S");
    let st = parse_struct_tag("0xAB::M::S").unwrap();
    assert_eq!(st.to_string(), "0xab::M::S");
}

#[test]
fn nesting_limit_on_vector_chains() {
    let deepest = (MAX_TYPE_TAG_NESTING - 1) as usize;
    let t = parse_type_tag(&vector_chain(deepest)).unwrap();
    assert_eq!(t.to_string(), vector_chain(deepest));
    assert_eq!(
        parse_type_tag(&vector_chain(deepest + 1)),
        Err(ParseError::NestingLimit)
    );
    assert_eq!(
        parse_type_tag(&vector_chain(1000)),
        Err(ParseError::NestingLimit)
    );
}

#[test]
fn numeric_suffix_widths() {
    assert_eq!(parse_transaction_argument("255u8"), Ok(TransactionArgument::U8(255)));
    assert_eq!(parse_transaction_argument("256u8"), Err(ParseError::InvalidNumber));
    assert_eq!(parse_transaction_argument("0"), Ok(TransactionArgument::U64(0)));
    assert_eq!(
        parse_transaction_argument("18446744073709551615u64"),
        Ok(TransactionArgument::U64(u64::MAX))
    );
    assert_eq!(
        parse_transaction_argument("18446744073709551616u64"),
        Err(ParseError::InvalidNumber)
    );
    assert_eq!(parse_transaction_argument("7u128"), Ok(TransactionArgument::U128(7)));
    assert_eq!(parse_transaction_argument("0u16"), Err(ParseError::Lex));
}

#[test]
fn hex_and_byte_strings_agree() {
    assert_eq!(
        parse_transaction_argument("x\"deadbeef\""),
        Ok(TransactionArgument::U8Vector(vec![0xde, 0xad, 0xbe, 0xef]))
    );
    assert_eq!(
        parse_transaction_argument("b\"hello\""),
        Ok(TransactionArgument::U8Vector(b"hello".to_vec()))
    );
    assert_eq!(
        parse_transaction_argument("b\"\""),
        Ok(TransactionArgument::U8Vector(vec![]))
    );
    assert_eq!(
        parse_transaction_argument("b\"A z\""),
        parse_transaction_argument("x\"41207a\"")
    );
    assert_eq!(parse_transaction_argument("x\"abc\""), Err(ParseError::InvalidHex));
    assert_eq!(parse_transaction_argument("b\"caf\u{e9}\""), Err(ParseError::Lex));
}

#[test]
fn trailing_comma_is_accepted() {
    assert_eq!(
        parse_struct_tag("0x1::M::S<u8, bool,>"),
        parse_struct_tag("0x1::M::S<u8, bool>")
    );
    assert!(parse_struct_tag("0x1::M::S<u8, bool,>").is_ok());
    assert_eq!(parse_type_tags("u8, bool,"), Ok(vec![TypeTag::U8, TypeTag::Bool]));
    assert_eq!(
        parse_transaction_arguments("1u8, true,"),
        Ok(vec![TransactionArgument::U8(1), TransactionArgument::Bool(true)])
    );
    assert_eq!(parse_type_tags("u8,,"), Err(ParseError::UnexpectedToken));
    assert_eq!(parse_type_tags(","), Err(ParseError::UnexpectedToken));
}

#[test]
fn negative_inputs_fail() {
    assert!(parse_type_tag("").is_err());
    assert!(parse_transaction_argument("").is_err());
    assert_eq!(parse_transaction_argument("-"), Err(ParseError::Lex));
    assert_eq!(parse_transaction_argument("0x"), Err(ParseError::Lex));
    assert_eq!(parse_transaction_argument("x\"ffff"), Err(ParseError::Lex));
    assert_eq!(parse_transaction_argument("true3"), Err(ParseError::UnexpectedToken));
    assert_eq!(parse_type_tag("u8 u8"), Err(ParseError::UnexpectedToken));
    assert_eq!(parse_type_tag("0x1:M::S"), Err(ParseError::Lex));
}

#[test]
fn empty_lists() {
    assert_eq!(parse_type_tags(""), Ok(vec![]));
    assert_eq!(parse_transaction_arguments("  "), Ok(vec![]));
    assert_eq!(parse_string_list(""), Ok(vec![]));
}

#[test]
fn struct_tag_errors() {
    assert_eq!(
        parse_struct_tag("u8"),
        Err(ParseError::InvalidStructTag("u8".to_string(), None))
    );
    assert_eq!(
        parse_struct_tag("vector<0x1::M::S>"),
        Err(ParseError::InvalidStructTag("vector<0x1::M::S>".to_string(), None))
    );
    assert_eq!(
        parse_struct_tag("0x123456789012345678901234567890123::M::S"),
        Err(ParseError::InvalidStructTag(
            "0x123456789012345678901234567890123::M::S".to_string(),
            Some(Box::new(ParseError::InvalidAddress))
        ))
    );
    assert_eq!(
        parse_struct_tag("0x1::M::u8"),
        Err(ParseError::InvalidStructTag(
            "0x1::M::u8".to_string(),
            Some(Box::new(ParseError::UnexpectedToken))
        ))
    );
}

#[test]
fn suffix_starts_at_any_alphanumeric() {
    assert_eq!(parse_transaction_argument("0\u{e9}"), Err(ParseError::Lex));
    assert_eq!(parse_transaction_argument("7u8\u{e9}"), Err(ParseError::Lex));
    assert_eq!(parse_type_tags("0\u{e9}"), Err(ParseError::Lex));
    assert_eq!(parse_transaction_argument("12u64"), Ok(TransactionArgument::U64(12)));
}

#[test]
fn struct_tag_fields() {
    let st: StructTag = parse_struct_tag("0x1f::Coin::Coin<u64>").unwrap();
    let mut expected = vec![0u8; 16];
    expected[15] = 0x1f;
    assert_eq!(st.address.to_vec(), expected);
    assert_eq!(st.module, Identifier::new("Coin".to_string()).unwrap());
    assert_eq!(st.name.as_str(), "Coin");
    assert_eq!(st.type_params, vec![TypeTag::U64]);
}

#[test]
fn address_literals() {
    let a = AccountAddress::from_hex_literal("0x1").unwrap();
    let mut expected = vec![0u8; 16];
    expected[15] = 1;
    assert_eq!(a.to_vec(), expected);
    let full = AccountAddress::from_hex_literal("0x000102030405060708090a0b0c0d0e0f").unwrap();
    assert_eq!(full.to_vec(), (0u8..16).collect::<Vec<u8>>());
    assert_eq!(AccountAddress::from_hex_literal("1"), Err(ParseError::InvalidAddress));
    assert_eq!(AccountAddress::from_hex_literal("0xzz"), Err(ParseError::InvalidAddress));
}

#[test]
fn identifiers() {
    assert!(Identifier::new("_a1".to_string()).is_ok());
    assert_eq!(Identifier::new("_".to_string()), Err(ParseError::InvalidIdentifier));
    assert_eq!(Identifier::new("1a".to_string()), Err(ParseError::InvalidIdentifier));
    assert_eq!(Identifier::new("".to_string()), Err(ParseError::InvalidIdentifier));
}

#[test]
fn interleaved_calls_do_not_interfere() {
    let a = parse_type_tag("vector<u8>");
    let b = parse_transaction_argument("garbage");
    let c = parse_type_tag("vector<u8>");
    assert_eq!(a, c);
    assert!(b.is_err());
}
