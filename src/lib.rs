//! Text front-end for Move type tags and transaction arguments: a tokenizer and a
//! recursive-descent parser with a limit on nesting, proved against a grammar written
//! as spec functions.

pub mod laws;
pub mod parser;
pub mod render;
pub mod round_trip;
pub mod text;
pub mod token;
pub mod types;

pub use parser::{
    parse_string_list, parse_struct_tag, parse_transaction_argument, parse_transaction_arguments,
    parse_type_tag, parse_type_tags,
};
pub use types::{
    AccountAddress, Identifier, ParseError, StructTag, TransactionArgument, TypeTag,
    MAX_TYPE_TAG_NESTING,
};
