//! Extraction of a hierarchical administrative location (province, city,
//! district) and a free-text remainder from an unstructured Chinese address
//! string, against a closed gazetteer of administrative names and their
//! abbreviations.
//!
//! The built-in gazetteer is a compact list covering every province-level
//! unit and every administrative shape the matching rules distinguish, not
//! the full national division table; a full record list can be supplied
//! through `AddressParser::from_records`.

pub mod data;
pub mod error;
pub mod laws;
pub mod parser;
pub mod region;
pub mod text;
pub mod trie;

pub use error::ParseError;
pub use parser::AddressParser;
pub use region::{ParsedAddress, Region};

use vstd::prelude::*;
use crate::parser::{builtin_parser_model, spec_parse, spec_normalize};

verus! {

/// Parses an address with a parser over the built-in gazetteer.
pub fn parse(address: &str) -> (r: ParsedAddress)
    ensures
        r@ == spec_parse(builtin_parser_model(), address@),
{
    let p = AddressParser::new();
    p.parse(address)
}

/// Normalizes a (province, city, district) triple with a parser over the
/// built-in gazetteer.
pub fn normalize(province: &str, city: &str, district: Option<&str>) -> (r: String)
    ensures
        r@ == spec_normalize(builtin_parser_model(), province@, city@, district.deep_view()),
{
    let p = AddressParser::new();
    p.normalize(province, city, district)
}

} // verus!

