//! YAML mappings of texts.
use vstd::prelude::*;

use crate::text::text_option;
use crate::web::pair_texts;

verus! {

/// The YAML text of a mapping from names to texts.
pub uninterp spec fn yaml_text_of(fields: Seq<(Seq<char>, Seq<char>)>) -> Option<Seq<char>>;

/// `serde_yaml::to_string` on a `Mapping` of texts in the order given: a
/// function of the names and texts alone.
#[verifier::external_body]
pub(crate) fn yaml_mapping(fields: &Vec<(String, String)>) -> (r: Option<String>)
    ensures
        text_option(r) == yaml_text_of(pair_texts(fields@)),
{
    let mapping: serde_yaml::Mapping = fields.iter().map(
        |field| (field.0.as_str().into(), field.1.as_str().into()),
    ).collect();
    serde_yaml::to_string(&mapping).ok()
}

} // verus!
