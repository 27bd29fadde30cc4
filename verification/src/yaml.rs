//! Trusted bindings to the YAML decoder used for frontmatter blocks.
//!
//! The decoder's behaviour on a given block is a pure function of the text, so
//! each binding's result is named by an uninterpreted spec function over the
//! block's view; contracts elsewhere in the crate speak of those names.

use vstd::prelude::*;

verus! {

/// The decoder's message when the text is not a well-formed YAML mapping, or
/// nothing when it is.
pub uninterp spec fn yaml_block_err(block: Seq<char>) -> Option<Seq<char>>;

/// The string value at `key` in the decoded mapping, or nothing when the text
/// does not decode to a mapping holding a string there.
pub uninterp spec fn yaml_text_field(block: Seq<char>, key: Seq<char>) -> Option<Seq<char>>;

/// The string-to-string entries at `key` in the decoded mapping: nothing when
/// the key is absent or the text does not decode to a mapping, the entries when
/// they decode, or the decoder's message when the value there is not a
/// string-to-string mapping.
pub uninterp spec fn yaml_pairs_field(block: Seq<char>, key: Seq<char>) -> Option<
    Result<Seq<(Seq<char>, Seq<char>)>, Seq<char>>,
>;

/// Relies on serde_yaml::from_str: whether the text is a well-formed YAML
/// mapping, and the decoder's message when it is not. The result depends on the
/// text alone.
#[verifier::external_body]
pub fn yaml_check_mapping(block: &str) -> (r: Option<String>)
    ensures
        (match r {
            None => yaml_block_err(block@) == None::<Seq<char>>,
            Some(e) => yaml_block_err(block@) == Some(e@),
        }),
{
    match serde_yaml::from_str::<serde_yaml::Mapping>(block) {
        Ok(_) => None,
        Err(e) => Some(e.to_string()),
    }
}

/// Relies on serde_yaml::from_str and serde_yaml::Value::get: the string value
/// at `key` in the decoded mapping. The result depends on the text and key
/// alone.
#[verifier::external_body]
pub fn yaml_string_field(block: &str, key: &str) -> (r: Option<String>)
    ensures
        (match r {
            None => yaml_text_field(block@, key@) == None::<Seq<char>>,
            Some(v) => yaml_text_field(block@, key@) == Some(v@),
        }),
{
    let value: serde_yaml::Value = match serde_yaml::from_str(block) {
        Ok(v) => v,
        Err(_) => return None,
    };
    match value.get(key) {
        Some(serde_yaml::Value::String(s)) => Some(s.clone()),
        _ => None,
    }
}

/// Relies on serde_yaml::from_str, serde_yaml::Value::get and
/// serde_yaml::from_value: the string-to-string entries at `key` in the decoded
/// mapping, or the decoder's message where the value there is not such a
/// mapping. The result depends on the text and key alone.
#[verifier::external_body]
pub fn yaml_string_pairs_field(block: &str, key: &str) -> (r: Option<
    Result<Vec<(String, String)>, String>,
>)
    ensures
        (match r {
            None => yaml_pairs_field(block@, key@) == None::<
                Result<Seq<(Seq<char>, Seq<char>)>, Seq<char>>,
            >,
            Some(Ok(v)) => yaml_pairs_field(block@, key@) == Some(Ok::<
                Seq<(Seq<char>, Seq<char>)>,
                Seq<char>,
            >(v.deep_view())),
            Some(Err(e)) => yaml_pairs_field(block@, key@) == Some(Err::<
                Seq<(Seq<char>, Seq<char>)>,
                Seq<char>,
            >(e@)),
        }),
{
    let value: serde_yaml::Value = match serde_yaml::from_str(block) {
        Ok(v) => v,
        Err(_) => return None,
    };
    match value.get(key) {
        None => None,
        Some(v) => Some(
            match serde_yaml::from_value::<std::collections::BTreeMap<String, String>>(v.clone()) {
                Ok(m) => Ok(m.into_iter().collect()),
                Err(e) => Err(e.to_string()),
            },
        ),
    }
}

} // verus!
