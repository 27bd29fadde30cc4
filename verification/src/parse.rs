//! Frontmatter parsing: splitting a document into its structured block and
//! body, decoding the block and validating the result.

use vstd::prelude::*;
use crate::metadata::{spec_validate, MetaView, SkillMetadata, ValidationError};
use crate::text::{
    marker_at, spec_find_marker, spec_trim, spec_trim_start, find_marker, trim_start_str, trim_str,
};
use crate::yaml::{
    yaml_block_err, yaml_check_mapping, yaml_pairs_field, yaml_string_field,
    yaml_string_pairs_field, yaml_text_field,
};

verus! {

/// A hard failure of parsing a definition document.
#[derive(Debug, PartialEq, Eq)]
pub enum ParseError {
    /// The document does not open with the frontmatter delimiter, or the
    /// opening delimiter is never closed.
    MalformedDocument,
    /// The structured block does not decode to the metadata schema; holds a
    /// descriptive message.
    MetadataParse(String),
    /// The decoded metadata violates a naming or size invariant.
    Validation(ValidationError),
}

/// The outcome of parsing a document, at the specification level.
pub enum ParseOutcome {
    /// No opening delimiter, or no closing one.
    Malformed,
    /// The block does not decode; carries the message.
    BadYaml(Seq<char>),
    /// The block decodes but violates an invariant.
    Invalid(ValidationError),
    /// The decoded metadata and the body.
    Parsed(MetaView, Seq<char>),
}

/// The metadata the block decodes to, given its required string fields and
/// extension entries.
pub open spec fn spec_block_meta(
    block: Seq<char>,
    name: Seq<char>,
    description: Seq<char>,
    pairs: Seq<(Seq<char>, Seq<char>)>,
) -> MetaView {
    MetaView {
        name: name,
        description: description,
        license: yaml_text_field(block, "license"@),
        compatibility: yaml_text_field(block, "compatibility"@),
        metadata: pairs,
        allowed_tools: yaml_text_field(block, "allowed_tools"@),
    }
}

/// The outcome of decoding a trimmed block and pairing it with `body`.
pub open spec fn spec_decode(block: Seq<char>, body: Seq<char>) -> ParseOutcome {
    match yaml_block_err(block) {
        Some(e) => ParseOutcome::BadYaml("failed to parse YAML frontmatter: "@ + e),
        None => match yaml_text_field(block, "name"@) {
            None => ParseOutcome::BadYaml("missing or non-string field: name"@),
            Some(name) => match yaml_text_field(block, "description"@) {
                None => ParseOutcome::BadYaml("missing or non-string field: description"@),
                Some(description) => match yaml_pairs_field(block, "metadata"@) {
                    Some(Err(e)) => ParseOutcome::BadYaml(
                        "failed to parse YAML frontmatter: "@ + e,
                    ),
                    Some(Ok(pairs)) => spec_check(
                        spec_block_meta(block, name, description, pairs),
                        body,
                    ),
                    None => spec_check(
                        spec_block_meta(block, name, description, Seq::empty()),
                        body,
                    ),
                },
            },
        },
    }
}

/// Validation applied to a decoded metadata value.
pub open spec fn spec_check(meta: MetaView, body: Seq<char>) -> ParseOutcome {
    match spec_validate(meta) {
        Err(v) => ParseOutcome::Invalid(v),
        Ok(u) => ParseOutcome::Parsed(meta, body),
    }
}

/// The outcome of parsing a whole document: the content is trimmed of leading
/// whitespace, must open with the three-character delimiter, and the block runs
/// to the delimiter's next occurrence; the body is what follows it, trimmed of
/// leading whitespace.
pub open spec fn spec_parse(content: Seq<char>) -> ParseOutcome {
    let t = spec_trim_start(content);
    if !marker_at(t, 0) {
        ParseOutcome::Malformed
    } else {
        match spec_find_marker(t, 3) {
            None => ParseOutcome::Malformed,
            Some(j) => spec_decode(
                spec_trim(t.subrange(3, j)),
                spec_trim_start(t.subrange(j + 3, t.len() as int)),
            ),
        }
    }
}

/// A found delimiter stands at or after the start position, within bounds.
proof fn lemma_find_marker_props(s: Seq<char>, from: int)
    ensures
        (match spec_find_marker(s, from) {
            Some(j) => from <= j && marker_at(s, j),
            None => true,
        }),
    decreases s.len() - from,
{
    if from < 0 || from + 3 > s.len() {
    } else if marker_at(s, from) {
    } else {
        lemma_find_marker_props(s, from + 1);
    }
}

/// The structured block of a document whose delimiters are well-placed.
pub open spec fn doc_block(c: Seq<char>) -> Seq<char> {
    let t = spec_trim_start(c);
    spec_trim(t.subrange(3, spec_find_marker(t, 3)->Some_0))
}

/// The body of a document whose delimiters are well-placed.
pub open spec fn doc_body(c: Seq<char>) -> Seq<char> {
    let t = spec_trim_start(c);
    spec_trim_start(t.subrange(spec_find_marker(t, 3)->Some_0 + 3, t.len() as int))
}

/// Parsing then validating a well-formed document succeeds and returns the
/// declared fields exactly: a document whose delimiters are well-placed, whose
/// block decodes with a valid name and a description of at most 1024
/// characters, parses to exactly the declared name, description, optional
/// fields and extension entries, with the text after the closing delimiter as
/// the body.
pub proof fn lemma_parse_round_trip(c: Seq<char>)
    requires
        marker_at(spec_trim_start(c), 0),
        spec_find_marker(spec_trim_start(c), 3) is Some,
        yaml_block_err(doc_block(c)) is None,
        yaml_text_field(doc_block(c), "name"@) is Some,
        crate::metadata::spec_valid_name(yaml_text_field(doc_block(c), "name"@)->Some_0),
        yaml_text_field(doc_block(c), "description"@) is Some,
        (yaml_text_field(doc_block(c), "description"@)->Some_0).len() <= 1024,
        !(yaml_pairs_field(doc_block(c), "metadata"@) matches Some(Err(_))),
    ensures
        spec_parse(c) matches ParseOutcome::Parsed(m, b) && m.name == yaml_text_field(
            doc_block(c),
            "name"@,
        )->Some_0 && m.description == yaml_text_field(doc_block(c), "description"@)->Some_0
            && m.license == yaml_text_field(doc_block(c), "license"@) && m.compatibility
            == yaml_text_field(doc_block(c), "compatibility"@) && m.allowed_tools
            == yaml_text_field(doc_block(c), "allowed_tools"@) && m.metadata == (
        match yaml_pairs_field(doc_block(c), "metadata"@) {
            Some(Ok(v)) => v,
            _ => Seq::<(Seq<char>, Seq<char>)>::empty(),
        }) && b == doc_body(c),
{
    let block = doc_block(c);
    let name = yaml_text_field(block, "name"@)->Some_0;
    let description = yaml_text_field(block, "description"@)->Some_0;
    let pairs = (match yaml_pairs_field(block, "metadata"@) {
        Some(Ok(v)) => v,
        _ => Seq::<(Seq<char>, Seq<char>)>::empty(),
    });
    let meta = spec_block_meta(block, name, description, pairs);
    assert(spec_validate(meta) is Ok) by {
        if exists|i: int|
            0 <= i < meta.name.len() && !crate::metadata::is_name_char(#[trigger] meta.name[i]) {
            let i = choose|i: int|
                0 <= i < meta.name.len() && !crate::metadata::is_name_char(
                    #[trigger] meta.name[i],
                );
            assert(crate::metadata::is_name_char(name[i]));
        }
    }
}

/// Splits a definition document into metadata and body.
///
/// The document must open, after leading whitespace, with the `---` delimiter,
/// closed by its next occurrence; the block between them is decoded and
/// validated, and the text after the closing delimiter, trimmed of leading
/// whitespace, is the body.
pub fn parse_skill_file(content: &str) -> (r: Result<(SkillMetadata, String), ParseError>)
    ensures
        (match r {
            Ok(p) => spec_parse(content@) == ParseOutcome::Parsed(p.0@, p.1@),
            Err(ParseError::MalformedDocument) => spec_parse(content@) == ParseOutcome::Malformed,
            Err(ParseError::MetadataParse(m)) => spec_parse(content@) == ParseOutcome::BadYaml(m@),
            Err(ParseError::Validation(v)) => spec_parse(content@) == ParseOutcome::Invalid(v),
        }),
{
    let t = trim_start_str(content);
    let tlen = t.unicode_len();
    if tlen < 3 || !(t.get_char(0) == '-' && t.get_char(1) == '-' && t.get_char(2) == '-') {
        return Err(ParseError::MalformedDocument);
    }
    let j = match find_marker(t, 3) {
        None => {
            return Err(ParseError::MalformedDocument);
        },
        Some(j) => j,
    };
    proof {
        lemma_find_marker_props(t@, 3);
    }
    let block_str = trim_str(t.substring_char(3, j));
    let body = String::from_str(trim_start_str(t.substring_char(j + 3, tlen)));
    if let Some(e) = yaml_check_mapping(block_str) {
        return Err(ParseError::MetadataParse(
            String::from_str("failed to parse YAML frontmatter: ").concat(e.as_str()),
        ));
    }
    let name = match yaml_string_field(block_str, "name") {
        Some(n) => n,
        None => {
            return Err(ParseError::MetadataParse(
                String::from_str("missing or non-string field: name"),
            ));
        },
    };
    let description = match yaml_string_field(block_str, "description") {
        Some(d) => d,
        None => {
            return Err(ParseError::MetadataParse(
                String::from_str("missing or non-string field: description"),
            ));
        },
    };
    let pairs = match yaml_string_pairs_field(block_str, "metadata") {
        Some(Ok(v)) => v,
        Some(Err(e)) => {
            return Err(ParseError::MetadataParse(
                String::from_str("failed to parse YAML frontmatter: ").concat(e.as_str()),
            ));
        },
        None => Vec::new(),
    };
    proof {
        assert(pairs.deep_view() =~= (match yaml_pairs_field(block_str@, "metadata"@) {
            Some(Ok(v)) => v,
            _ => Seq::<(Seq<char>, Seq<char>)>::empty(),
        }));
    }
    let meta = SkillMetadata {
        name,
        description,
        license: yaml_string_field(block_str, "license"),
        compatibility: yaml_string_field(block_str, "compatibility"),
        metadata: pairs,
        allowed_tools: yaml_string_field(block_str, "allowed_tools"),
    };
    proof {
        assert(meta@.license == yaml_text_field(block_str@, "license"@));
        assert(meta@.compatibility == yaml_text_field(block_str@, "compatibility"@));
        assert(meta@.allowed_tools == yaml_text_field(block_str@, "allowed_tools"@));
        assert(meta@ == spec_block_meta(block_str@, meta@.name, meta@.description, meta@.metadata));
    }
    match meta.validate() {
        Err(v) => Err(ParseError::Validation(v)),
        Ok(u) => Ok((meta, body)),
    }
}

} // verus!
