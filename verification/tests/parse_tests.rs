use skills::metadata::{SkillMetadata, ValidationError};
use skills::parse::{parse_skill_file, ParseError};

fn meta_with_name(name: &str) -> SkillMetadata {
    SkillMetadata {
        name: name.to_string(),
        description: "A valid description".to_string(),
        license: None,
        compatibility: None,
        metadata: Vec::new(),
        allowed_tools: None,
    }
}

#[test]
fn test_parse_skill_file_valid() {
    let content = r#"---
name: pdf-processing
description: Extract text and tables from PDF files
license: MIT
---
# PDF Processing

This skill helps you work with PDF files.
"#;

    let (metadata, body) = parse_skill_file(content).unwrap();
    assert_eq!(metadata.name, "pdf-processing");
    assert_eq!(metadata.description, "Extract text and tables from PDF files");
    assert_eq!(metadata.license, Some("MIT".to_string()));
    assert!(body.starts_with("# PDF Processing"));
}

#[test]
fn test_parse_skill_file_no_frontmatter() {
    let content = "# Just markdown";
    assert!(parse_skill_file(content).is_err());
}

#[test]
fn test_skill_metadata_validation() {
    let metadata = meta_with_name("valid-skill");
    assert!(metadata.validate().is_ok());

    let metadata = meta_with_name("Invalid_Name");
    assert!(metadata.validate().is_err());

    let metadata = meta_with_name(&"a".repeat(65));
    assert!(metadata.validate().is_err());
}

#[test]
fn parse_missing_open_delimiter_is_malformed() {
    let r = parse_skill_file("name: x\ndescription: y\n");
    assert!(matches!(r, Err(ParseError::MalformedDocument)));
}

#[test]
fn parse_unclosed_delimiter_is_malformed() {
    let r = parse_skill_file("---\nname: x\ndescription: y\n");
    assert!(matches!(r, Err(ParseError::MalformedDocument)));
}

#[test]
fn parse_leading_whitespace_is_trimmed() {
    let content = "\n\n  ---\nname: abc\ndescription: d\n---\nBody here";
    let (metadata, body) = parse_skill_file(content).unwrap();
    assert_eq!(metadata.name, "abc");
    assert_eq!(body, "Body here");
}

#[test]
fn parse_missing_description_is_metadata_error() {
    let r = parse_skill_file("---\nname: x\n---\nbody");
    assert!(matches!(r, Err(ParseError::MetadataParse(_))));
}

#[test]
fn parse_non_mapping_block_is_metadata_error() {
    let r = parse_skill_file("---\n- just\n- a list\n---\nbody");
    assert!(matches!(r, Err(ParseError::MetadataParse(_))));
}

#[test]
fn parse_optional_fields_round_trip() {
    let content = "---\nname: tool\ndescription: d\ncompatibility: linux\nallowed_tools: a b\nmetadata:\n  team: docs\n  owner: me\n---\nbody";
    let (metadata, _body) = parse_skill_file(content).unwrap();
    assert_eq!(metadata.compatibility, Some("linux".to_string()));
    assert_eq!(metadata.allowed_tools, Some("a b".to_string()));
    assert_eq!(metadata.license, None);
    let mut pairs = metadata.metadata.clone();
    pairs.sort();
    assert_eq!(
        pairs,
        vec![
            ("owner".to_string(), "me".to_string()),
            ("team".to_string(), "docs".to_string())
        ]
    );
}

#[test]
fn parse_invalid_name_is_validation_error() {
    let r = parse_skill_file("---\nname: Bad_Name\ndescription: d\n---\nbody");
    assert!(matches!(
        r,
        Err(ParseError::Validation(ValidationError::NameInvalidChar))
    ));
}

#[test]
fn validate_reports_first_violation() {
    let mut m = meta_with_name("");
    assert_eq!(m.validate(), Err(ValidationError::EmptyName));
    m = meta_with_name(&"b".repeat(65));
    assert_eq!(m.validate(), Err(ValidationError::NameTooLong));
    m = meta_with_name("ok-name");
    m.description = "d".repeat(1025);
    assert_eq!(m.validate(), Err(ValidationError::DescriptionTooLong));
    m = meta_with_name("ok-name");
    m.description = "d".repeat(1024);
    assert_eq!(m.validate(), Ok(()));
}
