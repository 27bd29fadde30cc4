use skills::metadata::SkillMetadata;
use skills::skill::{join_path, path_within, Skill};

fn test_skill(path: &str) -> Skill {
    Skill {
        metadata: SkillMetadata {
            name: "test".to_string(),
            description: "test".to_string(),
            license: None,
            compatibility: None,
            metadata: Vec::new(),
            allowed_tools: None,
        },
        body: String::new(),
        path: path.to_string(),
    }
}

#[test]
fn test_skill_resolve_path() {
    let skill = test_skill("/home/user/.config/zed/skills/test");

    assert!(skill.resolve_path("scripts/run.sh").is_ok());
    assert!(skill.resolve_path("references/doc.md").is_ok());
    assert!(skill.resolve_path("../etc/passwd").is_err());
    assert!(skill.resolve_path("scripts/../../../etc/passwd").is_err());
}

#[test]
fn resolve_path_returns_joined_path() {
    let skill = test_skill("/nonexistent-root/skills/test");
    let r = skill.resolve_path("scripts/run.sh").unwrap();
    assert_eq!(r, "/nonexistent-root/skills/test/scripts/run.sh");
}

#[test]
fn resolve_path_rejects_absolute_escape() {
    let skill = test_skill("/nonexistent-root/skills/test");
    assert!(skill.resolve_path("/etc/passwd").is_err());
}

#[test]
fn path_within_is_component_wise() {
    assert!(path_within("/a/b", "/a/b"));
    assert!(path_within("/a/b", "/a/b/c"));
    assert!(!path_within("/a/b", "/a/bc"));
    assert!(!path_within("/a/b", "/a"));
    assert!(path_within("/", "/a"));
}

#[test]
fn join_path_inserts_separator() {
    assert_eq!(join_path("/a/b", "c/d"), "/a/b/c/d");
    assert_eq!(join_path("/a/b/", "c"), "/a/b/c");
    assert_eq!(join_path("/a/b", "/abs"), "/abs");
}
