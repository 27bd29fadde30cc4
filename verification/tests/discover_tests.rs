use skills::discover::{discover_all_skills_sync, discover_skills_sync, worktree_skills_dir};
use skills::fsys::FakeFs;

const PDF_DOC: &str = "---\nname: pdf-processing\ndescription: Extract text and tables from PDF files\nlicense: MIT\n---\n# PDF Processing\n\nWorks on PDF files.\n";

fn doc(name: &str, description: &str) -> String {
    format!("---\nname: {}\ndescription: {}\n---\nbody of {}", name, description, name)
}

fn fs_with_root(root: &str, entries: Vec<(&str, Option<String>)>) -> FakeFs {
    let mut fs = FakeFs::new();
    fs.dirs.push(root.to_string());
    let mut names = Vec::new();
    for (name, content) in entries {
        names.push(name.to_string());
        let dir = format!("{}/{}", root, name);
        fs.dirs.push(dir.clone());
        if let Some(c) = content {
            fs.files.push((format!("{}/SKILL.md", dir), Some(c)));
        }
    }
    fs.listings.push((root.to_string(), names));
    fs
}

#[test]
fn discovery_finds_valid_skill() {
    let fs = fs_with_root("/skills", vec![("pdf-processing", Some(PDF_DOC.to_string()))]);
    let found = discover_skills_sync(&fs, "/skills");
    assert_eq!(found.len(), 1);
    let skill = found.get("pdf-processing").unwrap();
    assert_eq!(skill.metadata.license, Some("MIT".to_string()));
    assert!(skill.body.starts_with("# PDF Processing"));
    assert_eq!(skill.path, "/skills/pdf-processing");
}

#[test]
fn discovery_skips_name_mismatch() {
    let fs = fs_with_root(
        "/skills",
        vec![
            ("pdf-processing", Some(PDF_DOC.to_string())),
            ("renamed-dir", Some(doc("other-name", "mismatch"))),
        ],
    );
    let found = discover_skills_sync(&fs, "/skills");
    assert_eq!(found.len(), 1);
    assert!(found.get("pdf-processing").is_some());
    assert!(found.get("other-name").is_none());
    assert!(found.get("renamed-dir").is_none());
}

#[test]
fn discovery_skips_invalid_entries_only() {
    let fs = fs_with_root(
        "/skills",
        vec![
            ("good", Some(doc("good", "fine"))),
            ("no-file", None),
            ("bad-doc", Some("no frontmatter".to_string())),
            ("unreadable", Some(doc("unreadable", "x"))),
        ],
    );
    let mut fs = fs;
    // Make the last one an unreadable file instead of a readable one.
    fs.files.retain(|(p, _)| p != "/skills/unreadable/SKILL.md");
    fs.files.push(("/skills/unreadable/SKILL.md".to_string(), None));
    let found = discover_skills_sync(&fs, "/skills");
    assert_eq!(found.len(), 1);
    assert!(found.get("good").is_some());
}

#[test]
fn discovery_of_missing_root_is_empty() {
    let fs = FakeFs::new();
    let found = discover_skills_sync(&fs, "/nowhere");
    assert_eq!(found.len(), 0);
}

#[test]
fn worktree_skills_dir_appends_fixed_subdirectory() {
    assert_eq!(worktree_skills_dir("/repo"), "/repo/.agents/skills");
}

#[test]
fn discover_all_lets_worktree_override_global() {
    let mut fs = fs_with_root(
        "/global",
        vec![
            ("alpha", Some(doc("alpha", "global alpha"))),
            ("beta", Some(doc("beta", "global beta"))),
        ],
    );
    let wt = fs_with_root(
        "/repo/.agents/skills",
        vec![
            ("beta", Some(doc("beta", "worktree beta"))),
            ("gamma", Some(doc("gamma", "worktree gamma"))),
        ],
    );
    fs.dirs.extend(wt.dirs);
    fs.listings.extend(wt.listings);
    fs.files.extend(wt.files);

    let roots = vec!["/repo".to_string()];
    let all = discover_all_skills_sync(&fs, "/global", &roots);
    assert_eq!(all.len(), 3);
    assert_eq!(all.get("alpha").unwrap().metadata.description, "global alpha");
    assert_eq!(all.get("beta").unwrap().metadata.description, "worktree beta");
    assert_eq!(all.get("gamma").unwrap().metadata.description, "worktree gamma");
}
