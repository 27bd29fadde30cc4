use skills::collection::{merge_skill_collections, SkillSet};
use skills::format::{skill_prompt_entries, truncate_description, PromptRenderer};
use skills::format::format_skills_for_prompt;
use skills::metadata::SkillMetadata;
use skills::skill::Skill;

fn mk_skill(name: &str, description: &str) -> Skill {
    Skill {
        metadata: SkillMetadata {
            name: name.to_string(),
            description: description.to_string(),
            license: None,
            compatibility: None,
            metadata: Vec::new(),
            allowed_tools: None,
        },
        body: String::new(),
        path: format!("/skills/{}", name),
    }
}

fn mk_set(skills: Vec<Skill>) -> SkillSet {
    let mut s = SkillSet::new();
    for sk in skills {
        s.insert(sk);
    }
    s
}

#[test]
fn merge_override_replaces_base_entry() {
    let base = mk_set(vec![mk_skill("a", "base a"), mk_skill("b", "base b")]);
    let o1 = mk_set(vec![mk_skill("b", "override b"), mk_skill("c", "override c")]);
    let merged = merge_skill_collections(base, vec![o1]);
    assert_eq!(merged.len(), 3);
    assert_eq!(merged.get("a").unwrap().metadata.description, "base a");
    assert_eq!(merged.get("b").unwrap().metadata.description, "override b");
    assert_eq!(merged.get("c").unwrap().metadata.description, "override c");
}

#[test]
fn merge_last_override_wins() {
    let base = mk_set(vec![mk_skill("a", "base a"), mk_skill("b", "base b")]);
    let o1 = mk_set(vec![mk_skill("b", "first b"), mk_skill("c", "first c")]);
    let o2 = mk_set(vec![mk_skill("c", "second c")]);
    let merged = merge_skill_collections(base, vec![o1, o2]);
    assert_eq!(merged.len(), 3);
    assert_eq!(merged.get("b").unwrap().metadata.description, "first b");
    assert_eq!(merged.get("c").unwrap().metadata.description, "second c");
}

#[test]
fn insert_overwrites_same_name() {
    let mut s = mk_set(vec![mk_skill("a", "one")]);
    s.insert(mk_skill("a", "two"));
    assert_eq!(s.len(), 1);
    assert_eq!(s.get("a").unwrap().metadata.description, "two");
    assert!(s.get("missing").is_none());
}

#[test]
fn format_entries_sorted_and_truncated() {
    let short = "short desc";
    let long = "x".repeat(90);
    let set = mk_set(vec![mk_skill("zeta", &long), mk_skill("alpha", short)]);
    let entries = skill_prompt_entries(&set);
    assert_eq!(entries.len(), 2);
    assert_eq!(entries[0].0, "alpha");
    assert_eq!(entries[0].1, "short desc");
    assert_eq!(entries[1].0, "zeta");
    assert_eq!(entries[1].1.chars().count(), 80);
    assert!(entries[1].1.ends_with("..."));
    assert_eq!(entries[1].1, format!("{}...", "x".repeat(77)));
}

#[test]
fn truncate_keeps_short_descriptions() {
    assert_eq!(truncate_description("abc"), "abc");
    let exactly_80 = "y".repeat(80);
    assert_eq!(truncate_description(&exactly_80), exactly_80);
    let over = "y".repeat(81);
    assert_eq!(truncate_description(&over), format!("{}...", "y".repeat(77)));
}

struct ListRenderer;

impl PromptRenderer for ListRenderer {
    fn render(&self, has_skills: bool, entries: &Vec<(String, String)>) -> Option<String> {
        if !has_skills {
            return Some("no skills available".to_string());
        }
        let mut out = String::new();
        for (name, description) in entries {
            out.push_str(name);
            out.push_str(": ");
            out.push_str(description);
            out.push('\n');
        }
        Some(out)
    }
}

struct FailingRenderer;

impl PromptRenderer for FailingRenderer {
    fn render(&self, _has_skills: bool, _entries: &Vec<(String, String)>) -> Option<String> {
        None
    }
}

#[test]
fn format_for_prompt_renders_sorted_list() {
    let set = mk_set(vec![mk_skill("b-skill", "second"), mk_skill("a-skill", "first")]);
    let text = format_skills_for_prompt(&set, &ListRenderer);
    assert_eq!(text, "a-skill: first\nb-skill: second\n");
}

#[test]
fn format_for_prompt_swallows_render_failure() {
    let set = mk_set(vec![mk_skill("a-skill", "first")]);
    let text = format_skills_for_prompt(&set, &FailingRenderer);
    assert_eq!(text, "");
}

#[test]
fn format_of_empty_collection_signals_no_skills() {
    let set = SkillSet::new();
    let text = format_skills_for_prompt(&set, &ListRenderer);
    assert_eq!(text, "no skills available");
}
