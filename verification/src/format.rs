//! Projection of a skill collection into the sorted, truncated summary list
//! handed to an external prompt renderer.

use vstd::prelude::*;
use crate::collection::{names_of, SkillSet};
use crate::skill::SkillView;
use crate::text::{lemma_lex_total, lemma_lex_trans, lex_lt, lex_lt_str};

verus! {

/// A description kept whole up to 80 characters; a longer one is cut to its
/// first 77 characters with a three-character ellipsis appended.
pub open spec fn spec_truncate(d: Seq<char>) -> Seq<char> {
    if d.len() > 80 {
        d.subrange(0, 77) + "..."@
    } else {
        d
    }
}

/// Truncates a description for the summary list.
pub fn truncate_description(d: &str) -> (r: String)
    ensures
        r@ == spec_truncate(d@),
{
    let len = d.unicode_len();
    if len > 80 {
        String::from_str(d.substring_char(0, 77)).concat("...")
    } else {
        String::from_str(d)
    }
}

/// Whether a summary entry stands for a skill: its name, and its description
/// truncated.
pub open spec fn entry_matches(e: (String, String), v: SkillView) -> bool {
    e.0@ == v.metadata.name && e.1@ == spec_truncate(v.metadata.description)
}

/// Whether the list holds an entry under the given name.
pub open spec fn has_entry_for(out: Seq<(String, String)>, nm: Seq<char>) -> bool {
    exists|a: int| 0 <= a < out.len() && (#[trigger] out[a].0@) == nm
}

/// The summary list: one (name, truncated description) pair per held skill,
/// sorted by name in strictly ascending code-point order.
pub fn skill_prompt_entries(skills: &SkillSet) -> (r: Vec<(String, String)>)
    requires
        skills.wf(),
    ensures
        r@.len() == skills.size(),
        forall|a: int, b: int| 0 <= a < b < r@.len() ==> lex_lt(r@[a].0@, r@[b].0@),
        forall|a: int|
            0 <= a < r@.len() ==> skills@.dom().contains(#[trigger] r@[a].0@) && r@[a].1@
                == spec_truncate(skills@[r@[a].0@].metadata.description),
        forall|n: Seq<char>|
            skills@.dom().contains(n) ==> exists|a: int| 0 <= a < r@.len() && (#[trigger] r@[a].0@)
                == n,
{
    let n = skills.len();
    let mut out: Vec<(String, String)> = Vec::new();
    let mut i: usize = 0;
    while i < n
        invariant
            0 <= i <= n,
            n == skills.size(),
            skills.wf(),
            out@.len() == i,
            forall|a: int, b: int| 0 <= a < b < out@.len() ==> lex_lt(out@[a].0@, out@[b].0@),
            forall|a: int|
                0 <= a < out@.len() ==> exists|j: int|
                    0 <= j < i && entry_matches(#[trigger] out@[a], skills.entries()[j]),
            forall|j: int|
                0 <= j < i ==> has_entry_for(out@, #[trigger] skills.entries()[j].metadata.name),
        decreases n - i,
    {
        let sk = skills.nth(i);
        let entry = (String::from_str(sk.name()), truncate_description(sk.description()));
        proof {
            assert(entry_matches(entry, skills.entries()[i as int]));
            assert forall|a: int| 0 <= a < out@.len() implies out@[a].0@ != entry.0@ by {
                let j = choose|j: int|
                    0 <= j < i && entry_matches(#[trigger] out@[a], skills.entries()[j]);
                assert(skills.entries()[j].metadata.name != skills.entries()[
                    i as int
                ].metadata.name);
            }
        }
        let olen = out.len();
        let mut pos: usize = 0;
        while pos < olen && lex_lt_str(out[pos].0.as_str(), entry.0.as_str())
            invariant
                0 <= pos <= olen,
                olen == out@.len(),
                forall|a: int| 0 <= a < pos ==> lex_lt(#[trigger] out@[a].0@, entry.0@),
            decreases olen - pos,
        {
            pos = pos + 1;
        }
        proof {
            if pos < olen {
                if !lex_lt(entry.0@, out@[pos as int].0@) {
                    lemma_lex_total(out@[pos as int].0@, entry.0@);
                }
                assert(lex_lt(entry.0@, out@[pos as int].0@));
            }
        }
        let ghost pre = out@;
        out.insert(pos, entry);
        proof {
            assert(out@ == pre.insert(pos as int, entry));
            assert forall|a: int| 0 <= a < pos implies out@[a] == pre[a] by {}
            assert(out@[pos as int] == entry);
            assert forall|a: int| pos < a < out@.len() implies out@[a] == pre[a - 1] by {}
            assert forall|a: int, b: int| 0 <= a < b < out@.len() implies lex_lt(
                (#[trigger] out@[a]).0@,
                (#[trigger] out@[b]).0@,
            ) by {
                if b < pos {
                } else if a > pos {
                } else if a < pos && b == pos {
                } else if a == pos && b > pos {
                    if b - 1 > pos {
                        lemma_lex_trans(entry.0@, pre[pos as int].0@, pre[b - 1].0@);
                    }
                } else if a < pos && b > pos {
                    if b - 1 == pos {
                        lemma_lex_trans(pre[a].0@, entry.0@, pre[b - 1].0@);
                    }
                }
            }
            assert forall|a: int| 0 <= a < out@.len() implies exists|j: int|
                0 <= j < i + 1 && entry_matches(#[trigger] out@[a], skills.entries()[j]) by {
                if a == pos {
                    assert(entry_matches(out@[a], skills.entries()[i as int]));
                } else if a < pos {
                    let j = choose|j: int|
                        0 <= j < i && entry_matches(#[trigger] pre[a], skills.entries()[j]);
                    assert(entry_matches(out@[a], skills.entries()[j]));
                } else {
                    let j = choose|j: int|
                        0 <= j < i && entry_matches(#[trigger] pre[a - 1], skills.entries()[j]);
                    assert(entry_matches(out@[a], skills.entries()[j]));
                }
            }
            assert forall|j: int| 0 <= j < i + 1 implies has_entry_for(
                out@,
                #[trigger] skills.entries()[j].metadata.name,
            ) by {
                if j == i {
                    assert(out@[pos as int].0@ == skills.entries()[j].metadata.name);
                } else {
                    let a = choose|a: int|
                        0 <= a < pre.len() && (#[trigger] pre[a].0@)
                            == skills.entries()[j].metadata.name;
                    if a < pos {
                        assert(out@[a].0@ == skills.entries()[j].metadata.name);
                    } else {
                        assert(out@[a + 1].0@ == skills.entries()[j].metadata.name);
                    }
                }
            }
        }
        i = i + 1;
    }
    proof {
        assert forall|a: int|
            0 <= a < out@.len() implies skills@.dom().contains(#[trigger] out@[a].0@) && out@[a].1@
            == spec_truncate(skills@[out@[a].0@].metadata.description) by {
            let j = choose|j: int|
                0 <= j < n && entry_matches(#[trigger] out@[a], skills.entries()[j]);
            skills.lemma_entry_in_view(j);
        }
        assert forall|nm: Seq<char>| skills@.dom().contains(nm) implies exists|a: int|
            0 <= a < out@.len() && (#[trigger] out@[a].0@) == nm by {
            skills.lemma_dom();
            assert(names_of(skills.entries()).contains(nm));
            let j = choose|j: int|
                0 <= j < skills.entries().len() && (#[trigger] skills.entries()[j].metadata.name)
                    == nm;
            assert(has_entry_for(out@, skills.entries()[j].metadata.name));
        }
    }
    out
}

/// The external rendering capability: turns the empty-or-not flag and the
/// ordered summary entries into prompt text, or fails.
pub trait PromptRenderer {
    /// Renders the summary list; a failure is reported as nothing.
    fn render(&self, has_skills: bool, entries: &Vec<(String, String)>) -> Option<String>;
}

/// Formats a collection for the system prompt: projects it to the sorted,
/// truncated summary list and hands that to the renderer; a rendering failure
/// degrades to the empty string.
pub fn format_skills_for_prompt<R: PromptRenderer>(skills: &SkillSet, templates: &R) -> (r: String)
    requires
        skills.wf(),
{
    let entries = skill_prompt_entries(skills);
    let has_skills = entries.len() > 0;
    match templates.render(has_skills, &entries) {
        Some(text) => text,
        None => String::new(),
    }
}

} // verus!
