//! Discovery of skills under candidate roots, and the layered pass over the
//! global root and per-worktree roots.

use vstd::prelude::*;
use crate::collection::{spec_merge, SkillSet};
use crate::fsys::{FsModel, SkillsFs};
use crate::parse::{parse_skill_file, spec_parse, ParseOutcome};
use crate::skill::{spec_join, join_path, Skill, SkillView};
use crate::text::str_eq;

verus! {

/// What one child of a candidate root contributes: a validated skill, or
/// nothing where the child is no directory, lacks a readable definition file,
/// fails parsing or validation, or declares a name other than its directory's.
pub open spec fn spec_entry(m: FsModel, root: Seq<char>, name: Seq<char>) -> Option<SkillView> {
    let dir = spec_join(root, name);
    let file = spec_join(dir, "SKILL.md"@);
    if !m.dirs.contains(dir) {
        None
    } else if !m.files.dom().contains(file) {
        None
    } else {
        match m.files[file] {
            None => None,
            Some(content) => match spec_parse(content) {
                ParseOutcome::Parsed(meta, body) => if meta.name == name {
                    Some(SkillView { metadata: meta, body, path: dir })
                } else {
                    None
                },
                _ => None,
            },
        }
    }
}

/// The collection a listing of child names yields, later entries overwriting
/// earlier ones of the same name.
pub open spec fn spec_discover_list(m: FsModel, root: Seq<char>, names: Seq<Seq<char>>) -> Map<
    Seq<char>,
    SkillView,
>
    decreases names.len(),
{
    if names.len() == 0 {
        Map::empty()
    } else {
        match spec_entry(m, root, names.last()) {
            Some(sk) => spec_discover_list(m, root, names.drop_last()).insert(
                sk.metadata.name,
                sk,
            ),
            None => spec_discover_list(m, root, names.drop_last()),
        }
    }
}

/// The collection discovery over a root yields: empty where the root is no
/// directory or cannot be listed, else the fold over its listing.
pub open spec fn spec_discover(m: FsModel, root: Seq<char>) -> Map<Seq<char>, SkillView> {
    if m.dirs.contains(root) && m.listings.dom().contains(root) {
        spec_discover_list(m, root, m.listings[root])
    } else {
        Map::empty()
    }
}

/// Discovers the skills under a candidate root.
///
/// Each immediate child directory with a readable `SKILL.md` that parses,
/// validates and declares the directory's own name contributes a skill; any
/// other child is skipped without aborting the scan. A root that is no
/// directory or cannot be listed yields the empty collection.
pub fn discover_skills_sync<F: SkillsFs>(fs: &F, skills_dir: &str) -> (r: SkillSet)
    ensures
        r.wf(),
        r@ == spec_discover(fs.model(), skills_dir@),
{
    let mut out = SkillSet::new();
    if !fs.is_dir(skills_dir) {
        return out;
    }
    let names = match fs.read_dir(skills_dir) {
        Some(v) => v,
        None => {
            return out;
        },
    };
    let ghost m = fs.model();
    let ghost all = names.deep_view();
    let n = names.len();
    let mut i: usize = 0;
    proof {
        assert(all.take(0) =~= Seq::<Seq<char>>::empty());
    }
    while i < n
        invariant
            0 <= i <= n,
            n == names@.len(),
            all == names.deep_view(),
            m == fs.model(),
            out.wf(),
            out@ == spec_discover_list(m, skills_dir@, all.take(i as int)),
        decreases n - i,
    {
        proof {
            assert(all.take(i as int + 1).drop_last() =~= all.take(i as int));
            assert(all.take(i as int + 1).last() == all[i as int]);
            assert(all[i as int] == names@[i as int]@);
        }
        let name = names[i].as_str();
        let dir = join_path(skills_dir, name);
        if fs.is_dir(dir.as_str()) {
            let file = join_path(dir.as_str(), "SKILL.md");
            if fs.is_file(file.as_str()) {
                if let Some(content) = fs.load(file.as_str()) {
                    if let Ok((meta, body)) = parse_skill_file(content.as_str()) {
                        if str_eq(meta.name.as_str(), name) {
                            let skill = Skill { metadata: meta, body, path: dir };
                            out.insert(skill);
                        }
                    }
                }
            }
        }
        i = i + 1;
    }
    proof {
        assert(all.take(n as int) =~= all);
    }
    out
}

/// The worktree-relative skills directory: `.agents/skills` under the root.
pub fn worktree_skills_dir(worktree_root: &str) -> (r: String)
    ensures
        r@ == spec_join(spec_join(worktree_root@, ".agents"@), "skills"@),
{
    let d = join_path(worktree_root, ".agents");
    join_path(d.as_str(), "skills")
}

/// The collections a layered pass merges: the global root's skills as the
/// base, each worktree's `.agents/skills` as an override, in order.
pub open spec fn spec_discover_all(
    m: FsModel,
    global_dir: Seq<char>,
    worktree_roots: Seq<Seq<char>>,
) -> Map<Seq<char>, SkillView> {
    spec_merge(
        spec_discover(m, global_dir),
        worktree_roots.map_values(
            |w: Seq<char>| spec_discover(m, spec_join(spec_join(w, ".agents"@), "skills"@)),
        ),
    )
}

/// Discovers skills from the global root and every worktree root; a worktree
/// skill overrides a global one of the same name, and a later worktree
/// overrides an earlier one.
pub fn discover_all_skills_sync<F: SkillsFs>(
    fs: &F,
    global_dir: &str,
    worktree_roots: &Vec<String>,
) -> (r: SkillSet)
    ensures
        r.wf(),
        r@ == spec_discover_all(fs.model(), global_dir@, worktree_roots.deep_view()),
{
    let ghost m = fs.model();
    let ghost roots = worktree_roots.deep_view();
    let ghost overrides = roots.map_values(
        |w: Seq<char>| spec_discover(m, spec_join(spec_join(w, ".agents"@), "skills"@)),
    );
    let mut acc = discover_skills_sync(fs, global_dir);
    let ghost base = acc@;
    let n = worktree_roots.len();
    let mut i: usize = 0;
    proof {
        assert(spec_merge(base, overrides.take(0)) =~= base) by {
            assert(overrides.take(0) =~= Seq::<Map<Seq<char>, SkillView>>::empty());
        }
    }
    while i < n
        invariant
            0 <= i <= n,
            n == worktree_roots@.len(),
            m == fs.model(),
            roots == worktree_roots.deep_view(),
            overrides == roots.map_values(
                |w: Seq<char>| spec_discover(m, spec_join(spec_join(w, ".agents"@), "skills"@)),
            ),
            acc.wf(),
            acc@ == spec_merge(base, overrides.take(i as int)),
        decreases n - i,
    {
        proof {
            assert(overrides.take(i as int + 1).drop_last() =~= overrides.take(i as int));
            assert(overrides.take(i as int + 1).last() == overrides[i as int]);
            assert(roots[i as int] == worktree_roots@[i as int]@);
        }
        let dir = worktree_skills_dir(worktree_roots[i].as_str());
        let found = discover_skills_sync(fs, dir.as_str());
        acc.merge_from(found);
        i = i + 1;
    }
    proof {
        assert(overrides.take(n as int) =~= overrides);
    }
    acc
}

} // verus!
