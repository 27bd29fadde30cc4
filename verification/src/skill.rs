//! The validated skill unit and traversal-safe resolution of paths inside its
//! directory.

use vstd::prelude::*;
use crate::metadata::{MetaView, SkillMetadata};

verus! {

/// A discovered, validated skill.
pub struct Skill {
    /// The metadata parsed from the definition file's frontmatter.
    pub metadata: SkillMetadata,
    /// The free-text body following the frontmatter, leading whitespace
    /// trimmed.
    pub body: String,
    /// The absolute path of the skill's directory.
    pub path: String,
}

/// The mathematical view of a [`Skill`].
pub struct SkillView {
    pub metadata: MetaView,
    pub body: Seq<char>,
    pub path: Seq<char>,
}

impl View for Skill {
    type V = SkillView;

    open spec fn view(&self) -> SkillView {
        SkillView { metadata: self.metadata@, body: self.body@, path: self.path@ }
    }
}

/// The failure of resolving a skill-relative path.
#[derive(Clone, Copy, Debug, PartialEq, Eq, Structural)]
pub enum ResolveError {
    /// The path names or reaches outside the skill directory.
    PathTraversal,
}

/// Whether the sequence holds two consecutive dots anywhere.
pub open spec fn contains_dotdot(s: Seq<char>) -> bool {
    exists|i: int| 0 <= i && i + 2 <= s.len() && #[trigger] s[i] == '.' && s[i + 1] == '.'
}

/// Scans for two consecutive dots.
pub fn has_dotdot(s: &str) -> (r: bool)
    ensures
        r == contains_dotdot(s@),
{
    let len = s.unicode_len();
    if len < 2 {
        return false;
    }
    let mut i: usize = 0;
    while i < len - 1
        invariant
            0 <= i <= len - 1,
            2 <= len == s@.len(),
            forall|j: int| 0 <= j < i ==> !(#[trigger] s@[j] == '.' && s@[j + 1] == '.'),
        decreases len - i,
    {
        if s.get_char(i) == '.' && s.get_char(i + 1) == '.' {
            return true;
        }
        i = i + 1;
    }
    false
}

/// Joining a relative path onto a base: an absolute right-hand side replaces
/// the base, otherwise the two are separated by a slash.
pub open spec fn spec_join(base: Seq<char>, rel: Seq<char>) -> Seq<char> {
    if rel.len() > 0 && rel[0] == '/' {
        rel
    } else if base.len() > 0 && base.last() == '/' {
        base + rel
    } else {
        base + "/"@ + rel
    }
}

/// Joins a relative path onto a base path.
pub fn join_path(base: &str, rel: &str) -> (r: String)
    ensures
        r@ == spec_join(base@, rel@),
{
    let rlen = rel.unicode_len();
    if rlen > 0 && rel.get_char(0) == '/' {
        return String::from_str(rel);
    }
    let blen = base.unicode_len();
    if blen > 0 && base.get_char(blen - 1) == '/' {
        String::from_str(base).concat(rel)
    } else {
        String::from_str(base).concat("/").concat(rel)
    }
}

/// Whether `p` lies within `root`, component-wise: `p` is `root` itself, or
/// continues it immediately past a separator.
pub open spec fn spec_within(root: Seq<char>, p: Seq<char>) -> bool {
    p == root || (root.len() > 0 && root.last() == '/' && p.len() >= root.len() && p.subrange(
        0,
        root.len() as int,
    ) == root) || (p.len() > root.len() && p.subrange(0, root.len() as int) == root && p[root.len()
        as int] == '/')
}

/// Whether the first `root.len()` characters of `p` spell `root`.
fn prefix_matches(root: &str, p: &str) -> (r: bool)
    requires
        root@.len() <= p@.len(),
    ensures
        r == (p@.subrange(0, root@.len() as int) == root@),
{
    let rlen = root.unicode_len();
    let mut i: usize = 0;
    while i < rlen
        invariant
            0 <= i <= rlen,
            rlen == root@.len() <= p@.len(),
            forall|j: int| 0 <= j < i ==> p@[j] == root@[j],
        decreases rlen - i,
    {
        if p.get_char(i) != root.get_char(i) {
            proof {
                assert(p@.subrange(0, root@.len() as int)[i as int] != root@[i as int]);
            }
            return false;
        }
        i = i + 1;
    }
    proof {
        assert(p@.subrange(0, root@.len() as int) =~= root@);
    }
    true
}

/// Decides [`spec_within`].
pub fn path_within(root: &str, p: &str) -> (r: bool)
    ensures
        r == spec_within(root@, p@),
{
    let rlen = root.unicode_len();
    let plen = p.unicode_len();
    if plen < rlen {
        proof {
            assert(p@ != root@);
        }
        return false;
    }
    if !prefix_matches(root, p) {
        proof {
            assert(p@ == root@ ==> p@.subrange(0, root@.len() as int) =~= root@);
        }
        return false;
    }
    if plen == rlen {
        proof {
            assert(p@ =~= p@.subrange(0, root@.len() as int));
        }
        return true;
    }
    (rlen > 0 && root.get_char(rlen - 1) == '/') || p.get_char(rlen) == '/'
}

/// The authoritative containment check, applied to the canonical forms of the
/// skill root and the joined candidate: the candidate is returned exactly when
/// it lies within the root.
pub fn resolve_within(root: &String, candidate: String) -> (r: Result<String, ResolveError>)
    ensures
        (match r {
            Ok(q) => spec_within(root@, candidate@) && q@ == candidate@,
            Err(e) => !spec_within(root@, candidate@) && e == ResolveError::PathTraversal,
        }),
{
    if path_within(root.as_str(), candidate.as_str()) {
        Ok(candidate)
    } else {
        Err(ResolveError::PathTraversal)
    }
}

/// Relies on std::path::Path::canonicalize: resolves symlinks and normalizes a
/// path that exists. The result depends on the filesystem, so nothing is
/// assumed of it.
#[verifier::external_body]
fn canonicalize_path(p: &String) -> (r: Option<String>) {
    match std::path::Path::new(p.as_str()).canonicalize() {
        Ok(c) => c.to_str().map(|s| s.to_string()),
        Err(_) => None,
    }
}

impl Skill {
    /// The skill's name.
    pub fn name(&self) -> (r: &str)
        ensures
            r@ == self@.metadata.name,
    {
        self.metadata.name.as_str()
    }

    /// The skill's description.
    pub fn description(&self) -> (r: &str)
        ensures
            r@ == self@.metadata.description,
    {
        self.metadata.description.as_str()
    }

    /// Resolves a file path relative to the skill directory, rejecting any
    /// attempt to reach outside it.
    ///
    /// A relative path holding two consecutive dots is rejected outright.
    /// Otherwise the path is joined onto the skill root and both are
    /// canonicalized where the filesystem allows, each falling back to the
    /// uncanonicalized form; the joined path is returned exactly when
    /// [`resolve_within`] accepts it against the root's canonical form.
    pub fn resolve_path(&self, relative_path: &str) -> (r: Result<String, ResolveError>)
        ensures
            contains_dotdot(relative_path@) ==> r == Err::<String, ResolveError>(
                ResolveError::PathTraversal,
            ),
            r is Ok ==> !contains_dotdot(relative_path@),
    {
        if has_dotdot(relative_path) {
            return Err(ResolveError::PathTraversal);
        }
        let resolved = join_path(self.path.as_str(), relative_path);
        let canonical_resolved = match canonicalize_path(&resolved) {
            Some(c) => c,
            None => resolved,
        };
        let canonical_root = match canonicalize_path(&self.path) {
            Some(c) => c,
            None => self.path.clone(),
        };
        resolve_within(&canonical_root, canonical_resolved)
    }
}

} // verus!
