//! The injected filesystem capability discovery reads through, its
//! mathematical model, and a plain-value implementation.

use vstd::prelude::*;
use crate::text::str_eq;

verus! {

/// A snapshot model of the filesystem a discovery pass observes.
pub struct FsModel {
    /// The paths that are directories.
    pub dirs: Set<Seq<char>>,
    /// For each listable directory, the names of its children in listing
    /// order.
    pub listings: Map<Seq<char>, Seq<Seq<char>>>,
    /// For each existing file, its content, or nothing where reading fails.
    pub files: Map<Seq<char>, Option<Seq<char>>>,
}

/// The filesystem capability: directory tests, listing and file reads.
///
/// Implementations answer according to their model; an unlistable directory or
/// unreadable file shows up as a failed call, never as an aborted scan.
pub trait SkillsFs {
    /// The snapshot this capability answers from. The default is the empty
    /// snapshot; an implementation whose answers a proof should see overrides
    /// it.
    open spec fn model(&self) -> FsModel {
        FsModel { dirs: Set::empty(), listings: Map::empty(), files: Map::empty() }
    }

    /// Whether `p` is a directory.
    fn is_dir(&self, p: &str) -> (r: bool)
        ensures
            r == self.model().dirs.contains(p@),
    ;

    /// Whether `p` is a file.
    fn is_file(&self, p: &str) -> (r: bool)
        ensures
            r == self.model().files.dom().contains(p@),
    ;

    /// The names of the entries directly under `p`, or nothing where the
    /// directory cannot be listed.
    fn read_dir(&self, p: &str) -> (r: Option<Vec<String>>)
        ensures
            (match r {
                Some(v) => self.model().listings.dom().contains(p@) && v.deep_view()
                    == self.model().listings[p@],
                None => !self.model().listings.dom().contains(p@),
            }),
    ;

    /// The content of the file at `p`, or nothing where it does not exist or
    /// cannot be read.
    fn load(&self, p: &str) -> (r: Option<String>)
        ensures
            (match r {
                Some(c) => self.model().files.dom().contains(p@) && self.model().files[p@] == Some(
                    c@,
                ),
                None => !(self.model().files.dom().contains(p@) && self.model().files[p@] is Some),
            }),
    ;
}

/// The first listing associated with `k`, scanning left to right.
pub open spec fn assoc_listing(s: Seq<(String, Vec<String>)>, k: Seq<char>) -> Option<
    Seq<Seq<char>>,
>
    decreases s.len(),
{
    if s.len() == 0 {
        None
    } else if s[0].0@ == k {
        Some(s[0].1.deep_view())
    } else {
        assoc_listing(s.drop_first(), k)
    }
}

/// The first file entry associated with `k`, scanning left to right.
pub open spec fn assoc_file(s: Seq<(String, Option<String>)>, k: Seq<char>) -> Option<
    Option<Seq<char>>,
>
    decreases s.len(),
{
    if s.len() == 0 {
        None
    } else if s[0].0@ == k {
        Some(s[0].1.deep_view())
    } else {
        assoc_file(s.drop_first(), k)
    }
}

/// A filesystem built from plain values, answering exactly from its tables.
pub struct FakeFs {
    /// Paths that are directories.
    pub dirs: Vec<String>,
    /// Directory path to child names; the first entry for a path wins.
    pub listings: Vec<(String, Vec<String>)>,
    /// File path to content, or to nothing for an unreadable file; the first
    /// entry for a path wins.
    pub files: Vec<(String, Option<String>)>,
}

impl FakeFs {
    /// An empty filesystem.
    pub fn new() -> (r: FakeFs)
        ensures
            r.dirs@.len() == 0,
            r.listings@.len() == 0,
            r.files@.len() == 0,
    {
        FakeFs { dirs: Vec::new(), listings: Vec::new(), files: Vec::new() }
    }
}

/// Clones a vector of strings by rebuilding it.
fn clone_strings(v: &Vec<String>) -> (r: Vec<String>)
    ensures
        r.deep_view() == v.deep_view(),
{
    let mut r: Vec<String> = Vec::new();
    let n = v.len();
    let mut i: usize = 0;
    while i < n
        invariant
            0 <= i <= n,
            n == v@.len(),
            r@.len() == i,
            forall|j: int| 0 <= j < i ==> r@[j]@ == v@[j]@,
        decreases n - i,
    {
        r.push(String::from_str(v[i].as_str()));
        i = i + 1;
    }
    proof {
        assert(r.deep_view() =~= v.deep_view());
    }
    r
}

impl SkillsFs for FakeFs {
    open spec fn model(&self) -> FsModel {
        FsModel {
            dirs: Set::new(
                |n: Seq<char>|
                    exists|i: int| 0 <= i < self.dirs@.len() && (#[trigger] self.dirs@[i]@) == n,
            ),
            listings: Map::new(
                |k: Seq<char>| assoc_listing(self.listings@, k) is Some,
                |k: Seq<char>| assoc_listing(self.listings@, k)->Some_0,
            ),
            files: Map::new(
                |k: Seq<char>| assoc_file(self.files@, k) is Some,
                |k: Seq<char>| assoc_file(self.files@, k)->Some_0,
            ),
        }
    }

    fn is_dir(&self, p: &str) -> (r: bool) {
        let n = self.dirs.len();
        let mut i: usize = 0;
        while i < n
            invariant
                0 <= i <= n,
                n == self.dirs@.len(),
                forall|j: int| 0 <= j < i ==> (#[trigger] self.dirs@[j]@) != p@,
            decreases n - i,
        {
            if str_eq(self.dirs[i].as_str(), p) {
                return true;
            }
            i = i + 1;
        }
        false
    }

    fn is_file(&self, p: &str) -> (r: bool) {
        let n = self.files.len();
        let mut i: usize = 0;
        proof {
            assert(self.files@.skip(0) =~= self.files@);
        }
        while i < n
            invariant
                0 <= i <= n,
                n == self.files@.len(),
                assoc_file(self.files@, p@) == assoc_file(self.files@.skip(i as int), p@),
            decreases n - i,
        {
            proof {
                assert(self.files@.skip(i as int).drop_first() =~= self.files@.skip(i as int + 1));
                assert(self.files@.skip(i as int)[0] == self.files@[i as int]);
            }
            if str_eq(self.files[i].0.as_str(), p) {
                return true;
            }
            i = i + 1;
        }
        proof {
            assert(self.files@.skip(n as int) =~= Seq::<(String, Option<String>)>::empty());
        }
        false
    }

    fn read_dir(&self, p: &str) -> (r: Option<Vec<String>>) {
        let n = self.listings.len();
        let mut i: usize = 0;
        proof {
            assert(self.listings@.skip(0) =~= self.listings@);
        }
        while i < n
            invariant
                0 <= i <= n,
                n == self.listings@.len(),
                assoc_listing(self.listings@, p@) == assoc_listing(
                    self.listings@.skip(i as int),
                    p@,
                ),
            decreases n - i,
        {
            proof {
                assert(self.listings@.skip(i as int).drop_first() =~= self.listings@.skip(
                    i as int + 1,
                ));
                assert(self.listings@.skip(i as int)[0] == self.listings@[i as int]);
            }
            if str_eq(self.listings[i].0.as_str(), p) {
                return Some(clone_strings(&self.listings[i].1));
            }
            i = i + 1;
        }
        proof {
            assert(self.listings@.skip(n as int) =~= Seq::<(String, Vec<String>)>::empty());
        }
        None
    }

    fn load(&self, p: &str) -> (r: Option<String>) {
        let n = self.files.len();
        let mut i: usize = 0;
        proof {
            assert(self.files@.skip(0) =~= self.files@);
        }
        while i < n
            invariant
                0 <= i <= n,
                n == self.files@.len(),
                assoc_file(self.files@, p@) == assoc_file(self.files@.skip(i as int), p@),
            decreases n - i,
        {
            proof {
                assert(self.files@.skip(i as int).drop_first() =~= self.files@.skip(i as int + 1));
                assert(self.files@.skip(i as int)[0] == self.files@[i as int]);
            }
            if str_eq(self.files[i].0.as_str(), p) {
                return (match &self.files[i].1 {
                    Some(c) => Some(String::from_str(c.as_str())),
                    None => None,
                });
            }
            i = i + 1;
        }
        proof {
            assert(self.files@.skip(n as int) =~= Seq::<(String, Option<String>)>::empty());
        }
        None
    }
}

} // verus!
