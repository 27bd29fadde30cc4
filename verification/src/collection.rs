//! A name-keyed collection of skills and its layered, last-write-wins merge.

use vstd::prelude::*;
use vstd::pervasive::VecAdditionalExecFns;
use crate::skill::{Skill, SkillView};
use crate::text::str_eq;

verus! {

/// The views of a sequence of skills.
pub open spec fn views_of(s: Seq<Skill>) -> Seq<SkillView> {
    s.map_values(|k: Skill| k@)
}

/// Whether no two skills in the sequence share a name.
pub open spec fn unique_names(s: Seq<SkillView>) -> bool {
    forall|i: int, j: int|
        0 <= i < j < s.len() ==> (#[trigger] s[i].metadata.name) != (#[trigger] s[j].metadata.name)
}

/// The name-keyed map a sequence of skills denotes; a later entry with the same
/// name overwrites an earlier one.
pub open spec fn map_of(s: Seq<SkillView>) -> Map<Seq<char>, SkillView>
    decreases s.len(),
{
    if s.len() == 0 {
        Map::empty()
    } else {
        map_of(s.drop_last()).insert(s.last().metadata.name, s.last())
    }
}

/// The set of names occurring in a sequence of skills.
pub open spec fn names_of(s: Seq<SkillView>) -> Set<Seq<char>> {
    Set::new(|n: Seq<char>| exists|i: int| 0 <= i < s.len() && (#[trigger] s[i].metadata.name) == n)
}

/// The keys of the denoted map are exactly the names occurring in the sequence.
pub proof fn lemma_map_of_dom(s: Seq<SkillView>)
    ensures
        map_of(s).dom() == names_of(s),
    decreases s.len(),
{
    if s.len() == 0 {
        assert(map_of(s).dom() =~= names_of(s));
    } else {
        lemma_map_of_dom(s.drop_last());
        assert forall|n: Seq<char>| names_of(s).contains(n) implies map_of(s).dom().contains(
            n,
        ) by {
            let i = choose|i: int| 0 <= i < s.len() && (#[trigger] s[i].metadata.name) == n;
            if i < s.len() - 1 {
                assert(s.drop_last()[i].metadata.name == n);
                assert(names_of(s.drop_last()).contains(n));
            }
        }
        assert forall|n: Seq<char>| map_of(s).dom().contains(n) implies names_of(s).contains(
            n,
        ) by {
            if n != s.last().metadata.name {
                let i = choose|i: int|
                    0 <= i < s.drop_last().len() && (#[trigger] s.drop_last()[i].metadata.name)
                        == n;
                assert(s[i].metadata.name == n);
            } else {
                assert(s[s.len() - 1].metadata.name == n);
            }
        }
        assert(map_of(s).dom() =~= names_of(s));
    }
}

/// In a sequence without repeated names, each skill is the map's entry for its
/// name.
pub proof fn lemma_map_of_get(s: Seq<SkillView>, i: int)
    requires
        unique_names(s),
        0 <= i < s.len(),
    ensures
        map_of(s).dom().contains(s[i].metadata.name),
        map_of(s)[s[i].metadata.name] == s[i],
    decreases s.len(),
{
    if i == s.len() - 1 {
    } else {
        assert(unique_names(s.drop_last()));
        lemma_map_of_get(s.drop_last(), i);
        assert(s.drop_last()[i] == s[i]);
        assert(s[i].metadata.name != s.last().metadata.name);
    }
}

/// Without repeated names, the denoted map has one entry per skill.
pub proof fn lemma_map_of_card(s: Seq<SkillView>)
    requires
        unique_names(s),
    ensures
        map_of(s).dom().finite(),
        map_of(s).dom().len() == s.len(),
    decreases s.len(),
{
    broadcast use vstd::set::axiom_set_insert_len;

    if s.len() > 0 {
        assert(unique_names(s.drop_last()));
        lemma_map_of_card(s.drop_last());
        lemma_map_of_dom(s.drop_last());
        assert(!names_of(s.drop_last()).contains(s.last().metadata.name)) by {
            if names_of(s.drop_last()).contains(s.last().metadata.name) {
                let i = choose|i: int|
                    0 <= i < s.drop_last().len() && (#[trigger] s.drop_last()[i].metadata.name)
                        == s.last().metadata.name;
                assert(s[i].metadata.name == s[s.len() - 1].metadata.name);
            }
        }
    }
}

/// A name-keyed collection of skills. Entry order is irrelevant; the view is
/// the denoted map.
pub struct SkillSet {
    /// The held skills; consumers treat the order as irrelevant.
    pub skills: Vec<Skill>,
}

impl View for SkillSet {
    type V = Map<Seq<char>, SkillView>;

    open spec fn view(&self) -> Map<Seq<char>, SkillView> {
        map_of(views_of(self.skills@))
    }
}

impl SkillSet {
    /// The views of the held skills, in holding order.
    pub open spec fn entries(&self) -> Seq<SkillView> {
        views_of(self.skills@)
    }

    /// Well-formedness: no two held skills share a name.
    pub open spec fn wf(&self) -> bool {
        unique_names(self.entries())
    }

    /// How many skills are held.
    pub open spec fn size(&self) -> nat {
        self.skills@.len()
    }

    /// An empty collection.
    pub fn new() -> (r: SkillSet)
        ensures
            r.wf(),
            r@ == Map::<Seq<char>, SkillView>::empty(),
            r.size() == 0,
    {
        let r = SkillSet { skills: Vec::new() };
        proof {
            assert(r.entries() =~= Seq::<SkillView>::empty());
        }
        r
    }

    /// How many skills are held: one per name in the view.
    pub fn len(&self) -> (r: usize)
        requires
            self.wf(),
        ensures
            r == self.size(),
            r == self@.dom().len(),
    {
        proof {
            lemma_map_of_card(self.entries());
        }
        self.skills.len()
    }

    /// The skill at a holding position.
    pub fn nth(&self, i: usize) -> (r: &Skill)
        requires
            i < self.size(),
        ensures
            r@ == self.entries()[i as int],
    {
        &self.skills[i]
    }

    /// Each held skill is its name's entry in the view.
    pub proof fn lemma_entry_in_view(&self, i: int)
        requires
            self.wf(),
            0 <= i < self.size(),
        ensures
            self@.dom().contains(self.entries()[i].metadata.name),
            self@[self.entries()[i].metadata.name] == self.entries()[i],
    {
        lemma_map_of_get(self.entries(), i);
    }

    /// The view's keys are exactly the held names.
    pub proof fn lemma_dom(&self)
        ensures
            self@.dom() == names_of(self.entries()),
    {
        lemma_map_of_dom(self.entries());
    }

    /// Looks a skill up by name.
    pub fn get(&self, name: &str) -> (r: Option<&Skill>)
        requires
            self.wf(),
        ensures
            (match r {
                Some(sk) => self@.dom().contains(name@) && sk@ == self@[name@],
                None => !self@.dom().contains(name@),
            }),
    {
        let n = self.skills.len();
        let mut i: usize = 0;
        while i < n
            invariant
                0 <= i <= n,
                n == self.size(),
                self.wf(),
                forall|j: int| 0 <= j < i ==> (#[trigger] self.entries()[j].metadata.name) != name@,
            decreases n - i,
        {
            if str_eq(self.skills[i].metadata.name.as_str(), name) {
                proof {
                    self.lemma_entry_in_view(i as int);
                }
                return Some(&self.skills[i]);
            }
            i = i + 1;
        }
        proof {
            self.lemma_dom();
            assert(!names_of(self.entries()).contains(name@));
        }
        None
    }

    /// Inserts a skill under its name, overwriting a held skill of that name.
    pub fn insert(&mut self, skill: Skill)
        requires
            old(self).wf(),
        ensures
            final(self).wf(),
            final(self)@ == old(self)@.insert(skill@.metadata.name, skill@),
    {
        let n = self.skills.len();
        let mut i: usize = 0;
        while i < n
            invariant
                0 <= i <= n,
                n == self.size(),
                self.wf(),
                *self == *old(self),
                forall|j: int|
                    0 <= j < i ==> (#[trigger] self.entries()[j].metadata.name)
                        != skill@.metadata.name,
            decreases n - i,
        {
            if str_eq(self.skills[i].metadata.name.as_str(), skill.metadata.name.as_str()) {
                proof {
                    lemma_map_of_update(self.entries(), i as int, skill@);
                    assert(self.entries().update(i as int, skill@) =~= views_of(
                        self.skills@.update(i as int, skill),
                    ));
                }
                self.skills.set(i, skill);
                return ;
            }
            i = i + 1;
        }
        proof {
            assert(views_of(self.skills@.push(skill)) =~= self.entries().push(skill@));
            assert(views_of(self.skills@.push(skill)).drop_last() =~= self.entries());
        }
        self.skills.push(skill);
    }

    /// Folds another collection into this one; the other's entries win on a
    /// shared name.
    pub fn merge_from(&mut self, other: SkillSet)
        requires
            old(self).wf(),
            other.wf(),
        ensures
            final(self).wf(),
            final(self)@ == old(self)@.union_prefer_right(other@),
    {
        let ghost full = other.entries();
        let ghost base = self@;
        let mut rest = other.skills;
        let total = rest.len();
        proof {
            assert(total == full.len());
            assert(full.skip(0) =~= views_of(rest@));
            assert(base.union_prefer_right(map_of(full.take(0))) =~= base) by {
                assert(full.take(0) =~= Seq::<SkillView>::empty());
            }
        }
        let mut k: usize = 0;
        while rest.len() > 0
            invariant
                self.wf(),
                k == full.len() - rest@.len(),
                0 <= k <= full.len() <= usize::MAX,
                views_of(rest@) == full.skip(k as int),
                self@ == base.union_prefer_right(map_of(full.take(k as int))),
            decreases rest@.len(),
        {
            let ghost pre = rest@;
            let s = rest.remove(0);
            proof {
                assert(s == pre[0]);
                assert(views_of(pre)[0] == pre[0]@);
                assert(s@ == full.skip(k as int)[0]);
                assert(s@ == full[k as int]);
                assert(rest@ =~= pre.skip(1));
                assert(views_of(rest@) =~= views_of(pre).skip(1));
                assert(views_of(rest@) =~= full.skip(k as int + 1));
                assert(full.take(k as int + 1).drop_last() =~= full.take(k as int));
                assert(full.take(k as int + 1).last() == full[k as int]);
            }
            self.insert(s);
            proof {
                assert(base.union_prefer_right(map_of(full.take(k as int))).insert(
                    full[k as int].metadata.name,
                    full[k as int],
                ) =~= base.union_prefer_right(map_of(full.take(k as int + 1))));
            }
            k = k + 1;
        }
        proof {
            assert(full.take(full.len() as int) =~= full);
        }
    }
}

/// Replacing the skill that holds a name keeps the rest of the map unchanged.
pub proof fn lemma_map_of_update(s: Seq<SkillView>, i: int, x: SkillView)
    requires
        unique_names(s),
        0 <= i < s.len(),
        s[i].metadata.name == x.metadata.name,
    ensures
        unique_names(s.update(i, x)),
        map_of(s.update(i, x)) == map_of(s).insert(x.metadata.name, x),
    decreases s.len(),
{
    assert forall|a: int, b: int| 0 <= a < b < s.len() implies (#[trigger] s.update(
        i,
        x,
    )[a].metadata.name) != (#[trigger] s.update(i, x)[b].metadata.name) by {
        assert(s[a].metadata.name != s[b].metadata.name);
    }
    if i == s.len() - 1 {
        assert(s.update(i, x).drop_last() =~= s.drop_last());
        assert(s.update(i, x).last() == x);
        assert(map_of(s.drop_last()).insert(s.last().metadata.name, s.last()).insert(
            x.metadata.name,
            x,
        ) =~= map_of(s.drop_last()).insert(x.metadata.name, x));
    } else {
        assert(unique_names(s.drop_last()));
        assert(s.drop_last()[i] == s[i]);
        lemma_map_of_update(s.drop_last(), i, x);
        assert(s.update(i, x).drop_last() =~= s.drop_last().update(i, x));
        assert(s.update(i, x).last() == s.last());
        assert(s.last().metadata.name != x.metadata.name);
        assert(map_of(s.drop_last()).insert(x.metadata.name, x).insert(
            s.last().metadata.name,
            s.last(),
        ) =~= map_of(s.drop_last()).insert(s.last().metadata.name, s.last()).insert(
            x.metadata.name,
            x,
        ));
    }
}

/// The merge of a base map with an ordered sequence of override maps: each
/// override's entries overwrite what stands, so the last writer wins.
pub open spec fn spec_merge(
    base: Map<Seq<char>, SkillView>,
    overrides: Seq<Map<Seq<char>, SkillView>>,
) -> Map<Seq<char>, SkillView>
    decreases overrides.len(),
{
    if overrides.len() == 0 {
        base
    } else {
        spec_merge(base, overrides.drop_last()).union_prefer_right(overrides.last())
    }
}

/// A name no override defines keeps the base's entry through a merge.
pub proof fn lemma_merge_untouched(
    base: Map<Seq<char>, SkillView>,
    overrides: Seq<Map<Seq<char>, SkillView>>,
    n: Seq<char>,
)
    requires
        forall|i: int| 0 <= i < overrides.len() ==> !(#[trigger] overrides[i]).dom().contains(n),
    ensures
        spec_merge(base, overrides).dom().contains(n) <==> base.dom().contains(n),
        base.dom().contains(n) ==> spec_merge(base, overrides)[n] == base[n],
    decreases overrides.len(),
{
    if overrides.len() > 0 {
        assert(!overrides.last().dom().contains(n));
        assert(forall|i: int|
            0 <= i < overrides.drop_last().len() ==> !(#[trigger] overrides.drop_last()[
                i
            ]).dom().contains(n)) by {
            assert(forall|i: int|
                0 <= i < overrides.drop_last().len() ==> overrides.drop_last()[i]
                    == overrides[i]);
        }
        lemma_merge_untouched(base, overrides.drop_last(), n);
    }
}

/// A name some override defines takes the last defining override's entry
/// through a merge: the last writer wins, and an override always beats the
/// base.
pub proof fn lemma_merge_override_wins(
    base: Map<Seq<char>, SkillView>,
    overrides: Seq<Map<Seq<char>, SkillView>>,
    i: int,
    n: Seq<char>,
)
    requires
        0 <= i < overrides.len(),
        overrides[i].dom().contains(n),
        forall|k: int| i < k < overrides.len() ==> !(#[trigger] overrides[k]).dom().contains(n),
    ensures
        spec_merge(base, overrides).dom().contains(n),
        spec_merge(base, overrides)[n] == overrides[i][n],
    decreases overrides.len(),
{
    if i == overrides.len() - 1 {
        assert(overrides.last() == overrides[i]);
    } else {
        assert(!overrides.last().dom().contains(n));
        assert(overrides.drop_last()[i] == overrides[i]);
        assert(forall|k: int|
            i < k < overrides.drop_last().len() ==> overrides.drop_last()[k] == overrides[k]);
        lemma_merge_override_wins(base, overrides.drop_last(), i, n);
    }
}

/// Merges a base collection with an ordered sequence of override collections;
/// later collections take precedence.
pub fn merge_skill_collections(base: SkillSet, overrides: Vec<SkillSet>) -> (r: SkillSet)
    requires
        base.wf(),
        forall|i: int| 0 <= i < overrides@.len() ==> (#[trigger] overrides@[i]).wf(),
    ensures
        r.wf(),
        r@ == spec_merge(base@, overrides@.map_values(|c: SkillSet| c@)),
{
    let ghost full = overrides@.map_values(|c: SkillSet| c@);
    let ghost base0 = base@;
    let mut acc = base;
    let mut rest = overrides;
    let total = rest.len();
    proof {
        assert(total == full.len());
        assert(spec_merge(base0, full.take(0)) =~= base0) by {
            assert(full.take(0) =~= Seq::<Map<Seq<char>, SkillView>>::empty());
        }
    }
    let mut k: usize = 0;
    while rest.len() > 0
        invariant
            acc.wf(),
            k == full.len() - rest@.len(),
            0 <= k <= full.len() <= usize::MAX,
            rest@.map_values(|c: SkillSet| c@) == full.skip(k as int),
            forall|i: int| 0 <= i < rest@.len() ==> (#[trigger] rest@[i]).wf(),
            acc@ == spec_merge(base0, full.take(k as int)),
        decreases rest@.len(),
    {
        let ghost pre = rest@;
        let o = rest.remove(0);
        proof {
            assert(o == pre[0]);
            assert(pre.map_values(|c: SkillSet| c@)[0] == pre[0]@);
            assert(o@ == full.skip(k as int)[0]);
            assert(o@ == full[k as int]);
            assert(rest@ =~= pre.skip(1));
            assert(rest@.map_values(|c: SkillSet| c@) =~= pre.map_values(|c: SkillSet| c@).skip(1));
            assert(rest@.map_values(|c: SkillSet| c@) =~= full.skip(k as int + 1));
            assert(forall|i: int| 0 <= i < rest@.len() ==> rest@[i] == pre[i + 1]);
            assert(full.take(k as int + 1).drop_last() =~= full.take(k as int));
            assert(full.take(k as int + 1).last() == full[k as int]);
        }
        acc.merge_from(o);
        k = k + 1;
    }
    proof {
        assert(full.take(full.len() as int) =~= full);
    }
    acc
}

} // verus!
