//! The mutable log of provider-assigned identifiers to set names.
//!
//! The log is populated at spot-placement time keyed by spot-request id and
//! rewritten at spot-satisfaction time keyed by instance id.  Its invariant:
//! keys are pairwise distinct, so the log denotes a map.

use vstd::prelude::*;
use crate::text::str_eq;

verus! {

/// How many entries of `s` carry the set name `name`.
pub open spec fn count_name(s: Seq<(Seq<char>, Seq<char>)>, name: Seq<char>) -> nat
    decreases s.len(),
{
    if s.len() == 0 {
        0
    } else {
        count_name(s.drop_last(), name) + (if s.last().1 == name {
            1nat
        } else {
            0nat
        })
    }
}

pub proof fn lemma_count_push(s: Seq<(Seq<char>, Seq<char>)>, e: (Seq<char>, Seq<char>), name: Seq<char>)
    ensures
        count_name(s.push(e), name) == count_name(s, name) + (if e.1 == name {
            1nat
        } else {
            0nat
        }),
{
    assert(s.push(e).drop_last() =~= s);
    assert(s.push(e).last() == e);
}

pub proof fn lemma_count_remove(s: Seq<(Seq<char>, Seq<char>)>, i: int, name: Seq<char>)
    requires
        0 <= i < s.len(),
    ensures
        count_name(s.remove(i), name) + (if s[i].1 == name {
            1nat
        } else {
            0nat
        }) == count_name(s, name),
    decreases s.len(),
{
    if i == s.len() - 1 {
        assert(s.remove(i) =~= s.drop_last());
    } else {
        assert(s.remove(i).drop_last() =~= s.drop_last().remove(i));
        lemma_count_remove(s.drop_last(), i, name);
        assert(s.remove(i).last() == s.last());
    }
}

/// Appending a block of entries that all carry one set name raises that
/// name's count by the block length and no other count.
pub proof fn lemma_count_append_uniform(
    before: Seq<(Seq<char>, Seq<char>)>,
    after: Seq<(Seq<char>, Seq<char>)>,
    name: Seq<char>,
    v: Seq<char>,
)
    requires
        before.len() <= after.len(),
        forall|i: int| 0 <= i < before.len() ==> after[i] == before[i],
        forall|i: int| before.len() <= i < after.len() ==> (#[trigger] after[i]).1 == name,
    ensures
        count_name(after, v) == count_name(before, v) + (if name == v {
            after.len() - before.len()
        } else {
            0int
        }),
    decreases after.len() - before.len(),
{
    if after.len() == before.len() {
        assert(after =~= before);
    } else {
        lemma_count_append_uniform(before, after.drop_last(), name, v);
        assert(after.last().1 == name);
    }
}

/// An entry with name `name` at index `i` makes the count positive.
pub proof fn lemma_count_at_least_one(s: Seq<(Seq<char>, Seq<char>)>, i: int, name: Seq<char>)
    requires
        0 <= i < s.len(),
        s[i].1 == name,
    ensures
        count_name(s, name) >= 1,
    decreases s.len(),
{
    if i == s.len() - 1 {
    } else {
        lemma_count_at_least_one(s.drop_last(), i, name);
    }
}

/// Two distinct entries with the same name make the count at least two.
pub proof fn lemma_count_at_least_two(s: Seq<(Seq<char>, Seq<char>)>, i: int, j: int, name: Seq<char>)
    requires
        0 <= i < j < s.len(),
        s[i].1 == name,
        s[j].1 == name,
    ensures
        count_name(s, name) >= 2,
    decreases s.len(),
{
    if j == s.len() - 1 {
        lemma_count_at_least_one(s.drop_last(), i, name);
    } else {
        lemma_count_at_least_two(s.drop_last(), i, j, name);
    }
}

/// The identifier-to-set-name log.
pub struct IdMap {
    pub entries: Vec<(String, String)>,
}

impl IdMap {
    /// The (id, set name) pairs, in insertion order.
    pub open spec fn pairs(self) -> Seq<(Seq<char>, Seq<char>)> {
        Seq::new(self.entries@.len(), |i: int| (self.entries@[i].0@, self.entries@[i].1@))
    }

    pub open spec fn contains_key(self, id: Seq<char>) -> bool {
        exists|i: int| 0 <= i < self.pairs().len() && (#[trigger] self.pairs()[i]).0 == id
    }

    /// The index of the entry keyed `id` (unique under `wf`).
    pub open spec fn key_index(self, id: Seq<char>) -> int {
        choose|i: int| 0 <= i < self.pairs().len() && (#[trigger] self.pairs()[i]).0 == id
    }

    /// The set name recorded for `id`.
    pub open spec fn value_of(self, id: Seq<char>) -> Seq<char> {
        self.pairs()[self.key_index(id)].1
    }

    /// Keys are pairwise distinct: the log denotes a map.
    pub open spec fn wf(self) -> bool {
        forall|i: int, j: int|
            0 <= i < j < self.pairs().len() ==> (#[trigger] self.pairs()[i]).0 != (
            #[trigger] self.pairs()[j]).0
    }

    /// Values are pairwise distinct as well: together with `wf`, the log is
    /// bijective.
    pub open spec fn injective(self) -> bool {
        forall|i: int, j: int|
            0 <= i < j < self.pairs().len() ==> (#[trigger] self.pairs()[i]).1 != (
            #[trigger] self.pairs()[j]).1
    }

    pub fn new() -> (r: Self)
        ensures
            r.pairs().len() == 0,
            r.wf(),
    {
        IdMap { entries: Vec::new() }
    }

    pub fn len(&self) -> (r: usize)
        ensures
            r == self.pairs().len(),
    {
        self.entries.len()
    }

    pub fn contains_id(&self, id: &str) -> (r: bool)
        ensures
            r == self.contains_key(id@),
    {
        let n = self.entries.len();
        let mut i: usize = 0;
        while i < n
            invariant
                n == self.entries@.len(),
                i <= n,
                forall|k: int| 0 <= k < i ==> (#[trigger] self.pairs()[k]).0 != id@,
            decreases n - i,
        {
            if str_eq(self.entries[i].0.as_str(), id) {
                proof {
                    assert(self.pairs()[i as int].0 == id@);
                }
                return true;
            }
            i += 1;
        }
        false
    }

    /// A copy of the log with the same pairs.
    pub fn duplicate(&self) -> (r: Self)
        ensures
            r.pairs() == self.pairs(),
    {
        let n = self.entries.len();
        let mut out: Vec<(String, String)> = Vec::new();
        let mut i: usize = 0;
        while i < n
            invariant
                n == self.entries@.len(),
                i <= n,
                out@.len() == i,
                forall|k: int|
                    0 <= k < i ==> (#[trigger] out@[k]).0@ == self.entries@[k].0@ && out@[k].1@
                        == self.entries@[k].1@,
            decreases n - i,
        {
            out.push((self.entries[i].0.clone(), self.entries[i].1.clone()));
            i += 1;
        }
        let r = IdMap { entries: out };
        proof {
            assert(r.pairs() =~= self.pairs());
        }
        r
    }

    /// Record `id -> name`; the id must be fresh.
    pub fn insert(&mut self, id: String, name: String)
        requires
            !old(self).contains_key(id@),
        ensures
            final(self).pairs() == old(self).pairs().push((id@, name@)),
            old(self).wf() ==> final(self).wf(),
    {
        let ghost ghost_id = id@;
        let ghost ghost_name = name@;
        self.entries.push((id, name));
        proof {
            assert(self.pairs() =~= old(self).pairs().push((ghost_id, ghost_name)));
            if old(self).wf() {
                assert forall|i: int, j: int|
                    0 <= i < j < self.pairs().len() implies (#[trigger] self.pairs()[i]).0 != (
                #[trigger] self.pairs()[j]).0 by {
                    if j == self.pairs().len() - 1 {
                        assert(!(old(self).pairs()[i].0 == ghost_id));
                    }
                }
            }
        }
    }

    /// Take the entry keyed `id` out of the log and return its set name.
    pub fn remove(&mut self, id: &str) -> (name: String)
        requires
            old(self).wf(),
            old(self).contains_key(id@),
        ensures
            name@ == old(self).value_of(id@),
            final(self).pairs() == old(self).pairs().remove(old(self).key_index(id@)),
            old(self).pairs()[old(self).key_index(id@)].0 == id@,
            0 <= old(self).key_index(id@) < old(self).pairs().len(),
            final(self).wf(),
            !final(self).contains_key(id@),
            forall|k: Seq<char>|
                k != id@ ==> (final(self).contains_key(k) <==> old(self).contains_key(k)),
            forall|k: Seq<char>|
                k != id@ && old(self).contains_key(k) ==> final(self).value_of(k) == old(
                    self,
                ).value_of(k),
    {
        let n = self.entries.len();
        let mut i: usize = 0;
        while i < n
            invariant
                *self == *old(self),
                n == self.entries@.len(),
                i <= n,
                old(self).wf(),
                old(self).contains_key(id@),
                forall|k: int| 0 <= k < i ==> (#[trigger] self.pairs()[k]).0 != id@,
            decreases n - i,
        {
            if str_eq(self.entries[i].0.as_str(), id) {
                proof {
                    assert(old(self).pairs()[i as int].0 == id@);
                    let ki = old(self).key_index(id@);
                    assert(0 <= ki < old(self).pairs().len() && old(self).pairs()[ki].0 == id@);
                    assert(ki == i as int);
                }
                let entry = self.entries.remove(i);
                proof {
                    assert(self.pairs() =~= old(self).pairs().remove(i as int));
                    let fp = self.pairs();
                    let op = old(self).pairs();
                    assert forall|k: int| 0 <= k < fp.len() implies (#[trigger] fp[k]).0 != id@ by {
                        if k < i as int {
                            assert(fp[k] == op[k]);
                        } else {
                            assert(fp[k] == op[k + 1]);
                        }
                    }
                    assert(!self.contains_key(id@));
                    assert forall|k: Seq<char>|
                        k != id@ && old(self).contains_key(k) implies self.contains_key(k)
                        && self.value_of(k) == old(self).value_of(k) by {
                        let w = choose|w: int|
                            0 <= w < op.len() && (#[trigger] op[w]).0 == k;
                        lemma_value_at(*old(self), w);
                        if w < i as int {
                            assert(fp[w] == op[w]);
                            assert(fp[w].0 == k);
                            lemma_value_at(*self, w);
                        } else {
                            assert(w > i as int);
                            assert(fp[w - 1] == op[w]);
                            assert(fp[w - 1].0 == k);
                            lemma_value_at(*self, w - 1);
                        }
                    }
                    assert forall|k: Seq<char>|
                        k != id@ && self.contains_key(k) implies old(self).contains_key(k) by {
                        let w = choose|w: int|
                            0 <= w < fp.len() && (#[trigger] fp[w]).0 == k;
                        if w < i as int {
                            assert(op[w].0 == k);
                        } else {
                            assert(op[w + 1].0 == k);
                        }
                    }
                }
                return entry.1;
            }
            i += 1;
        }
        proof {
            assert(false);
        }
        unreached()
    }
}

/// Under `wf`, the entry at index `i` is the one its key resolves to.
pub proof fn lemma_value_at(m: IdMap, i: int)
    requires
        m.wf(),
        0 <= i < m.pairs().len(),
    ensures
        m.contains_key(m.pairs()[i].0),
        m.key_index(m.pairs()[i].0) == i,
        m.value_of(m.pairs()[i].0) == m.pairs()[i].1,
{
    assert(0 <= i < m.pairs().len() && m.pairs()[i].0 == m.pairs()[i].0);
    let ki = m.key_index(m.pairs()[i].0);
    assert(0 <= ki < m.pairs().len() && m.pairs()[ki].0 == m.pairs()[i].0);
    if ki != i {
        lemma_wf_functional(m, if ki < i { ki } else { i }, if ki < i { i } else { ki });
    }
}

/// With distinct keys the log is functional: two entries sharing a key are
/// the same entry.
pub proof fn lemma_wf_functional(m: IdMap, i: int, j: int)
    requires
        m.wf(),
        0 <= i < m.pairs().len(),
        0 <= j < m.pairs().len(),
        m.pairs()[i].0 == m.pairs()[j].0,
    ensures
        i == j,
{
}

} // verus!
