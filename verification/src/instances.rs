//! Instance readiness: the model of a described instance and the assembly of
//! the fleet map handed to the user callback.
//!
//! A machine record is built only from an instance that reports id, type,
//! private ip, public dns and public ip simultaneously; a describe that
//! leaves any field out restarts the whole accumulation.

use vstd::prelude::*;
use vstd::pervasive::unreached;
use crate::builder::SetSpec;
use crate::idmap::{IdMap, count_name, lemma_count_remove, lemma_value_at};
use crate::machine::Machine;
use crate::text::str_eq;

verus! {

/// One instance as a describe call reports it; the provider may omit any
/// field while its view is still converging.
pub struct InstanceDesc {
    pub instance_id: Option<String>,
    pub instance_type: Option<String>,
    pub private_ip: Option<String>,
    pub public_dns: Option<String>,
    pub public_ip: Option<String>,
}

impl InstanceDesc {
    pub open spec fn iid(self) -> Seq<char> {
        match self.instance_id {
            Some(s) => s@,
            None => Seq::empty(),
        }
    }

    /// Every field a machine record needs is reported and non-empty.
    pub open spec fn complete(self) -> bool {
        &&& self.instance_id is Some && self.iid().len() > 0
        &&& self.instance_type is Some && (match self.instance_type {
            Some(s) => s@.len() > 0,
            None => false,
        })
        &&& self.private_ip is Some && (match self.private_ip {
            Some(s) => s@.len() > 0,
            None => false,
        })
        &&& self.public_dns is Some && (match self.public_dns {
            Some(s) => s@.len() > 0,
            None => false,
        })
        &&& self.public_ip is Some && (match self.public_ip {
            Some(s) => s@.len() > 0,
            None => false,
        })
    }

    /// `mach` echoes exactly the fields this description reports.
    pub open spec fn describes(self, mach: Machine) -> bool {
        &&& self.complete()
        &&& match self.instance_type {
            Some(s) => mach.instance_type@ == s@,
            None => false,
        }
        &&& match self.private_ip {
            Some(s) => mach.private_ip@ == s@,
            None => false,
        }
        &&& match self.public_dns {
            Some(s) => mach.public_dns@ == s@,
            None => false,
        }
        &&& match self.public_ip {
            Some(s) => mach.public_ip@ == s@,
            None => false,
        }
    }
}

/// Every described instance is complete.
pub open spec fn all_complete(ds: Seq<InstanceDesc>) -> bool {
    forall|i: int| 0 <= i < ds.len() ==> (#[trigger] ds[i]).complete()
}

/// Reported instance ids are pairwise distinct.
pub open spec fn ds_ids_distinct(ds: Seq<InstanceDesc>) -> bool {
    forall|i: int, j: int|
        0 <= i < j < ds.len() ==> (#[trigger] ds[i]).iid() != (#[trigger] ds[j]).iid()
}

/// Some declared set carries the name `v`.
pub open spec fn set_names_contain(sets: Seq<SetSpec>, v: Seq<char>) -> bool {
    exists|k: int| 0 <= k < sets.len() && (#[trigger] sets[k]).name@ == v
}

/// Every set name the log records belongs to a declared set.
pub open spec fn values_among_sets(m: IdMap, sets: Seq<SetSpec>) -> bool {
    forall|i: int| 0 <= i < m.pairs().len() ==> set_names_contain(sets, (#[trigger] m.pairs()[i]).1)
}

/// The instance descriptions whose ids the log maps to `name`, in the
/// order they were described: exactly these become the machines of that
/// set's fleet row.
pub open spec fn machines_for(ds: Seq<InstanceDesc>, m: IdMap, name: Seq<char>) -> Seq<
    InstanceDesc,
>
    decreases ds.len(),
{
    if ds.len() == 0 {
        Seq::empty()
    } else {
        let rest = machines_for(ds.drop_last(), m, name);
        if m.value_of(ds.last().iid()) == name {
            rest.push(ds.last())
        } else {
            rest
        }
    }
}

/// `mach` echoes some described instance whose id the log maps to `name`.
pub open spec fn machine_from(ds: Seq<InstanceDesc>, m: IdMap, name: Seq<char>, mach: Machine) -> bool {
    exists|d: int|
        0 <= d < ds.len() && (#[trigger] ds[d]).describes(mach) && m.value_of(ds[d].iid()) == name
}

/// The describe response covers the tracked instances exactly once each.
pub open spec fn instance_response_coherent(ds: Seq<InstanceDesc>, m: IdMap) -> bool {
    &&& ds_ids_distinct(ds)
    &&& forall|i: int| 0 <= i < ds.len() ==> m.contains_key((#[trigger] ds[i]).iid())
    &&& ds.len() == m.pairs().len()
}

/// Is one described instance complete?
pub fn desc_complete(d: &InstanceDesc) -> (r: bool)
    ensures
        r == d.complete(),
{
    let a = match &d.instance_id {
        Some(s) => s.as_str().unicode_len() > 0,
        None => false,
    };
    let b = match &d.instance_type {
        Some(s) => s.as_str().unicode_len() > 0,
        None => false,
    };
    let c = match &d.private_ip {
        Some(s) => s.as_str().unicode_len() > 0,
        None => false,
    };
    let e = match &d.public_dns {
        Some(s) => s.as_str().unicode_len() > 0,
        None => false,
    };
    let f = match &d.public_ip {
        Some(s) => s.as_str().unicode_len() > 0,
        None => false,
    };
    a && b && c && e && f
}

/// Are all described instances complete?
pub fn check_complete(ds: &Vec<InstanceDesc>) -> (r: bool)
    ensures
        r == all_complete(ds@),
{
    let n = ds.len();
    let mut i: usize = 0;
    while i < n
        invariant
            n == ds@.len(),
            i <= n,
            forall|k: int| 0 <= k < i ==> (#[trigger] ds@[k]).complete(),
        decreases n - i,
    {
        if !desc_complete(&ds[i]) {
            return false;
        }
        i += 1;
    }
    true
}

/// Check a complete describe response against the tracked log.
pub fn check_instance_response(ds: &Vec<InstanceDesc>, m: &IdMap) -> (r: bool)
    requires
        all_complete(ds@),
    ensures
        r == instance_response_coherent(ds@, *m),
{
    if ds.len() != m.len() {
        return false;
    }
    let n = ds.len();
    let mut i: usize = 0;
    while i < n
        invariant
            n == ds@.len(),
            i <= n,
            all_complete(ds@),
            forall|k: int| 0 <= k < i ==> m.contains_key((#[trigger] ds@[k]).iid()),
        decreases n - i,
    {
        let iid = match &ds[i].instance_id {
            Some(s) => s,
            None => {
                proof {
                    assert(ds@[i as int].complete());
                }
                unreached()
            },
        };
        if !m.contains_id(iid.as_str()) {
            return false;
        }
        i += 1;
    }
    let mut a: usize = 0;
    while a < n
        invariant
            n == ds@.len(),
            a <= n,
            all_complete(ds@),
            forall|i: int| 0 <= i < n ==> m.contains_key((#[trigger] ds@[i]).iid()),
            n == m.pairs().len(),
            forall|x: int, y: int|
                0 <= x < y < n && x < a ==> (#[trigger] ds@[x]).iid() != (#[trigger] ds@[y]).iid(),
        decreases n - a,
    {
        let ia = match &ds[a].instance_id {
            Some(s) => s,
            None => {
                proof {
                    assert(ds@[a as int].complete());
                }
                unreached()
            },
        };
        let mut b: usize = a + 1;
        while b < n
            invariant
                n == ds@.len(),
                a < b <= n,
                a < n,
                all_complete(ds@),
                ia@ == ds@[a as int].iid(),
                forall|y: int| a < y < b ==> (#[trigger] ds@[y]).iid() != ds@[a as int].iid(),
            decreases n - b,
        {
            let ib = match &ds[b].instance_id {
                Some(s) => s,
                None => {
                    proof {
                        assert(ds@[b as int].complete());
                    }
                    unreached()
                },
            };
            if str_eq(ia.as_str(), ib.as_str()) {
                return false;
            }
            b += 1;
        }
        a += 1;
    }
    true
}

/// Build the fleet map: one row per declared set, in declaration order, each
/// holding the machine records of exactly the instances whose ids the log
/// maps to that set.  Row lengths equal the per-set entry counts of the log,
/// and every delivered machine echoes one complete described instance.
pub fn build_fleet(sets: &Vec<SetSpec>, m: &IdMap, ds: &Vec<InstanceDesc>) -> (fleet: Vec<
    (String, Vec<Machine>),
>)
    requires
        m.wf(),
        forall|i: int, j: int|
            0 <= i < j < sets@.len() ==> (#[trigger] sets@[i]).name@ != (#[trigger] sets@[j]).name@,
        all_complete(ds@),
        instance_response_coherent(ds@, *m),
        values_among_sets(*m, sets@),
    ensures
        fleet@.len() == sets@.len(),
        forall|k: int| 0 <= k < sets@.len() ==> (#[trigger] fleet@[k]).0@ == sets@[k].name@,
        forall|k: int|
            0 <= k < sets@.len() ==> (#[trigger] fleet@[k]).1@.len() == count_name(
                m.pairs(),
                sets@[k].name@,
            ),
        forall|k: int, x: int|
            0 <= k < fleet@.len() && 0 <= x < fleet@[k].1@.len() ==> machine_from(
                ds@,
                *m,
                sets@[k].name@,
                #[trigger] fleet@[k].1@[x],
            ),
        forall|k: int|
            0 <= k < sets@.len() ==> (#[trigger] fleet@[k]).1@.len() == machines_for(
                ds@,
                *m,
                sets@[k].name@,
            ).len(),
        forall|k: int, x: int|
            0 <= k < sets@.len() && 0 <= x < fleet@[k].1@.len() ==> machines_for(
                ds@,
                *m,
                sets@[k].name@,
            )[x].describes(#[trigger] fleet@[k].1@[x]),
{
    let nsets = sets.len();
    let mut fleet: Vec<(String, Vec<Machine>)> = Vec::new();
    let mut k: usize = 0;
    while k < nsets
        invariant
            nsets == sets@.len(),
            k <= nsets,
            fleet@.len() == k,
            forall|x: int| 0 <= x < k ==> (#[trigger] fleet@[x]).0@ == sets@[x].name@,
            forall|x: int| 0 <= x < k ==> (#[trigger] fleet@[x]).1@.len() == 0,
        decreases nsets - k,
    {
        fleet.push((sets[k].name.clone(), Vec::new()));
        k += 1;
    }
    let mut rem = m.duplicate();
    let n = ds.len();
    let mut d: usize = 0;
    while d < n
        invariant
            n == ds@.len(),
            d <= n,
            nsets == sets@.len(),
            m.wf(),
            rem.wf(),
            all_complete(ds@),
            instance_response_coherent(ds@, *m),
            forall|i: int, j: int|
                0 <= i < j < sets@.len() ==> (#[trigger] sets@[i]).name@ != (
                #[trigger] sets@[j]).name@,
            values_among_sets(*m, sets@),
            rem.pairs().len() == n - d,
            forall|t: int|
                d <= t < n ==> rem.contains_key((#[trigger] ds@[t]).iid()) && rem.value_of(
                    ds@[t].iid(),
                ) == m.value_of(ds@[t].iid()),
            fleet@.len() == nsets,
            forall|x: int| 0 <= x < nsets ==> (#[trigger] fleet@[x]).0@ == sets@[x].name@,
            forall|x: int|
                0 <= x < nsets ==> (#[trigger] fleet@[x]).1@.len() + count_name(
                    rem.pairs(),
                    sets@[x].name@,
                ) == count_name(m.pairs(), sets@[x].name@),
            forall|x: int, y: int|
                0 <= x < fleet@.len() && 0 <= y < fleet@[x].1@.len() ==> machine_from(
                    ds@.subrange(0, d as int),
                    *m,
                    sets@[x].name@,
                    #[trigger] fleet@[x].1@[y],
                ),
            forall|x: int|
                0 <= x < nsets ==> (#[trigger] fleet@[x]).1@.len() == machines_for(
                    ds@.subrange(0, d as int),
                    *m,
                    sets@[x].name@,
                ).len(),
            forall|x: int, y: int|
                0 <= x < nsets && 0 <= y < fleet@[x].1@.len() ==> machines_for(
                    ds@.subrange(0, d as int),
                    *m,
                    sets@[x].name@,
                )[y].describes(#[trigger] fleet@[x].1@[y]),
        decreases n - d,
    {
        proof {
            assert(ds@[d as int].complete());
        }
        let desc = &ds[d];
        let iid = match &desc.instance_id {
            Some(s) => s,
            None => {
                proof {
                    assert(false);
                }
                unreached()
            },
        };
        let ghost rem_before = rem;
        proof {
            let ki = rem.key_index(iid@);
            assert(0 <= ki < rem.pairs().len() && rem.pairs()[ki].0 == iid@);
            lemma_value_at(rem, ki);
        }
        let name = rem.remove(iid.as_str());
        let ghost v = name@;
        proof {
            let ki = rem_before.key_index(iid@);
            assert(rem_before.pairs()[ki].1 == v);
            assert forall|nm: Seq<char>|
                count_name(rem.pairs(), nm) + (if v == nm {
                    1nat
                } else {
                    0nat
                }) == count_name(rem_before.pairs(), nm) by {
                lemma_count_remove(rem_before.pairs(), ki, nm);
            }
            assert forall|t: int|
                d + 1 <= t < n implies rem.contains_key((#[trigger] ds@[t]).iid())
                    && rem.value_of(ds@[t].iid()) == m.value_of(ds@[t].iid()) by {
                assert(ds@[t].iid() != iid@);
            }
            // the recorded set name exists among the declared sets
            assert(v == m.value_of(ds@[d as int].iid()));
            let kj = m.key_index(iid@);
            assert(0 <= kj < m.pairs().len() && m.pairs()[kj].0 == iid@);
            lemma_value_at(*m, kj);
            assert(m.pairs()[kj].1 == v);
        }
        // find the row of that set
        let mut kk: usize = 0;
        let mut found = false;
        while kk < nsets && !found
            invariant
                nsets == sets@.len(),
                kk <= nsets,
                fleet@.len() == nsets,
                forall|x: int| 0 <= x < nsets ==> (#[trigger] fleet@[x]).0@ == sets@[x].name@,
                found ==> kk < nsets && sets@[kk as int].name@ == v,
                !found ==> forall|x: int| 0 <= x < kk ==> (#[trigger] sets@[x]).name@ != v,
                v == name@,
            decreases nsets - kk, (if found { 0int } else { 1int }),
        {
            if str_eq(fleet[kk].0.as_str(), name.as_str()) {
                found = true;
            } else {
                kk += 1;
            }
        }
        proof {
            if !found {
                let kj = m.key_index(ds@[d as int].iid());
                assert(set_names_contain(sets@, m.pairs()[kj].1));
                let kw = choose|k: int| 0 <= k < sets@.len() && (#[trigger] sets@[k]).name@ == v;
                assert(false);
            }
        }
        let mach = Machine {
            instance_type: match &desc.instance_type {
                Some(s) => s.clone(),
                None => {
                    proof {
                        assert(false);
                    }
                    unreached()
                },
            },
            private_ip: match &desc.private_ip {
                Some(s) => s.clone(),
                None => {
                    proof {
                        assert(false);
                    }
                    unreached()
                },
            },
            public_dns: match &desc.public_dns {
                Some(s) => s.clone(),
                None => {
                    proof {
                        assert(false);
                    }
                    unreached()
                },
            },
            public_ip: match &desc.public_ip {
                Some(s) => s.clone(),
                None => {
                    proof {
                        assert(false);
                    }
                    unreached()
                },
            },
        };
        proof {
            assert(ds@[d as int].describes(mach));
        }
        let ghost fleet_before = fleet@;
        let mut row = fleet.remove(kk);
        row.1.push(mach);
        fleet.insert(kk, row);
        proof {
            assert(fleet@.len() == fleet_before.len());
            assert forall|x: int|
                0 <= x < fleet@.len() && x != kk as int implies fleet@[x] == fleet_before[x] by {
                if x < kk as int {
                } else {
                }
            }
            assert(fleet@[kk as int].0 == fleet_before[kk as int].0);
            assert(fleet@[kk as int].1@ =~= fleet_before[kk as int].1@.push(mach));
            // counts: the moved entry left `rem` and entered row `kk`
            assert forall|x: int|
                0 <= x < nsets implies (#[trigger] fleet@[x]).1@.len() + count_name(
                    rem.pairs(),
                    sets@[x].name@,
                ) == count_name(m.pairs(), sets@[x].name@) by {
                if x == kk as int {
                } else {
                    assert(sets@[x].name@ != v);
                }
            }
            // witnesses for delivered machines
            let ghost prefix = ds@.subrange(0, d as int);
            let ghost prefix1 = ds@.subrange(0, d as int + 1);
            assert forall|x: int, y: int|
                0 <= x < fleet@.len() && 0 <= y < fleet@[x].1@.len() implies machine_from(
                    prefix1,
                    *m,
                    sets@[x].name@,
                    #[trigger] fleet@[x].1@[y],
                ) by {
                if x == kk as int && y == fleet@[x].1@.len() - 1 {
                    assert(prefix1[d as int] == ds@[d as int]);
                    assert(ds@[d as int].describes(fleet@[x].1@[y]));
                    assert(m.value_of(ds@[d as int].iid()) == sets@[x].name@);
                    assert(0 <= d < prefix1.len() && prefix1[d as int].describes(fleet@[x].1@[y])
                        && m.value_of(prefix1[d as int].iid()) == sets@[x].name@);
                } else {
                    assert(fleet@[x].1@[y] == fleet_before[x].1@[y]);
                    assert(machine_from(prefix, *m, sets@[x].name@, fleet@[x].1@[y]));
                    let dd = choose|dd: int|
                        0 <= dd < prefix.len() && (#[trigger] prefix[dd]).describes(
                            fleet@[x].1@[y],
                        ) && m.value_of(prefix[dd].iid()) == sets@[x].name@;
                    assert(prefix1[dd] == prefix[dd]);
                    assert(0 <= dd < prefix1.len() && prefix1[dd].describes(fleet@[x].1@[y])
                        && m.value_of(prefix1[dd].iid()) == sets@[x].name@);
                }
            }
            // the per-row description sequences grow by exactly the new entry
            assert(prefix1.drop_last() =~= prefix);
            assert(prefix1.last() == ds@[d as int]);
            assert forall|x: int|
                0 <= x < nsets implies machines_for(prefix1, *m, (#[trigger] sets@[x]).name@)
                    == (if x == kk as int {
                    machines_for(prefix, *m, sets@[x].name@).push(ds@[d as int])
                } else {
                    machines_for(prefix, *m, sets@[x].name@)
                }) by {
                if x == kk as int {
                    assert(m.value_of(prefix1.last().iid()) == v);
                } else {
                    assert(sets@[x].name@ != v);
                }
            }
            assert forall|x: int, y: int|
                0 <= x < nsets && 0 <= y < fleet@[x].1@.len() implies machines_for(
                    prefix1,
                    *m,
                    sets@[x].name@,
                )[y].describes(#[trigger] fleet@[x].1@[y]) by {
                if x == kk as int && y == fleet@[x].1@.len() - 1 {
                    assert(machines_for(prefix1, *m, sets@[x].name@)[y] == ds@[d as int]);
                } else {
                    assert(fleet@[x].1@[y] == fleet_before[x].1@[y]);
                    assert(machines_for(prefix1, *m, sets@[x].name@)[y] == machines_for(
                        prefix,
                        *m,
                        sets@[x].name@,
                    )[y]);
                }
            }
        }
        d += 1;
    }
    proof {
        assert(rem.pairs().len() == 0);
        assert forall|x: int|
            0 <= x < nsets implies (#[trigger] fleet@[x]).1@.len() == count_name(
                m.pairs(),
                sets@[x].name@,
            ) by {
            assert(count_name(rem.pairs(), sets@[x].name@) == 0nat);
        }
        assert(ds@.subrange(0, n as int) =~= ds@);
    }
    fleet
}

/// Every machine of a fleet row is fully described: its fields echo a
/// complete instance description, none of them empty.
pub proof fn lemma_fleet_machines_fully_described(
    ds: Seq<InstanceDesc>,
    m: IdMap,
    name: Seq<char>,
    mach: Machine,
)
    requires
        machine_from(ds, m, name, mach),
    ensures
        mach.fully_described(),
{
    let d = choose|d: int|
        0 <= d < ds.len() && (#[trigger] ds[d]).describes(mach) && m.value_of(ds[d].iid()) == name;
    assert(ds[d].describes(mach));
}

} // verus!
