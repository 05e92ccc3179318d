//! Spot-request satisfaction: the model of a described spot request, the
//! quiescence test, and the rewrite of the id log from request ids to
//! instance ids once every request has settled.

use vstd::prelude::*;
use vstd::pervasive::unreached;
use crate::idmap::{IdMap, count_name, lemma_count_push, lemma_count_remove, lemma_value_at};
use crate::text::str_eq;

verus! {

/// One spot request as a describe call reports it: its id, its state (the
/// provider may omit it, which the poller treats as an invariant violation),
/// and the instance id once provisioning has assigned a machine.
pub struct SpotDesc {
    pub request_id: String,
    pub state: Option<String>,
    pub instance_id: Option<String>,
}

impl SpotDesc {
    pub open spec fn rid(self) -> Seq<char> {
        self.request_id@
    }

    pub open spec fn has_state(self) -> bool {
        self.state is Some
    }

    pub open spec fn state_view(self) -> Seq<char> {
        match self.state {
            Some(s) => s@,
            None => Seq::empty(),
        }
    }

    pub open spec fn is_open(self) -> bool {
        self.has_state() && self.state_view() == "open"@
    }

    pub open spec fn is_active(self) -> bool {
        self.has_state() && self.state_view() == "active"@
    }

    /// Still pending: open, or active without an assigned instance yet.
    pub open spec fn is_pending(self) -> bool {
        self.is_open() || (self.is_active() && self.instance_id is None)
    }

    /// Satisfied: active with an assigned instance.
    pub open spec fn satisfied(self) -> bool {
        self.is_active() && self.instance_id is Some
    }

    pub open spec fn iid(self) -> Seq<char> {
        match self.instance_id {
            Some(s) => s@,
            None => Seq::empty(),
        }
    }
}

/// Every described request carries a state field.
pub open spec fn all_have_state(rs: Seq<SpotDesc>) -> bool {
    forall|i: int| 0 <= i < rs.len() ==> (#[trigger] rs[i]).has_state()
}

/// Some request is still pending: the poller must describe again.
pub open spec fn any_pending(rs: Seq<SpotDesc>) -> bool {
    exists|i: int| 0 <= i < rs.len() && (#[trigger] rs[i]).is_pending()
}

/// Every request settled in the active state.
pub open spec fn all_active_spec(rs: Seq<SpotDesc>) -> bool {
    forall|i: int| 0 <= i < rs.len() ==> (#[trigger] rs[i]).is_active()
}

/// Request ids are pairwise distinct.
pub open spec fn rids_distinct(rs: Seq<SpotDesc>) -> bool {
    forall|i: int, j: int|
        0 <= i < j < rs.len() ==> (#[trigger] rs[i]).rid() != (#[trigger] rs[j]).rid()
}

/// Assigned instance ids are pairwise distinct.
pub open spec fn iids_distinct(rs: Seq<SpotDesc>) -> bool {
    forall|i: int, j: int|
        0 <= i < j < rs.len() && (#[trigger] rs[i]).satisfied() && (#[trigger] rs[j]).satisfied()
            ==> rs[i].iid() != rs[j].iid()
}

/// A describe response is coherent with the tracked log when it reports each
/// tracked request exactly once and assigns distinct instances.
pub open spec fn coherent_response(rs: Seq<SpotDesc>, m: IdMap) -> bool {
    &&& rids_distinct(rs)
    &&& forall|i: int| 0 <= i < rs.len() ==> m.contains_key((#[trigger] rs[i]).rid())
    &&& rs.len() == m.pairs().len()
    &&& iids_distinct(rs)
}

/// The id log after settling: one entry per satisfied request, keyed by its
/// instance id, carrying the set name the request id was recorded under.
pub open spec fn settled_pairs(rs: Seq<SpotDesc>, m: IdMap) -> Seq<(Seq<char>, Seq<char>)>
    decreases rs.len(),
{
    if rs.len() == 0 {
        Seq::empty()
    } else {
        let rest = settled_pairs(rs.drop_last(), m);
        if rs.last().satisfied() {
            rest.push((rs.last().iid(), m.value_of(rs.last().rid())))
        } else {
            rest
        }
    }
}

/// Does any described request lack a state field?
pub fn some_state_missing(reqs: &Vec<SpotDesc>) -> (r: bool)
    ensures
        r == !all_have_state(reqs@),
{
    let n = reqs.len();
    let mut i: usize = 0;
    while i < n
        invariant
            n == reqs@.len(),
            i <= n,
            forall|k: int| 0 <= k < i ==> (#[trigger] reqs@[k]).has_state(),
        decreases n - i,
    {
        if reqs[i].state.is_none() {
            return true;
        }
        i += 1;
    }
    false
}

/// Is any request still pending (open, or active without an instance id)?
pub fn poll_pending(reqs: &Vec<SpotDesc>) -> (r: bool)
    requires
        all_have_state(reqs@),
    ensures
        r == any_pending(reqs@),
{
    let n = reqs.len();
    let mut i: usize = 0;
    while i < n
        invariant
            n == reqs@.len(),
            i <= n,
            all_have_state(reqs@),
            forall|k: int| 0 <= k < i ==> !(#[trigger] reqs@[k]).is_pending(),
        decreases n - i,
    {
        let pending = match &reqs[i].state {
            Some(st) => str_eq(st.as_str(), "open") || (str_eq(st.as_str(), "active")
                && reqs[i].instance_id.is_none()),
            None => {
                proof {
                    assert(reqs@[i as int].has_state());
                }
                false
            },
        };
        if pending {
            return true;
        }
        i += 1;
    }
    false
}

/// Are the request ids of the response pairwise distinct?
fn request_ids_distinct(reqs: &Vec<SpotDesc>) -> (r: bool)
    ensures
        r == rids_distinct(reqs@),
{
    let n = reqs.len();
    let mut i: usize = 0;
    while i < n
        invariant
            n == reqs@.len(),
            i <= n,
            forall|a: int, b: int|
                0 <= a < b < n && a < i ==> (#[trigger] reqs@[a]).rid() != (#[trigger] reqs@[b]).rid(),
        decreases n - i,
    {
        let mut j: usize = i + 1;
        while j < n
            invariant
                n == reqs@.len(),
                i < j <= n,
                i < n,
                forall|b: int| i < b < j ==> (#[trigger] reqs@[b]).rid() != reqs@[i as int].rid(),
            decreases n - j,
        {
            if str_eq(reqs[i].request_id.as_str(), reqs[j].request_id.as_str()) {
                return false;
            }
            j += 1;
        }
        i += 1;
    }
    true
}

/// Are the assigned instance ids of the response pairwise distinct?
fn instance_ids_distinct(reqs: &Vec<SpotDesc>) -> (r: bool)
    ensures
        r == iids_distinct(reqs@),
{
    let n = reqs.len();
    let mut i: usize = 0;
    while i < n
        invariant
            n == reqs@.len(),
            i <= n,
            forall|a: int, b: int|
                0 <= a < b < n && a < i && (#[trigger] reqs@[a]).satisfied() && (
                #[trigger] reqs@[b]).satisfied() ==> reqs@[a].iid() != reqs@[b].iid(),
        decreases n - i,
    {
        let ia = satisfied_exec(&reqs[i]);
        let mut j: usize = i + 1;
        while j < n
            invariant
                n == reqs@.len(),
                i < j <= n,
                i < n,
                ia == reqs@[i as int].satisfied(),
                forall|b: int|
                    i < b < j && reqs@[i as int].satisfied() && (#[trigger] reqs@[b]).satisfied()
                        ==> reqs@[b].iid() != reqs@[i as int].iid(),
            decreases n - j,
        {
            if ia && satisfied_exec(&reqs[j]) {
                let a = match &reqs[i].instance_id {
                    Some(s) => s,
                    None => {
                        proof {
                            assert(false);
                        }
                        unreached()
                    },
                };
                let b = match &reqs[j].instance_id {
                    Some(s) => s,
                    None => {
                        proof {
                            assert(false);
                        }
                        unreached()
                    },
                };
                if str_eq(a.as_str(), b.as_str()) {
                    return false;
                }
            }
            j += 1;
        }
        i += 1;
    }
    true
}

/// Is this request active with an assigned instance?
pub fn satisfied_exec(req: &SpotDesc) -> (r: bool)
    ensures
        r == req.satisfied(),
{
    match &req.state {
        Some(st) => str_eq(st.as_str(), "active") && req.instance_id.is_some(),
        None => false,
    }
}

/// Check the whole response against the tracked log before settling.
pub fn response_coherent(reqs: &Vec<SpotDesc>, m: &IdMap) -> (r: bool)
    ensures
        r == coherent_response(reqs@, *m),
{
    if reqs.len() != m.len() {
        return false;
    }
    let n = reqs.len();
    let mut i: usize = 0;
    while i < n
        invariant
            n == reqs@.len(),
            i <= n,
            forall|k: int| 0 <= k < i ==> m.contains_key((#[trigger] reqs@[k]).rid()),
        decreases n - i,
    {
        if !m.contains_id(reqs[i].request_id.as_str()) {
            return false;
        }
        i += 1;
    }
    request_ids_distinct(reqs) && instance_ids_distinct(reqs)
}

/// Settle a quiescent describe response: drop every request-id entry from the
/// log, key the satisfied requests by their instance ids, collect those ids,
/// and report whether every request went active.  No set gains machines: the
/// per-set entry count never grows, and when every request is active it is
/// preserved exactly.
pub fn settle(m: IdMap, reqs: &Vec<SpotDesc>) -> (r: (IdMap, Vec<String>, bool))
    requires
        m.wf(),
        all_have_state(reqs@),
        !any_pending(reqs@),
        coherent_response(reqs@, m),
    ensures
        r.0.wf(),
        r.0.pairs() == settled_pairs(reqs@, m),
        r.2 == all_active_spec(reqs@),
        r.1@.len() == r.0.pairs().len(),
        forall|i: int| 0 <= i < r.1@.len() ==> r.1@[i]@ == r.0.pairs()[i].0,
        forall|nm: Seq<char>| count_name(r.0.pairs(), nm) <= count_name(m.pairs(), nm),
        all_active_spec(reqs@) ==> forall|nm: Seq<char>|
            count_name(r.0.pairs(), nm) == count_name(m.pairs(), nm),
{
    let ghost m0 = m;
    let mut rem = m;
    let mut fresh = IdMap::new();
    let mut iids: Vec<String> = Vec::new();
    let mut allact = true;
    let n = reqs.len();
    let mut k: usize = 0;
    while k < n
        invariant
            n == reqs@.len(),
            k <= n,
            m0.wf(),
            rem.wf(),
            fresh.wf(),
            all_have_state(reqs@),
            !any_pending(reqs@),
            coherent_response(reqs@, m0),
            rem.pairs().len() == n - k,
            forall|t: int|
                k <= t < n ==> rem.contains_key((#[trigger] reqs@[t]).rid())
                    && rem.value_of(reqs@[t].rid()) == m0.value_of(reqs@[t].rid()),
            fresh.pairs() == settled_pairs(reqs@.subrange(0, k as int), m0),
            iids@.len() == fresh.pairs().len(),
            forall|i: int| 0 <= i < iids@.len() ==> iids@[i]@ == fresh.pairs()[i].0,
            allact == all_active_spec(reqs@.subrange(0, k as int)),
            forall|nm: Seq<char>|
                count_name(fresh.pairs(), nm) + count_name(rem.pairs(), nm) <= count_name(
                    m0.pairs(),
                    nm,
                ),
            allact ==> forall|nm: Seq<char>|
                count_name(fresh.pairs(), nm) + count_name(rem.pairs(), nm) == count_name(
                    m0.pairs(),
                    nm,
                ),
        decreases n - k,
    {
        let ghost prefix = reqs@.subrange(0, k as int);
        let ghost rem_before = rem;
        let ghost fresh_before = fresh;
        proof {
            assert(reqs@[k as int].has_state());
            assert(!reqs@[k as int].is_pending());
            assert(reqs@.subrange(0, k as int + 1).drop_last() =~= prefix);
            assert(reqs@.subrange(0, k as int + 1).last() == reqs@[k as int]);
        }
        let req = &reqs[k];
        let active = match &req.state {
            Some(st) => str_eq(st.as_str(), "active"),
            None => {
                proof {
                    assert(false);
                }
                false
            },
        };
        let ghost rid = req.rid();
        proof {
            assert(rem.contains_key(rid));
            let ki = rem.key_index(rid);
            assert(0 <= ki < rem.pairs().len() && rem.pairs()[ki].0 == rid);
            lemma_value_at(rem, ki);
        }
        let name = rem.remove(req.request_id.as_str());
        proof {
            let ki = rem_before.key_index(rid);
            assert(rem_before.pairs()[ki].1 == rem_before.value_of(rid));
            assert forall|nm: Seq<char>|
                count_name(rem.pairs(), nm) + (if rem_before.pairs()[ki].1 == nm {
                    1nat
                } else {
                    0nat
                }) == count_name(rem_before.pairs(), nm) by {
                lemma_count_remove(rem_before.pairs(), ki, nm);
            }
            // remaining requests keep their entries: their ids differ from rid
            assert forall|t: int|
                k + 1 <= t < n implies rem.contains_key((#[trigger] reqs@[t]).rid())
                    && rem.value_of(reqs@[t].rid()) == m0.value_of(reqs@[t].rid()) by {
                assert(reqs@[t].rid() != rid);
            }
        }
        if active {
            proof {
                assert(reqs@[k as int].satisfied());
            }
            let iid = match &req.instance_id {
                Some(s) => s.clone(),
                None => {
                    proof {
                        assert(false);
                    }
                    unreached()
                },
            };
            proof {
                if fresh.contains_key(iid@) {
                    lemma_settled_keys_are_satisfied(prefix, m0);
                    let w = choose|w: int|
                        0 <= w < fresh.pairs().len() && (#[trigger] fresh.pairs()[w]).0 == iid@;
                    let t = choose|t: int|
                        0 <= t < prefix.len() && (#[trigger] prefix[t]).satisfied() && (
                        #[trigger] settled_pairs(prefix, m0)[w]).0 == prefix[t].iid();
                    assert(prefix[t] == reqs@[t]);
                    assert(reqs@[t].iid() == reqs@[k as int].iid());
                    assert(false);
                }
            }
            let ghost name_view = name@;
            fresh.insert(iid.clone(), name);
            iids.push(iid);
            proof {
                assert(fresh.pairs() =~= settled_pairs(reqs@.subrange(0, k as int + 1), m0));
                assert forall|nm: Seq<char>|
                    count_name(fresh.pairs(), nm) == count_name(fresh_before.pairs(), nm) + (
                    if name_view == nm {
                        1nat
                    } else {
                        0nat
                    }) by {
                    lemma_count_push(fresh_before.pairs(), (reqs@[k as int].iid(), name_view), nm);
                }
                let kj = m0.key_index(rid);
                lemma_value_at(m0, kj);
                assert(m0.pairs()[kj].1 == name_view);
            }
        } else {
            proof {
                assert(!reqs@[k as int].is_active());
            }
            allact = false;
            proof {
                assert(settled_pairs(reqs@.subrange(0, k as int + 1), m0) == fresh.pairs());
                assert(!all_active_spec(reqs@.subrange(0, k as int + 1)));
            }
        }
        k += 1;
    }
    proof {
        assert(reqs@.subrange(0, n as int) =~= reqs@);
        assert(rem.pairs().len() == 0);
        assert forall|nm: Seq<char>| count_name(rem.pairs(), nm) == 0nat by {
            assert(rem.pairs().len() == 0);
        }
    }
    (fresh, iids, allact)
}

/// Every key of the settled log is the instance id of some satisfied request.
pub proof fn lemma_settled_keys_are_satisfied(rs: Seq<SpotDesc>, m: IdMap)
    ensures
        forall|i: int|
            0 <= i < settled_pairs(rs, m).len() ==> exists|t: int|
                0 <= t < rs.len() && (#[trigger] rs[t]).satisfied() && (
                #[trigger] settled_pairs(rs, m)[i]).0 == rs[t].iid(),
    decreases rs.len(),
{
    if rs.len() > 0 {
        lemma_settled_keys_are_satisfied(rs.drop_last(), m);
        let rest = settled_pairs(rs.drop_last(), m);
        let whole = settled_pairs(rs, m);
        if rs.last().satisfied() {
            assert(whole == rest.push((rs.last().iid(), m.value_of(rs.last().rid()))));
        } else {
            assert(whole == rest);
        }
        assert forall|i: int| 0 <= i < whole.len() implies exists|t: int|
            0 <= t < rs.len() && (#[trigger] rs[t]).satisfied() && (#[trigger] whole[i]).0
                == rs[t].iid() by {
            if i < rest.len() {
                assert(whole[i] == rest[i]);
                let t = choose|t: int|
                    0 <= t < rs.drop_last().len() && (#[trigger] rs.drop_last()[t]).satisfied()
                        && rest[i].0 == rs.drop_last()[t].iid();
                assert(rs[t] == rs.drop_last()[t]);
                assert(0 <= t < rs.len() && rs[t].satisfied() && whole[i].0 == rs[t].iid());
            } else {
                assert(rs.last().satisfied());
                let t = rs.len() - 1;
                assert(rs[t].satisfied() && whole[i].0 == rs[t].iid());
            }
        }
    }
}

/// Every value of the settled log already stood in the log it was settled
/// from: settling invents no set name.
pub proof fn lemma_settled_values_from_map(rs: Seq<SpotDesc>, m: IdMap)
    requires
        forall|t: int| 0 <= t < rs.len() ==> m.contains_key((#[trigger] rs[t]).rid()),
    ensures
        forall|i: int|
            0 <= i < settled_pairs(rs, m).len() ==> exists|j: int|
                0 <= j < m.pairs().len() && (#[trigger] settled_pairs(rs, m)[i]).1
                    == m.pairs()[j].1,
    decreases rs.len(),
{
    if rs.len() > 0 {
        lemma_settled_values_from_map(rs.drop_last(), m);
        let rest = settled_pairs(rs.drop_last(), m);
        let whole = settled_pairs(rs, m);
        if rs.last().satisfied() {
            assert(whole == rest.push((rs.last().iid(), m.value_of(rs.last().rid()))));
        } else {
            assert(whole == rest);
        }
        assert forall|i: int| 0 <= i < whole.len() implies exists|j: int|
            0 <= j < m.pairs().len() && (#[trigger] whole[i]).1 == m.pairs()[j].1 by {
            if i < rest.len() {
                assert(whole[i] == rest[i]);
            } else {
                assert(rs.last().satisfied());
                assert(m.contains_key(rs[rs.len() - 1].rid()));
                let ki = m.key_index(rs.last().rid());
                assert(0 <= ki < m.pairs().len() && m.pairs()[ki].0 == rs.last().rid());
                assert(whole[i].1 == m.pairs()[ki].1);
            }
        }
    }
}

/// A transient describe failure leaves the tracked log untouched, so the log
/// settled from the next successful describe is exactly the log that the
/// successful describe alone would have produced.
pub proof fn lemma_transient_describe_skippable(
    before: IdMap,
    after_failure: IdMap,
    reqs: Seq<SpotDesc>,
)
    requires
        after_failure == before,
    ensures
        settled_pairs(reqs, after_failure) == settled_pairs(reqs, before),
{
}

} // verus!
