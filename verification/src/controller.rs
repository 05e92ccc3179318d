//! The fleet lifecycle controller: the decision core of a run.
//!
//! A run is a linear pipeline: provision access, place spot requests, poll
//! them to quiescence, cancel them, poll the instances until the fleet is
//! fully described, dispatch per-machine setup and the user callback, and
//! terminate — the last on every exit path.  The controller holds the
//! pipeline state and decides every step; the unverified rim performs each
//! cloud or SSH call the current phase asks for and reports the outcome back
//! as plain values.

use vstd::prelude::*;
use crate::builder::{BurstBuilder, SetSpec};
use crate::errors::{AccessStep, BurstError, PollFault};
use crate::idmap::{IdMap, count_name, lemma_count_at_least_two, lemma_count_append_uniform};
use crate::instances::{
    InstanceDesc, all_complete, check_complete, instance_response_coherent, build_fleet,
    machine_from, machines_for, set_names_contain, values_among_sets,
    lemma_fleet_machines_fully_described,
};
use crate::machine::Machine;
use crate::spot::{
    SpotDesc, all_have_state, any_pending, all_active_spec, coherent_response, settled_pairs,
    some_state_missing, poll_pending, satisfied_exec, settle, lemma_settled_values_from_map,
};
use crate::text::{
    is_transient_describe_failure, is_transient_terminate_failure, str_eq,
    transient_describe_failure, transient_terminate_failure,
};

verus! {

/// Where in the pipeline a run stands.
#[derive(Clone, Copy, PartialEq, Eq, Structural, Debug)]
pub enum Phase {
    /// Creating the security group, its ingress rules, and the keypair.
    Provisioning,
    /// Issuing one spot request per declared set.
    Placing,
    /// Describing the spot requests until none is pending.
    PollingSpot,
    /// Cancelling the settled spot requests so nothing relaunches later.
    CancellingSpot,
    /// Describing the instances until every one is fully reported.
    PollingInstances,
    /// Running per-machine setup over SSH, machine by machine.
    Dispatching,
    /// Handing the assembled fleet to the user callback.
    Callback,
    /// Issuing the terminate call for every observed instance.
    Terminating,
    /// The run is over; `error` holds its outcome.
    Done,
}

/// `v` holds a string whose characters are `id`.
pub open spec fn str_vec_contains(v: Seq<String>, id: Seq<char>) -> bool {
    exists|i: int| 0 <= i < v.len() && (#[trigger] v[i])@ == id
}

/// The strings of `v` are pairwise distinct.
pub open spec fn strs_distinct(v: Seq<String>) -> bool {
    forall|i: int, j: int| 0 <= i < j < v.len() ==> (#[trigger] v[i])@ != (#[trigger] v[j])@
}

/// The controller state of one run.
pub struct Controller {
    /// The declared machine sets, in declaration order.
    pub sets: Vec<SetSpec>,
    /// The maximum run duration in minutes, echoed from the builder.
    pub max_duration: i64,
    pub phase: Phase,
    /// The provisioned security-group id, once granted.
    pub group_id: Option<String>,
    /// The provisioned keypair name, once granted.
    pub key_name: Option<String>,
    /// Provider ids to set names: request ids while placing and polling,
    /// instance ids after the spot requests settle.
    pub idmap: IdMap,
    /// Every spot-request id issued.
    pub spot_ids: Vec<String>,
    /// Every instance id ever reported with a satisfied (active) request;
    /// exactly these are terminated.
    pub observed: Vec<String>,
    /// The instance ids collected when the spot requests settled.
    pub instance_ids: Vec<String>,
    /// Did every spot request settle active?
    pub all_active: bool,
    /// The fleet rows, one per declared set, filled while polling instances.
    pub fleet: Vec<(String, Vec<Machine>)>,
    /// The next set to place a spot request for.
    pub next_set: usize,
    /// The set row of the machine whose setup runs next.
    pub dispatch_set: usize,
    /// The machine inside that row whose setup runs next.
    pub dispatch_machine: usize,
    /// The first fatal error of the run, if any.
    pub error: Option<BurstError>,
    /// Has a terminate outcome been reported for the observed instances?
    pub terminated: bool,
}

impl Controller {
    /// Set names are unique and non-empty and every set asks for at least
    /// one machine (established by the builder).
    pub open spec fn sets_wf(self) -> bool {
        &&& forall|i: int, j: int|
            0 <= i < j < self.sets@.len() ==> (#[trigger] self.sets@[i]).name@ != (
            #[trigger] self.sets@[j]).name@
        &&& forall|i: int|
            0 <= i < self.sets@.len() ==> (#[trigger] self.sets@[i]).name@.len() > 0
                && self.sets@[i].count >= 1
    }

    /// The log holds exactly `count` entries for every declared set.
    pub open spec fn counts_match(self) -> bool {
        forall|k: int|
            0 <= k < self.sets@.len() ==> count_name(
                self.idmap.pairs(),
                (#[trigger] self.sets@[k]).name@,
            ) == self.sets@[k].count
    }

    /// One fleet row per declared set, in order, every machine fully
    /// described.
    pub open spec fn fleet_wf(self) -> bool {
        &&& self.fleet@.len() == self.sets@.len()
        &&& forall|k: int|
            0 <= k < self.sets@.len() ==> (#[trigger] self.fleet@[k]).0@ == self.sets@[k].name@
        &&& forall|k: int, x: int|
            0 <= k < self.fleet@.len() && 0 <= x < self.fleet@[k].1@.len() ==> (
            #[trigger] self.fleet@[k].1@[x]).fully_described()
    }

    /// Every fleet row holds exactly the machine count its set asked for.
    pub open spec fn fleet_counts_full(self) -> bool {
        forall|k: int|
            0 <= k < self.sets@.len() ==> (#[trigger] self.fleet@[k]).1@.len()
                == self.sets@[k].count
    }

    /// An instance id is among the observed ones.
    pub open spec fn observed_contains(self, id: Seq<char>) -> bool {
        str_vec_contains(self.observed@, id)
    }

    /// The controller invariant, phase by phase.
    pub open spec fn wf(self) -> bool {
        &&& self.sets_wf()
        &&& self.idmap.wf()
        &&& values_among_sets(self.idmap, self.sets@)
        &&& (self.sets@.len() == 0 ==> self.idmap.pairs().len() == 0 && self.spot_ids@.len() == 0
            && self.observed@.len() == 0 && self.instance_ids@.len() == 0)
        &&& (self.phase == Phase::Provisioning ==> self.idmap.pairs().len() == 0
            && self.spot_ids@.len() == 0 && self.observed@.len() == 0 && self.error is None
            && !self.terminated && self.next_set == 0 && self.fleet@.len() == 0)
        &&& (self.phase == Phase::Placing ==> self.group_id is Some && self.key_name is Some
            && self.next_set <= self.sets@.len() && self.error is None && !self.terminated
            && self.observed@.len() == 0 && self.fleet@.len() == 0 && (forall|k: int|
            0 <= k < self.next_set ==> count_name(
                self.idmap.pairs(),
                (#[trigger] self.sets@[k]).name@,
            ) == self.sets@[k].count) && (forall|k: int|
            self.next_set <= k < self.sets@.len() ==> count_name(
                self.idmap.pairs(),
                (#[trigger] self.sets@[k]).name@,
            ) == 0))
        &&& (self.phase == Phase::PollingSpot ==> self.sets@.len() >= 1 && self.counts_match()
            && self.error is None && !self.terminated)
        &&& ((self.phase == Phase::CancellingSpot || self.phase == Phase::PollingInstances)
            ==> self.sets@.len() >= 1 && self.error is None && !self.terminated && (self.all_active
            ==> self.counts_match()))
        &&& (self.phase == Phase::Dispatching ==> self.fleet_wf() && self.all_active
            && self.fleet_counts_full() && self.error is None && !self.terminated
            && self.dispatch_set < self.fleet@.len() && self.dispatch_machine < self.fleet@[
            self.dispatch_set as int].1@.len())
        &&& (self.phase == Phase::Callback ==> self.fleet_wf() && self.all_active
            && self.fleet_counts_full() && self.error is None && !self.terminated)
        &&& (self.phase == Phase::Terminating ==> !self.terminated)
        &&& (self.phase == Phase::Done ==> self.terminated)
    }

    /// Everything except the phase and the error is unchanged.
    pub open spec fn same_tracking(a: Controller, b: Controller) -> bool {
        &&& a.sets == b.sets
        &&& a.max_duration == b.max_duration
        &&& a.group_id == b.group_id
        &&& a.key_name == b.key_name
        &&& a.idmap == b.idmap
        &&& a.spot_ids == b.spot_ids
        &&& a.observed == b.observed
        &&& a.instance_ids == b.instance_ids
        &&& a.all_active == b.all_active
        &&& a.fleet == b.fleet
        &&& a.next_set == b.next_set
        &&& a.dispatch_set == b.dispatch_set
        &&& a.dispatch_machine == b.dispatch_machine
        &&& a.terminated == b.terminated
    }

    /// Begin a run over the sets a builder declared.
    pub fn new(builder: BurstBuilder) -> (c: Controller)
        requires
            builder.wf(),
        ensures
            c.wf(),
            c.phase == Phase::Provisioning,
            c.sets@ == builder.sets(),
            c.max_duration == builder.max_duration_spec(),
            c.observed@.len() == 0,
            c.instance_ids@.len() == 0,
            c.fleet@.len() == 0,
            c.error is None,
    {
        let ghost sets_view = builder.sets();
        let c = Controller {
            sets: builder.descriptors,
            max_duration: builder.max_duration,
            phase: Phase::Provisioning,
            group_id: None,
            key_name: None,
            idmap: IdMap::new(),
            spot_ids: Vec::new(),
            observed: Vec::new(),
            instance_ids: Vec::new(),
            all_active: false,
            fleet: Vec::new(),
            next_set: 0,
            dispatch_set: 0,
            dispatch_machine: 0,
            error: None,
            terminated: false,
        };
        proof {
            assert(c.sets@ == sets_view);
            assert forall|i: int, j: int|
                0 <= i < j < c.sets@.len() implies (#[trigger] c.sets@[i]).name@ != (
            #[trigger] c.sets@[j]).name@ by {
                assert(sets_view[i] == c.sets@[i]);
                assert(sets_view[j] == c.sets@[j]);
            }
            assert forall|i: int|
                0 <= i < c.sets@.len() implies (#[trigger] c.sets@[i]).name@.len() > 0
                    && c.sets@[i].count >= 1 by {
                assert(sets_view[i] == c.sets@[i]);
            }
        }
        c
    }

    /// The security group and keypair exist: move on to placement.
    pub fn access_granted(&mut self, group_id: String, key_name: String)
        requires
            old(self).wf(),
            old(self).phase == Phase::Provisioning,
        ensures
            final(self).wf(),
            final(self).phase == Phase::Placing,
            final(self).group_id matches Some(g) && g@ == group_id@,
            final(self).key_name matches Some(k) && k@ == key_name@,
            final(self).sets == old(self).sets,
            final(self).idmap == old(self).idmap,
            final(self).spot_ids == old(self).spot_ids,
            final(self).observed == old(self).observed,
            final(self).instance_ids == old(self).instance_ids,
            final(self).error is None,
            final(self).next_set == 0,
    {
        self.group_id = Some(group_id);
        self.key_name = Some(key_name);
        self.phase = Phase::Placing;
    }

    /// A provisioning sub-step failed: the run is over once the (empty) set
    /// of observed instances is terminated.
    pub fn provisioning_failed(&mut self, step: AccessStep)
        requires
            old(self).wf(),
            old(self).phase == Phase::Provisioning,
        ensures
            final(self).wf(),
            final(self).phase == Phase::Terminating,
            final(self).error matches Some(BurstError::AccessProvisioning { step: s }) && s == step,
            Self::same_tracking(*old(self), *final(self)),
            final(self).observed@.len() == 0,
    {
        self.error = Some(BurstError::AccessProvisioning { step });
        self.phase = Phase::Terminating;
    }

    /// The next set to issue a spot request for, if any is left.
    pub fn next_placement(&self) -> (r: Option<&SetSpec>)
        requires
            self.wf(),
            self.phase == Phase::Placing,
        ensures
            r is Some <==> self.next_set < self.sets@.len(),
            r matches Some(s) ==> *s == self.sets@[self.next_set as int],
    {
        if self.next_set < self.sets.len() {
            Some(&self.sets[self.next_set])
        } else {
            None
        }
    }

    /// Everything one spot request needs: the current set's image and
    /// instance type, how many machines it asks for, and the provisioned
    /// access names.
    pub fn launch_plan(&self) -> (r: LaunchPlan)
        requires
            self.wf(),
            self.phase == Phase::Placing,
            self.next_set < self.sets@.len(),
        ensures
            r.set_name@ == self.sets@[self.next_set as int].name@,
            r.image_id@ == self.sets@[self.next_set as int].setup.spec_ami(),
            r.instance_type@ == self.sets@[self.next_set as int].setup.spec_instance_type(),
            r.count == self.sets@[self.next_set as int].count,
            (match self.group_id {
                Some(g) => r.security_group_id@ == g@,
                None => false,
            }),
            (match self.key_name {
                Some(k) => r.key_name@ == k@,
                None => false,
            }),
    {
        let set_entry = &self.sets[self.next_set];
        let group = match &self.group_id {
            Some(g) => g.clone(),
            None => {
                proof {
                    assert(false);
                }
                vstd::pervasive::unreached()
            },
        };
        let key = match &self.key_name {
            Some(k) => k.clone(),
            None => {
                proof {
                    assert(false);
                }
                vstd::pervasive::unreached()
            },
        };
        LaunchPlan {
            set_name: set_entry.name.clone(),
            image_id: set_entry.setup.ami.clone(),
            instance_type: set_entry.setup.instance_type.clone(),
            count: set_entry.count,
            security_group_id: group,
            key_name: key,
        }
    }

    /// Would this list of spot-request ids be accepted for the current set?
    /// True when the provider returned one id per asked machine, all fresh
    /// and distinct.
    pub fn placement_acceptable(&self, ids: &Vec<String>) -> (r: bool)
        requires
            self.wf(),
            self.phase == Phase::Placing,
            self.next_set < self.sets@.len(),
        ensures
            r == (ids@.len() == self.sets@[self.next_set as int].count && strs_distinct(ids@)
                && (forall|i: int|
                0 <= i < ids@.len() ==> !self.idmap.contains_key((#[trigger] ids@[i])@))),
    {
        let count = self.sets[self.next_set].count;
        let n = ids.len();
        if !(n as u64 == count as u64) {
            return false;
        }
        let mut i: usize = 0;
        while i < n
            invariant
                n == ids@.len(),
                i <= n,
                forall|k: int| 0 <= k < i ==> !self.idmap.contains_key((#[trigger] ids@[k])@),
            decreases n - i,
        {
            if self.idmap.contains_id(ids[i].as_str()) {
                return false;
            }
            i += 1;
        }
        let mut a: usize = 0;
        while a < n
            invariant
                n == ids@.len(),
                a <= n,
                forall|x: int, y: int|
                    0 <= x < y < n && x < a ==> (#[trigger] ids@[x])@ != (#[trigger] ids@[y])@,
            decreases n - a,
        {
            let mut b: usize = a + 1;
            while b < n
                invariant
                    n == ids@.len(),
                    a < b <= n,
                    a < n,
                    forall|y: int| a < y < b ==> (#[trigger] ids@[y])@ != ids@[a as int]@,
                decreases n - b,
            {
                if str_eq(ids[a].as_str(), ids[b].as_str()) {
                    return false;
                }
                b += 1;
            }
            a += 1;
        }
        true
    }

    /// Record the spot-request ids the provider returned for the current
    /// set: each maps to this set's name, and placement moves on (to the
    /// poller once every set is placed).
    pub fn placement_recorded(&mut self, ids: Vec<String>)
        requires
            old(self).wf(),
            old(self).phase == Phase::Placing,
            old(self).next_set < old(self).sets@.len(),
            ids@.len() == old(self).sets@[old(self).next_set as int].count,
            strs_distinct(ids@),
            forall|i: int|
                0 <= i < ids@.len() ==> !old(self).idmap.contains_key((#[trigger] ids@[i])@),
        ensures
            final(self).wf(),
            final(self).next_set == old(self).next_set + 1,
            final(self).phase == (if old(self).next_set + 1 == old(self).sets@.len() {
                Phase::PollingSpot
            } else {
                Phase::Placing
            }),
            final(self).sets == old(self).sets,
            final(self).error is None,
            final(self).observed == old(self).observed,
            final(self).idmap.pairs().len() == old(self).idmap.pairs().len() + ids@.len(),
            forall|i: int|
                0 <= i < old(self).idmap.pairs().len() ==> final(self).idmap.pairs()[i] == old(self).idmap.pairs()[i],
            forall|i: int|
                0 <= i < ids@.len() ==> final(self).idmap.pairs()[old(self).idmap.pairs().len() + i]
                    == ((#[trigger] ids@[i])@, old(self).sets@[old(self).next_set as int].name@),
            final(self).spot_ids@.len() == old(self).spot_ids@.len() + ids@.len(),
            forall|i: int|
                0 <= i < old(self).spot_ids@.len() ==> final(self).spot_ids@[i] == old(self).spot_ids@[i],
            forall|i: int|
                0 <= i < ids@.len() ==> (#[trigger] final(self).spot_ids@[old(self).spot_ids@.len()
                    + i])@ == (ids@[i])@,
    {
        let ghost name_view = self.sets@[self.next_set as int].name@;
        let n = ids.len();
        let mut i: usize = 0;
        let mut ids = ids;
        let ghost ids0 = ids@;
        proof {
            assert(ids@ =~= ids0);
        }
        while i < n
            invariant
                n == ids0.len(),
                i <= n,
                ids@ =~= ids0.subrange(i as int, n as int),
                old(self).wf(),
                old(self).phase == Phase::Placing,
                old(self).next_set < old(self).sets@.len(),
                strs_distinct(ids0),
                forall|k: int|
                    0 <= k < ids0.len() ==> !old(self).idmap.contains_key((#[trigger] ids0[k])@),
                self.sets == old(self).sets,
                self.phase == old(self).phase,
                self.next_set == old(self).next_set,
                self.observed == old(self).observed,
                self.error == old(self).error,
                self.group_id == old(self).group_id,
                self.key_name == old(self).key_name,
                self.max_duration == old(self).max_duration,
                self.instance_ids == old(self).instance_ids,
                self.all_active == old(self).all_active,
                self.fleet == old(self).fleet,
                self.dispatch_set == old(self).dispatch_set,
                self.dispatch_machine == old(self).dispatch_machine,
                self.terminated == old(self).terminated,
                name_view == self.sets@[self.next_set as int].name@,
                self.idmap.wf(),
                self.idmap.pairs().len() == old(self).idmap.pairs().len() + i,
                forall|k: int|
                    0 <= k < old(self).idmap.pairs().len() ==> self.idmap.pairs()[k] == old(self).idmap.pairs()[k],
                forall|k: int|
                    0 <= k < i ==> self.idmap.pairs()[old(self).idmap.pairs().len() + k] == ((
                    #[trigger] ids0[k])@, name_view),
                self.spot_ids@.len() == old(self).spot_ids@.len() + i,
                forall|k: int|
                    0 <= k < old(self).spot_ids@.len() ==> self.spot_ids@[k] == old(self).spot_ids@[k],
                forall|k: int|
                    0 <= k < i ==> (#[trigger] self.spot_ids@[old(self).spot_ids@.len() + k])@ == (
                    ids0[k])@,
                values_among_sets(self.idmap, self.sets@),
            decreases n - i,
        {
            let id = ids.remove(0);
            proof {
                assert(id@ == ids0[i as int]@);
                if self.idmap.contains_key(id@) {
                    let w = choose|w: int|
                        0 <= w < self.idmap.pairs().len() && (#[trigger] self.idmap.pairs()[w]).0
                            == id@;
                    if w < old(self).idmap.pairs().len() {
                        assert(old(self).idmap.pairs()[w].0 == id@);
                        assert(old(self).idmap.contains_key(ids0[i as int]@));
                        assert(false);
                    } else {
                        let k = w - old(self).idmap.pairs().len();
                        assert(self.idmap.pairs()[w] == (ids0[k]@, name_view));
                        assert(ids0[k]@ == ids0[i as int]@);
                        assert(false);
                    }
                }
            }
            let ghost before = self.idmap;
            self.spot_ids.push(id.clone());
            self.idmap.insert(id, self.sets[self.next_set].name.clone());
            proof {
                assert(self.idmap.pairs() == before.pairs().push((ids0[i as int]@, name_view)));
                assert(set_names_contain(self.sets@, name_view));
                assert forall|t: int|
                    0 <= t < self.idmap.pairs().len() implies set_names_contain(
                    self.sets@,
                    (#[trigger] self.idmap.pairs()[t]).1,
                ) by {
                    if t < before.pairs().len() {
                        assert(self.idmap.pairs()[t] == before.pairs()[t]);
                    } else {
                        assert(self.idmap.pairs()[t].1 == name_view);
                    }
                }
                assert(ids@ =~= ids0.subrange(i as int + 1, n as int));
            }
            i += 1;
        }
        let nsets = self.sets.len();
        proof {
            assert(self.next_set < nsets);
        }
        self.next_set += 1;
        if self.next_set == nsets {
            self.phase = Phase::PollingSpot;
        }
        proof {
            let pre = old(self).idmap.pairs().len() as int;
            assert forall|t: int|
                pre <= t < self.idmap.pairs().len() implies (#[trigger] self.idmap.pairs()[t]).1
                    == name_view by {
                let k2 = t - pre;
                assert(self.idmap.pairs()[pre + k2] == ((ids0[k2])@, name_view));
            }
            assert forall|k: int|
                0 <= k < self.sets@.len() implies count_name(
                self.idmap.pairs(),
                (#[trigger] self.sets@[k]).name@,
            ) == (if k < self.next_set {
                self.sets@[k].count as int
            } else {
                0int
            }) by {
                lemma_count_append_uniform(
                    old(self).idmap.pairs(),
                    self.idmap.pairs(),
                    name_view,
                    self.sets@[k].name@,
                );
                if k != old(self).next_set as int {
                    assert(self.sets@[k].name@ != name_view);
                }
            }
        }
    }

    /// The spot request for the current set was rejected.
    pub fn placement_failed(&mut self)
        requires
            old(self).wf(),
            old(self).phase == Phase::Placing,
            old(self).next_set < old(self).sets@.len(),
        ensures
            final(self).wf(),
            final(self).phase == Phase::Terminating,
            final(self).error matches Some(BurstError::Placement { set_name }) && set_name@ == old(self).sets@[old(self).next_set as int].name@,
            Self::same_tracking(*old(self), *final(self)),
            final(self).observed@.len() == 0,
    {
        self.error = Some(
            BurstError::Placement { set_name: self.sets[self.next_set].name.clone() },
        );
        self.phase = Phase::Terminating;
    }

    /// Every set is placed: start polling, or — with no sets at all — go
    /// straight to the callback with an empty fleet, issuing no poll,
    /// cancel or instance-describe call.
    pub fn begin_polling(&mut self)
        requires
            old(self).wf(),
            old(self).phase == Phase::Placing,
            old(self).next_set == old(self).sets@.len(),
        ensures
            final(self).wf(),
            final(self).phase == (if old(self).sets@.len() == 0 {
                Phase::Callback
            } else {
                Phase::PollingSpot
            }),
            old(self).sets@.len() == 0 ==> final(self).all_active && final(self).fleet@.len() == 0
                && final(self).observed@.len() == 0,
            final(self).sets == old(self).sets,
            final(self).idmap == old(self).idmap,
            final(self).spot_ids == old(self).spot_ids,
            final(self).observed == old(self).observed,
            final(self).instance_ids == old(self).instance_ids,
            final(self).error is None,
    {
        if self.sets.len() == 0 {
            self.all_active = true;
            self.phase = Phase::Callback;
        } else {
            self.phase = Phase::PollingSpot;
        }
    }

    /// A describe-spot-requests call failed.  The eventual-consistency
    /// message is transient: nothing changes and the poller retries.  Every
    /// other failure is fatal and the run moves to termination.
    pub fn spot_poll_failed(&mut self, msg: &str) -> (transient: bool)
        requires
            old(self).wf(),
            old(self).phase == Phase::PollingSpot,
        ensures
            transient == transient_describe_failure(msg@),
            transient ==> *final(self) == *old(self),
            !transient ==> {
                &&& final(self).wf()
                &&& final(self).phase == Phase::Terminating
                &&& final(self).error matches Some(BurstError::Polling { fault: PollFault::Describe })
                &&& Self::same_tracking(*old(self), *final(self))
            },
            final(self).wf(),
    {
        if is_transient_describe_failure(msg) {
            true
        } else {
            self.error = Some(BurstError::Polling { fault: PollFault::Describe });
            self.phase = Phase::Terminating;
            false
        }
    }

    /// Feed one successful describe response to the poller.
    ///
    /// A request without a state field is an invariant violation and aborts
    /// the run (through termination).  While any request is pending the
    /// state is unchanged apart from newly observed instance ids.  Once no
    /// request is pending, the log is rewritten from request ids to
    /// instance ids, the instance ids are collected, and polling moves on
    /// to cancellation; when every request went active, every set keeps its
    /// full machine count in the log.
    pub fn spot_poll(&mut self, reqs: &Vec<SpotDesc>) -> (outcome: SpotPollOutcome)
        requires
            old(self).wf(),
            old(self).phase == Phase::PollingSpot,
            all_have_state(reqs@) && !any_pending(reqs@) ==> coherent_response(
                reqs@,
                old(self).idmap,
            ),
        ensures
            final(self).wf(),
            outcome is MissingState <==> !all_have_state(reqs@),
            outcome is StillPending <==> (all_have_state(reqs@) && any_pending(reqs@)),
            outcome is Settled <==> (all_have_state(reqs@) && !any_pending(reqs@)),
            final(self).sets == old(self).sets,
            final(self).max_duration == old(self).max_duration,
            final(self).group_id == old(self).group_id,
            final(self).key_name == old(self).key_name,
            final(self).spot_ids == old(self).spot_ids,
            final(self).fleet == old(self).fleet,
            final(self).next_set == old(self).next_set,
            final(self).dispatch_set == old(self).dispatch_set,
            final(self).dispatch_machine == old(self).dispatch_machine,
            final(self).terminated == old(self).terminated,
            outcome is MissingState ==> {
                &&& final(self).phase == Phase::Terminating
                &&& final(self).error matches Some(
                    BurstError::Polling { fault: PollFault::MissingState },
                )
                &&& final(self).idmap == old(self).idmap
                &&& final(self).observed == old(self).observed
                &&& final(self).instance_ids == old(self).instance_ids
                &&& final(self).all_active == old(self).all_active
            },
            outcome is StillPending ==> final(self).phase == Phase::PollingSpot && final(self).idmap
                == old(self).idmap && final(self).error is None && final(self).instance_ids == old(self).instance_ids && final(self).all_active == old(self).all_active,
            outcome is Settled ==> final(self).phase == Phase::CancellingSpot && final(self).error
                is None && final(self).idmap.pairs() == settled_pairs(reqs@, old(self).idmap)
                && final(self).all_active == all_active_spec(reqs@) && final(self).instance_ids@.len() == final(self).idmap.pairs().len() && (forall|i: int|
                0 <= i < final(self).instance_ids@.len() ==> (#[trigger] final(self).instance_ids@[i])@ == final(self).idmap.pairs()[i].0) && (all_active_spec(reqs@)
                ==> final(self).counts_match()),
            outcome is StillPending || outcome is Settled ==> (forall|id: Seq<char>|
                final(self).observed_contains(id) <==> (old(self).observed_contains(id) || (
                exists|t: int|
                    0 <= t < reqs@.len() && (#[trigger] reqs@[t]).satisfied() && reqs@[t].iid()
                        == id))),
    {
        if some_state_missing(reqs) {
            self.error = Some(BurstError::Polling { fault: PollFault::MissingState });
            self.phase = Phase::Terminating;
            return SpotPollOutcome::MissingState;
        }
        // record every satisfied instance id
        let n = reqs.len();
        let mut t: usize = 0;
        while t < n
            invariant
                n == reqs@.len(),
                t <= n,
                old(self).wf(),
                self.sets == old(self).sets,
                self.phase == old(self).phase,
                self.group_id == old(self).group_id,
                self.key_name == old(self).key_name,
                self.idmap == old(self).idmap,
                self.spot_ids == old(self).spot_ids,
                self.instance_ids == old(self).instance_ids,
                self.all_active == old(self).all_active,
                self.fleet == old(self).fleet,
                self.next_set == old(self).next_set,
                self.dispatch_set == old(self).dispatch_set,
                self.dispatch_machine == old(self).dispatch_machine,
                self.error == old(self).error,
                self.terminated == old(self).terminated,
                self.max_duration == old(self).max_duration,
                self.sets@.len() >= 1,
                forall|id: Seq<char>|
                    self.observed_contains(id) <==> (old(self).observed_contains(id) || (exists|
                        x: int,
                    |
                        0 <= x < t && (#[trigger] reqs@[x]).satisfied() && reqs@[x].iid() == id)),
            decreases n - t,
        {
            if satisfied_exec(&reqs[t]) {
                let iid = match &reqs[t].instance_id {
                    Some(s) => s,
                    None => {
                        proof {
                            assert(false);
                        }
                        vstd::pervasive::unreached()
                    },
                };
                let ghost obs_before = self.observed@;
                if !vec_contains_str(&self.observed, iid.as_str()) {
                    self.observed.push(iid.clone());
                    proof {
                        assert forall|id: Seq<char>|
                            self.observed_contains(id) <==> (str_vec_contains(obs_before, id)
                                || id == reqs@[t as int].iid()) by {
                            if self.observed_contains(id) {
                                let w = choose|w: int|
                                    0 <= w < self.observed@.len() && (#[trigger] self.observed@[w])@
                                        == id;
                                if w < obs_before.len() {
                                    assert(obs_before[w]@ == id);
                                } else {
                                    assert(id == reqs@[t as int].iid());
                                }
                            } else {
                            }
                            if str_vec_contains(obs_before, id) {
                                let w = choose|w: int|
                                    0 <= w < obs_before.len() && (#[trigger] obs_before[w])@ == id;
                                assert(self.observed@[w]@ == id);
                            }
                            if id == reqs@[t as int].iid() {
                                assert(self.observed@[self.observed@.len() - 1]@ == id);
                            }
                        }
                    }
                }
            }
            proof {
                assert forall|id: Seq<char>|
                    self.observed_contains(id) <==> (old(self).observed_contains(id) || (exists|
                        x: int,
                    |
                        0 <= x < t + 1 && (#[trigger] reqs@[x]).satisfied() && reqs@[x].iid()
                            == id)) by {
                    if self.observed_contains(id) && !old(self).observed_contains(id) {
                        if reqs@[t as int].satisfied() && reqs@[t as int].iid() == id {
                            assert(0 <= t < t + 1 && reqs@[t as int].satisfied());
                        } else {
                            let x = choose|x: int|
                                0 <= x < t && (#[trigger] reqs@[x]).satisfied() && reqs@[x].iid()
                                    == id;
                            assert(0 <= x < t + 1 && reqs@[x].satisfied());
                        }
                    }
                    if exists|x: int|
                        0 <= x < t + 1 && (#[trigger] reqs@[x]).satisfied() && reqs@[x].iid()
                            == id {
                        let x = choose|x: int|
                            0 <= x < t + 1 && (#[trigger] reqs@[x]).satisfied() && reqs@[x].iid()
                                == id;
                        if x < t {
                            assert(exists|x: int|
                                0 <= x < t && (#[trigger] reqs@[x]).satisfied() && reqs@[x].iid()
                                    == id);
                        }
                    }
                }
            }
            t += 1;
        }
        if poll_pending(reqs) {
            return SpotPollOutcome::StillPending;
        }
        let mut taken = IdMap::new();
        core::mem::swap(&mut taken, &mut self.idmap);
        proof {
            assert(taken == old(self).idmap);
        }
        let (settled, iids, allact) = settle(taken, reqs);
        self.idmap = settled;
        self.instance_ids = iids;
        self.all_active = allact;
        self.phase = Phase::CancellingSpot;
        proof {
            lemma_settled_values_from_map(reqs@, old(self).idmap);
            assert forall|i: int|
                0 <= i < self.idmap.pairs().len() implies set_names_contain(
                self.sets@,
                (#[trigger] self.idmap.pairs()[i]).1,
            ) by {
                let j = choose|j: int|
                    0 <= j < old(self).idmap.pairs().len() && (#[trigger] settled_pairs(
                        reqs@,
                        old(self).idmap,
                    )[i]).1 == old(self).idmap.pairs()[j].1;
                assert(set_names_contain(self.sets@, old(self).idmap.pairs()[j].1));
            }
            if allact {
                assert forall|k: int|
                    0 <= k < self.sets@.len() implies count_name(
                    self.idmap.pairs(),
                    (#[trigger] self.sets@[k]).name@,
                ) == self.sets@[k].count by {
                    assert(count_name(old(self).idmap.pairs(), self.sets@[k].name@)
                        == self.sets@[k].count);
                }
            }
        }
        SpotPollOutcome::Settled
    }

    /// The settled spot requests are cancelled: describe the instances next.
    pub fn cancel_done(&mut self)
        requires
            old(self).wf(),
            old(self).phase == Phase::CancellingSpot,
        ensures
            final(self).wf(),
            final(self).phase == Phase::PollingInstances,
            Self::same_tracking(*old(self), *final(self)),
            final(self).error is None,
    {
        self.phase = Phase::PollingInstances;
    }

    /// Cancelling the spot requests failed.
    pub fn cancel_failed(&mut self)
        requires
            old(self).wf(),
            old(self).phase == Phase::CancellingSpot,
        ensures
            final(self).wf(),
            final(self).phase == Phase::Terminating,
            final(self).error matches Some(BurstError::Polling { fault: PollFault::Cancel }),
            Self::same_tracking(*old(self), *final(self)),
    {
        self.error = Some(BurstError::Polling { fault: PollFault::Cancel });
        self.phase = Phase::Terminating;
    }

    /// The describe-instances call failed: fatal, terminate what was
    /// observed.
    pub fn describe_instances_failed(&mut self)
        requires
            old(self).wf(),
            old(self).phase == Phase::PollingInstances,
        ensures
            final(self).wf(),
            final(self).phase == Phase::Terminating,
            final(self).error matches Some(
                BurstError::Polling { fault: PollFault::DescribeInstances },
            ),
            Self::same_tracking(*old(self), *final(self)),
    {
        self.error = Some(BurstError::Polling { fault: PollFault::DescribeInstances });
        self.phase = Phase::Terminating;
    }

    /// Feed one describe-instances response.  If any instance is not yet
    /// fully reported, nothing changes and the rim describes again — a full
    /// restart of the accumulation.  Once every instance is complete the
    /// fleet map is assembled: one row per set, row lengths equal to the
    /// per-set counts of the log; dispatch begins if every spot request had
    /// gone active, else the run proceeds straight to termination.
    pub fn instance_poll(&mut self, ds: &Vec<InstanceDesc>) -> (ready: bool)
        requires
            old(self).wf(),
            old(self).phase == Phase::PollingInstances,
            all_complete(ds@) ==> instance_response_coherent(ds@, old(self).idmap),
        ensures
            ready == all_complete(ds@),
            !ready ==> *final(self) == *old(self),
            final(self).wf(),
            ready ==> {
                &&& final(self).phase == (if old(self).all_active {
                    Phase::Dispatching
                } else {
                    Phase::Terminating
                })
                &&& final(self).fleet@.len() == old(self).sets@.len()
                &&& (forall|k: int|
                    0 <= k < old(self).sets@.len() ==> (#[trigger] final(self).fleet@[k]).0@ == old(self).sets@[k].name@)
                &&& (forall|k: int|
                    0 <= k < old(self).sets@.len() ==> (#[trigger] final(self).fleet@[k]).1@.len()
                        == count_name(old(self).idmap.pairs(), old(self).sets@[k].name@))
                &&& (forall|k: int, x: int|
                    0 <= k < final(self).fleet@.len() && 0 <= x < final(self).fleet@[k].1@.len()
                        ==> machine_from(
                        ds@,
                        old(self).idmap,
                        old(self).sets@[k].name@,
                        #[trigger] final(self).fleet@[k].1@[x],
                    ))
                &&& (forall|k: int, x: int|
                    0 <= k < old(self).sets@.len() && 0 <= x < final(self).fleet@[k].1@.len()
                        ==> machines_for(ds@, old(self).idmap, old(self).sets@[k].name@)[x].describes(
                        #[trigger] final(self).fleet@[k].1@[x],
                    ))
                &&& final(self).sets == old(self).sets
                &&& final(self).observed == old(self).observed
                &&& final(self).error is None
                &&& final(self).all_active == old(self).all_active
                &&& final(self).spot_ids == old(self).spot_ids
                &&& (old(self).all_active ==> final(self).dispatch_set == 0 && final(self).dispatch_machine == 0)
            },
    {
        if !check_complete(ds) {
            return false;
        }
        let fleet = build_fleet(&self.sets, &self.idmap, ds);
        self.fleet = fleet;
        proof {
            assert forall|k: int, x: int|
                0 <= k < self.fleet@.len() && 0 <= x < self.fleet@[k].1@.len() implies (
            #[trigger] self.fleet@[k].1@[x]).fully_described() by {
                lemma_fleet_machines_fully_described(
                    ds@,
                    self.idmap,
                    self.sets@[k].name@,
                    self.fleet@[k].1@[x],
                );
            }
        }
        if self.all_active {
            self.dispatch_set = 0;
            self.dispatch_machine = 0;
            self.phase = Phase::Dispatching;
            proof {
                assert forall|k: int|
                    0 <= k < self.sets@.len() implies (#[trigger] self.fleet@[k]).1@.len()
                        == self.sets@[k].count by {
                    assert(count_name(self.idmap.pairs(), self.sets@[k].name@)
                        == self.sets@[k].count);
                }
                assert(self.fleet@[0].1@.len() >= 1);
            }
        } else {
            self.phase = Phase::Terminating;
        }
        true
    }

    /// The set name and machine address whose SSH setup runs next.
    pub fn dispatch_target(&self) -> (r: (String, String))
        requires
            self.wf(),
            self.phase == Phase::Dispatching,
        ensures
            r.0@ == self.sets@[self.dispatch_set as int].name@,
            r.1@ == self.fleet@[self.dispatch_set as int].1@[self.dispatch_machine as int].public_ip@,
    {
        let name = self.fleet[self.dispatch_set].0.clone();
        let ip = self.fleet[self.dispatch_set].1[self.dispatch_machine].public_ip.clone();
        (name, ip)
    }

    /// Setup finished on the current machine: move to the next machine of
    /// the row, else to the first machine of the next row, else to the
    /// callback once every machine of every set is done.  The cursor walks
    /// the fleet in row-major order, so each machine's setup runs exactly
    /// once before the callback.
    pub fn dispatch_ok(&mut self)
        requires
            old(self).wf(),
            old(self).phase == Phase::Dispatching,
        ensures
            final(self).wf(),
            final(self).sets == old(self).sets,
            final(self).fleet == old(self).fleet,
            final(self).observed == old(self).observed,
            final(self).idmap == old(self).idmap,
            final(self).spot_ids == old(self).spot_ids,
            final(self).instance_ids == old(self).instance_ids,
            final(self).error is None,
            final(self).phase == Phase::Dispatching || final(self).phase == Phase::Callback,
            final(self).phase == Phase::Callback <==> (old(self).dispatch_set + 1 == old(self).fleet@.len() && old(self).dispatch_machine + 1 == old(self).fleet@[old(self).dispatch_set as int].1@.len()),
            final(self).phase == Phase::Dispatching ==> (if old(self).dispatch_machine + 1 < old(self).fleet@[old(self).dispatch_set as int].1@.len() {
                final(self).dispatch_set == old(self).dispatch_set && final(self).dispatch_machine
                    == old(self).dispatch_machine + 1
            } else {
                final(self).dispatch_set == old(self).dispatch_set + 1 && final(self).dispatch_machine == 0
            }),
    {
        let row_len = self.fleet[self.dispatch_set].1.len();
        let nrows = self.fleet.len();
        if self.dispatch_machine + 1 < row_len {
            self.dispatch_machine += 1;
        } else if self.dispatch_set + 1 < nrows {
            self.dispatch_set += 1;
            self.dispatch_machine = 0;
            proof {
                assert(self.fleet@[self.dispatch_set as int].1@.len()
                    == self.sets@[self.dispatch_set as int].count);
            }
        } else {
            self.phase = Phase::Callback;
        }
    }

    /// SSH to the current machine never came up inside the connect budget:
    /// fatal, and the error names the set and the machine.
    pub fn connect_failed(&mut self)
        requires
            old(self).wf(),
            old(self).phase == Phase::Dispatching,
        ensures
            final(self).wf(),
            final(self).phase == Phase::Terminating,
            final(self).error matches Some(BurstError::Connect { set_name, public_ip })
                && set_name@ == old(self).sets@[old(self).dispatch_set as int].name@ && public_ip@
                == old(self).fleet@[old(self).dispatch_set as int].1@[old(self).dispatch_machine as int].public_ip@,
            Self::same_tracking(*old(self), *final(self)),
    {
        self.error = Some(
            BurstError::Connect {
                set_name: self.fleet[self.dispatch_set].0.clone(),
                public_ip: self.fleet[self.dispatch_set].1[self.dispatch_machine].public_ip.clone(),
            },
        );
        self.phase = Phase::Terminating;
    }

    /// SSH reached the current machine but the handshake or the key
    /// authentication failed: fatal, and the error names the set and the
    /// machine.
    pub fn auth_failed(&mut self)
        requires
            old(self).wf(),
            old(self).phase == Phase::Dispatching,
        ensures
            final(self).wf(),
            final(self).phase == Phase::Terminating,
            final(self).error matches Some(BurstError::Auth { set_name, public_ip }) && set_name@
                == old(self).sets@[old(self).dispatch_set as int].name@ && public_ip@ == old(self).fleet@[old(self).dispatch_set as int].1@[old(self).dispatch_machine as int].public_ip@,
            Self::same_tracking(*old(self), *final(self)),
    {
        self.error = Some(
            BurstError::Auth {
                set_name: self.fleet[self.dispatch_set].0.clone(),
                public_ip: self.fleet[self.dispatch_set].1[self.dispatch_machine].public_ip.clone(),
            },
        );
        self.phase = Phase::Terminating;
    }

    /// The setup routine failed on the current machine: fatal, and the
    /// error names the set and the machine.
    pub fn setup_failed(&mut self)
        requires
            old(self).wf(),
            old(self).phase == Phase::Dispatching,
        ensures
            final(self).wf(),
            final(self).phase == Phase::Terminating,
            final(self).error matches Some(BurstError::Setup { set_name, public_ip }) && set_name@
                == old(self).sets@[old(self).dispatch_set as int].name@ && public_ip@ == old(self).fleet@[old(self).dispatch_set as int].1@[old(self).dispatch_machine as int].public_ip@,
            Self::same_tracking(*old(self), *final(self)),
    {
        self.error = Some(
            BurstError::Setup {
                set_name: self.fleet[self.dispatch_set].0.clone(),
                public_ip: self.fleet[self.dispatch_set].1[self.dispatch_machine].public_ip.clone(),
            },
        );
        self.phase = Phase::Terminating;
    }

    /// The user callback returned: terminate the fleet.
    pub fn callback_ok(&mut self)
        requires
            old(self).wf(),
            old(self).phase == Phase::Callback,
        ensures
            final(self).wf(),
            final(self).phase == Phase::Terminating,
            final(self).error is None,
            Self::same_tracking(*old(self), *final(self)),
    {
        self.phase = Phase::Terminating;
    }

    /// The user callback failed: terminate the fleet, then report it.
    pub fn callback_failed(&mut self)
        requires
            old(self).wf(),
            old(self).phase == Phase::Callback,
        ensures
            final(self).wf(),
            final(self).phase == Phase::Terminating,
            final(self).error matches Some(BurstError::UserCallback),
            Self::same_tracking(*old(self), *final(self)),
    {
        self.error = Some(BurstError::UserCallback);
        self.phase = Phase::Terminating;
    }

    /// The instance ids the terminate call must cover: every id ever
    /// observed with a satisfied request.
    pub fn terminate_targets(&self) -> (r: &Vec<String>)
        requires
            self.wf(),
            self.phase == Phase::Terminating,
        ensures
            r@ == self.observed@,
    {
        &self.observed
    }

    /// The terminate call failed.  The broken-transport messages are
    /// transient: nothing changes and the rim retries.  Every other failure
    /// ends the run; an earlier error is never masked by the termination
    /// failure.
    pub fn terminate_failed(&mut self, msg: &str) -> (transient: bool)
        requires
            old(self).wf(),
            old(self).phase == Phase::Terminating,
        ensures
            transient == transient_terminate_failure(msg@),
            transient ==> *final(self) == *old(self),
            !transient ==> {
                &&& final(self).wf()
                &&& final(self).phase == Phase::Done
                &&& final(self).terminated
                &&& (old(self).error is Some ==> final(self).error == old(self).error)
                &&& (old(self).error is None ==> final(self).error matches Some(
                    BurstError::Termination,
                ))
                &&& final(self).sets == old(self).sets
                &&& final(self).observed == old(self).observed
                &&& final(self).fleet == old(self).fleet
            },
            final(self).wf(),
    {
        if is_transient_terminate_failure(msg) {
            true
        } else {
            if self.error.is_none() {
                self.error = Some(BurstError::Termination);
            }
            self.terminated = true;
            self.phase = Phase::Done;
            false
        }
    }

    /// The terminate call succeeded for every observed instance.
    pub fn terminate_ok(&mut self)
        requires
            old(self).wf(),
            old(self).phase == Phase::Terminating,
        ensures
            final(self).wf(),
            final(self).phase == Phase::Done,
            final(self).terminated,
            final(self).error == old(self).error,
            final(self).sets == old(self).sets,
            final(self).observed == old(self).observed,
            final(self).fleet == old(self).fleet,
    {
        self.terminated = true;
        self.phase = Phase::Done;
    }

    /// The outcome of a finished run: the first fatal error, or none.
    pub fn outcome(&self) -> (r: &Option<BurstError>)
        requires
            self.wf(),
            self.phase == Phase::Done,
        ensures
            r == &self.error,
    {
        &self.error
    }
}

/// The data of one spot request to issue.
pub struct LaunchPlan {
    pub set_name: String,
    pub image_id: String,
    pub instance_type: String,
    pub count: u32,
    pub security_group_id: String,
    pub key_name: String,
}

/// What one call of `spot_poll` found.
pub enum SpotPollOutcome {
    /// A request carried no state field: invariant violation, run aborted.
    MissingState,
    /// Some request is still pending: describe again.
    StillPending,
    /// Every request settled: the log is rewritten and polling moves on.
    Settled,
}

/// Is this instance id among the strings of `v`?
pub fn vec_contains_str(v: &Vec<String>, id: &str) -> (r: bool)
    ensures
        r == str_vec_contains(v@, id@),
{
    let n = v.len();
    let mut i: usize = 0;
    while i < n
        invariant
            n == v@.len(),
            i <= n,
            forall|k: int| 0 <= k < i ==> (#[trigger] v@[k])@ != id@,
        decreases n - i,
    {
        if str_eq(v[i].as_str(), id) {
            return true;
        }
        i += 1;
    }
    false
}

/// After a successful run reaches the callback, every declared set is
/// present — no additions, no omissions, in declaration order — and each
/// holds exactly the machine count it asked for.
pub proof fn lemma_callback_fleet_exact(c: Controller)
    requires
        c.wf(),
        c.phase == Phase::Callback,
    ensures
        c.fleet@.len() == c.sets@.len(),
        forall|k: int|
            0 <= k < c.sets@.len() ==> (#[trigger] c.fleet@[k]).0@ == c.sets@[k].name@,
        forall|k: int|
            0 <= k < c.sets@.len() ==> (#[trigger] c.fleet@[k]).1@.len() == c.sets@[k].count,
{
}

/// Every machine handed to the callback is fully described: instance type,
/// private ip, public dns and public ip are all non-empty.
pub proof fn lemma_callback_machines_described(c: Controller)
    requires
        c.wf(),
        c.phase == Phase::Callback,
    ensures
        forall|k: int, x: int|
            0 <= k < c.fleet@.len() && 0 <= x < c.fleet@[k].1@.len() ==> (
            #[trigger] c.fleet@[k].1@[x]).fully_described(),
{
}

/// When termination is reached, the terminate targets are exactly the
/// observed instance ids; and a finished run has always reported a
/// terminate outcome for them.
pub proof fn lemma_done_after_termination(c: Controller)
    requires
        c.wf(),
        c.phase == Phase::Done,
    ensures
        c.terminated,
{
}

/// With every set asking for exactly one machine, the id log is bijective
/// at the poll boundaries: keys are distinct, and so are the set names.
pub proof fn lemma_idmap_bijective_for_singleton_sets(c: Controller)
    requires
        c.wf(),
        c.counts_match(),
        forall|k: int| 0 <= k < c.sets@.len() ==> (#[trigger] c.sets@[k]).count == 1,
    ensures
        c.idmap.wf(),
        c.idmap.injective(),
{
    assert forall|i: int, j: int|
        0 <= i < j < c.idmap.pairs().len() implies (#[trigger] c.idmap.pairs()[i]).1 != (
    #[trigger] c.idmap.pairs()[j]).1 by {
        if c.idmap.pairs()[i].1 == c.idmap.pairs()[j].1 {
            let v = c.idmap.pairs()[i].1;
            assert(set_names_contain(c.sets@, v));
            let k = choose|k: int| 0 <= k < c.sets@.len() && (#[trigger] c.sets@[k]).name@ == v;
            lemma_count_at_least_two(c.idmap.pairs(), i, j, v);
            assert(count_name(c.idmap.pairs(), c.sets@[k].name@) == c.sets@[k].count);
            assert(false);
        }
    }
}

/// A run with no sets reaches the callback with an empty fleet and
/// terminates an empty id list: beyond access provisioning and the final
/// terminate, no cloud call is ever asked for.
pub proof fn lemma_zero_sets_empty_callback(c: Controller)
    requires
        c.wf(),
        c.sets@.len() == 0,
        c.phase == Phase::Callback,
    ensures
        c.fleet@.len() == 0,
        c.observed@.len() == 0,
{
}

} // verus!
