//! The fleet description: a builder holding named, sized machine sets and a
//! maximum run duration.

use vstd::prelude::*;
use crate::errors::AddSetError;
use crate::machine::MachineSetup;
use crate::text::str_eq;

verus! {

/// One named machine set: its unique name, its description, and how many
/// machines it asks for.
pub struct SetSpec {
    pub name: String,
    pub setup: MachineSetup,
    pub count: u32,
}

/// The declarative fleet description that a run consumes.
pub struct BurstBuilder {
    pub descriptors: Vec<SetSpec>,
    pub max_duration: i64,
}

impl BurstBuilder {
    /// The machine sets added so far, in insertion order.
    pub open spec fn sets(self) -> Seq<SetSpec> {
        self.descriptors@
    }

    /// The maximum run duration, in minutes.
    pub open spec fn max_duration_spec(self) -> int {
        self.max_duration as int
    }

    /// Some set already carries this name.
    pub open spec fn has_name(self, n: Seq<char>) -> bool {
        exists|i: int| 0 <= i < self.sets().len() && self.sets()[i].name@ == n
    }

    /// Set names are unique and non-empty, and every set asks for at least
    /// one machine.
    pub open spec fn wf(self) -> bool {
        &&& forall|i: int, j: int|
            0 <= i < j < self.sets().len() ==> self.sets()[i].name@ != self.sets()[j].name@
        &&& forall|i: int|
            0 <= i < self.sets().len() ==> (#[trigger] self.sets()[i]).name@.len() > 0
                && self.sets()[i].count >= 1
    }

    /// What `set_max_duration` makes of the stored duration: the previous
    /// value does not enter into it.
    pub open spec fn duration_after(minutes_before: int, hours: u8) -> int {
        hours as int * 60
    }

    /// Add a machine set.  The name must be new and non-empty and the count
    /// at least one; a rejected call leaves the builder unchanged.
    pub fn add_set(&mut self, name: &str, number: u32, description: MachineSetup) -> (r: Result<
        (),
        AddSetError,
    >)
        ensures
            r is Ok <==> (name@.len() > 0 && !old(self).has_name(name@) && number >= 1),
            r matches Err(AddSetError::EmptyName) <==> name@.len() == 0,
            r matches Err(AddSetError::DuplicateName) <==> (name@.len() > 0 && old(
                self,
            ).has_name(name@)),
            r matches Err(AddSetError::ZeroCount) <==> (name@.len() > 0 && !old(self).has_name(
                name@,
            ) && number == 0),
            r is Err ==> *final(self) == *old(self),
            r is Ok ==> {
                &&& final(self).sets().len() == old(self).sets().len() + 1
                &&& forall|i: int|
                    0 <= i < old(self).sets().len() ==> final(self).sets()[i] == old(self).sets()[i]
                &&& final(self).sets().last().name@ == name@
                &&& final(self).sets().last().count == number
                &&& final(self).sets().last().setup == description
                &&& final(self).max_duration_spec() == old(self).max_duration_spec()
            },
            old(self).wf() ==> final(self).wf(),
    {
        if name.unicode_len() == 0 {
            return Err(AddSetError::EmptyName);
        }
        let mut i: usize = 0;
        while i < self.descriptors.len()
            invariant
                i <= self.descriptors@.len(),
                name@.len() > 0,
                *self == *old(self),
                forall|k: int| 0 <= k < i ==> self.descriptors@[k].name@ != name@,
            decreases self.descriptors@.len() - i,
        {
            if str_eq(self.descriptors[i].name.as_str(), name) {
                proof {
                    assert(old(self).sets()[i as int].name@ == name@);
                }
                return Err(AddSetError::DuplicateName);
            }
            i += 1;
        }
        if number == 0 {
            return Err(AddSetError::ZeroCount);
        }
        self.descriptors.push(SetSpec { name: name.to_owned(), setup: description, count: number });
        Ok(())
    }

    /// Fix the maximum run duration; any number of calls before a run leaves
    /// only the last value effective.
    pub fn set_max_duration(&mut self, hours: u8)
        ensures
            final(self).max_duration_spec() == Self::duration_after(
                old(self).max_duration_spec(),
                hours,
            ),
            final(self).sets() == old(self).sets(),
    {
        self.max_duration = hours as i64 * 60;
    }
}

impl Default for BurstBuilder {
    /// An empty fleet description with a one-hour maximum duration.
    fn default() -> (r: Self)
        ensures
            r.sets().len() == 0,
            r.max_duration_spec() == 60,
            r.wf(),
    {
        BurstBuilder { descriptors: Vec::new(), max_duration: 60 }
    }
}

/// Setting the maximum duration twice is the same as setting it once with
/// the last value: the duration written never depends on the duration that
/// stood before.
pub proof fn lemma_set_max_duration_last_wins(d0: int, h1: u8, h2: u8)
    ensures
        BurstBuilder::duration_after(BurstBuilder::duration_after(d0, h1), h2)
            == BurstBuilder::duration_after(d0, h2),
{
}

} // verus!
