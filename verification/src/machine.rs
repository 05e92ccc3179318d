//! The materialized machine record and the per-set machine description.

use vstd::prelude::*;

verus! {

/// One live machine of the fleet, as echoed by the provider.
pub struct Machine {
    pub instance_type: String,
    pub private_ip: String,
    pub public_dns: String,
    pub public_ip: String,
}

impl Machine {
    /// Every field the provider echoes is present and non-empty; only such
    /// records are ever handed to the user callback.
    pub open spec fn fully_described(self) -> bool {
        self.instance_type@.len() > 0 && self.private_ip@.len() > 0
            && self.public_dns@.len() > 0 && self.public_ip@.len() > 0
    }
}

/// The immutable description of the machines of one set: an instance-type
/// identifier and an image identifier.  The per-set setup routine is owned by
/// the unverified rim, keyed by set name; it never enters the verified core.
pub struct MachineSetup {
    pub instance_type: String,
    pub ami: String,
}

impl MachineSetup {
    pub open spec fn spec_instance_type(self) -> Seq<char> {
        self.instance_type@
    }

    pub open spec fn spec_ami(self) -> Seq<char> {
        self.ami@
    }

    pub fn new(instance_type: &str, ami: &str) -> (r: Self)
        ensures
            r.spec_instance_type() == instance_type@,
            r.spec_ami() == ami@,
    {
        MachineSetup { instance_type: instance_type.to_owned(), ami: ami.to_owned() }
    }

    pub fn instance_type(&self) -> (r: &str)
        ensures
            r@ == self.spec_instance_type(),
    {
        self.instance_type.as_str()
    }

    pub fn ami(&self) -> (r: &str)
        ensures
            r@ == self.spec_ami(),
    {
        self.ami.as_str()
    }
}

} // verus!
