//! Access provisioning plans: the ephemeral security-group and keypair names
//! and the two ingress rules the group is given.

use vstd::prelude::*;
use rand::Rng;

verus! {

/// An ASCII letter or digit.
pub open spec fn alphanumeric_char(c: char) -> bool {
    (('a' as u32) <= (c as u32) && (c as u32) <= ('z' as u32)) || (('A' as u32) <= (c as u32) && (
    c as u32) <= ('Z' as u32)) || (('0' as u32) <= (c as u32) && (c as u32) <= ('9' as u32))
}

/// Relies on rand's `Alphanumeric` distribution over the thread rng: every
/// sampled byte is an ASCII letter or digit, and exactly ten are taken.
/// Nothing more is assumed of the randomness.
#[verifier::external_body]
fn random_suffix() -> (r: String)
    ensures
        r@.len() == 10,
        forall|i: int| 0 <= i < r@.len() ==> alphanumeric_char(#[trigger] r@[i]),
{
    rand::thread_rng().sample_iter(&rand::distributions::Alphanumeric).take(10).map(
        char::from,
    ).collect()
}

/// A fresh security-group name: the fixed prefix and ten random characters.
pub fn fresh_group_name() -> (r: String)
    ensures
        r@.len() == 25,
        r@.subrange(0, 15) == "burst_security_"@,
        forall|i: int| 15 <= i < 25 ==> alphanumeric_char(#[trigger] r@[i]),
{
    proof {
        reveal_strlit("burst_security_");
    }
    let mut name = String::from_str("burst_security_");
    let suffix = random_suffix();
    name.append(suffix.as_str());
    proof {
        assert(name@.subrange(0, 15) =~= "burst_security_"@);
    }
    name
}

/// A fresh keypair name: the fixed prefix and ten random characters.
pub fn fresh_key_name() -> (r: String)
    ensures
        r@.len() == 20,
        r@.subrange(0, 10) == "burst_key_"@,
        forall|i: int| 10 <= i < 20 ==> alphanumeric_char(#[trigger] r@[i]),
{
    proof {
        reveal_strlit("burst_key_");
    }
    let mut name = String::from_str("burst_key_");
    let suffix = random_suffix();
    name.append(suffix.as_str());
    proof {
        assert(name@.subrange(0, 10) =~= "burst_key_"@);
    }
    name
}

/// The human description of the ephemeral security group.
pub fn group_description() -> (r: String)
    ensures
        r@ == "Temporary access groups for burst vms"@,
{
    String::from_str("Temporary access groups for burst vms")
}

/// One ingress rule to authorize on the ephemeral security group.
pub struct IngressRule {
    pub group_id: String,
    pub ip_protocol: String,
    pub from_port: u16,
    pub to_port: u16,
    pub cidr_ip: String,
}

/// The two ingress rules of every run: operator SSH from anywhere, and full
/// TCP between machines inside the default VPC range.
pub fn ingress_rules(group_id: &str) -> (r: Vec<IngressRule>)
    ensures
        r@.len() == 2,
        r@[0].group_id@ == group_id@,
        r@[0].ip_protocol@ == "tcp"@,
        r@[0].from_port == 22 && r@[0].to_port == 22,
        r@[0].cidr_ip@ == "0.0.0.0/0"@,
        r@[1].group_id@ == group_id@,
        r@[1].ip_protocol@ == "tcp"@,
        r@[1].from_port == 0 && r@[1].to_port == 65535,
        r@[1].cidr_ip@ == "172.31.0.0/16"@,
{
    let mut rules: Vec<IngressRule> = Vec::new();
    rules.push(
        IngressRule {
            group_id: group_id.to_owned(),
            ip_protocol: String::from_str("tcp"),
            from_port: 22,
            to_port: 22,
            cidr_ip: String::from_str("0.0.0.0/0"),
        },
    );
    rules.push(
        IngressRule {
            group_id: group_id.to_owned(),
            ip_protocol: String::from_str("tcp"),
            from_port: 0,
            to_port: 65535,
            cidr_ip: String::from_str("172.31.0.0/16"),
        },
    );
    rules
}

} // verus!
