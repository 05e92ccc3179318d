use burst::controller::{Controller, Phase, SpotPollOutcome};
use burst::errors::BurstError;
use burst::instances::InstanceDesc;
use burst::spot::SpotDesc;
use burst::{BurstBuilder, MachineSetup};

fn spot(rid: &str, state: &str, iid: Option<&str>) -> SpotDesc {
    SpotDesc {
        request_id: rid.to_string(),
        state: Some(state.to_string()),
        instance_id: iid.map(|s| s.to_string()),
    }
}

fn inst(iid: &str, itype: &str, pip: &str, dns: &str, pubip: &str) -> InstanceDesc {
    InstanceDesc {
        instance_id: Some(iid.to_string()),
        instance_type: Some(itype.to_string()),
        private_ip: Some(pip.to_string()),
        public_dns: Some(dns.to_string()),
        public_ip: Some(pubip.to_string()),
    }
}

fn single_server_controller() -> Controller {
    let mut b = BurstBuilder::default();
    b.add_set("server", 1, MachineSetup::new("t3.small", "ami-e18aa89b")).unwrap();
    let mut c = Controller::new(b);
    c.access_granted("sg-123".to_string(), "burst_key_abcdefghij".to_string());
    c
}

#[test]
fn launch_plan_carries_set_and_access_data() {
    let c = single_server_controller();
    let plan = c.launch_plan();
    assert_eq!(plan.set_name, "server");
    assert_eq!(plan.image_id, "ami-e18aa89b");
    assert_eq!(plan.instance_type, "t3.small");
    assert_eq!(plan.count, 1);
    assert_eq!(plan.security_group_id, "sg-123");
    assert_eq!(plan.key_name, "burst_key_abcdefghij");
}

#[test]
fn single_server_full_run_delivers_one_machine() {
    let mut c = single_server_controller();
    assert!(c.next_placement().is_some());
    let ids = vec!["sir-1".to_string()];
    assert!(c.placement_acceptable(&ids));
    c.placement_recorded(ids);
    assert_eq!(c.phase, Phase::PollingSpot);

    // stuck-open request: three pending polls before satisfaction
    for _ in 0..3 {
        let pending = vec![spot("sir-1", "open", None)];
        assert!(matches!(c.spot_poll(&pending), SpotPollOutcome::StillPending));
        assert_eq!(c.phase, Phase::PollingSpot);
    }

    let settled = vec![spot("sir-1", "active", Some("i-1"))];
    assert!(matches!(c.spot_poll(&settled), SpotPollOutcome::Settled));
    assert_eq!(c.phase, Phase::CancellingSpot);
    assert!(c.all_active);
    assert_eq!(c.instance_ids, vec!["i-1".to_string()]);
    assert_eq!(c.idmap.entries, vec![("i-1".to_string(), "server".to_string())]);
    c.cancel_done();

    // first describe is incomplete: the accumulation restarts
    let missing_ip = vec![InstanceDesc {
        instance_id: Some("i-1".to_string()),
        instance_type: Some("t3.small".to_string()),
        private_ip: Some("172.31.0.5".to_string()),
        public_dns: Some("ec2-1.compute.amazonaws.com".to_string()),
        public_ip: None,
    }];
    assert!(!c.instance_poll(&missing_ip));
    assert_eq!(c.phase, Phase::PollingInstances);

    let complete = vec![inst(
        "i-1",
        "t3.small",
        "172.31.0.5",
        "ec2-1.compute.amazonaws.com",
        "3.4.5.6",
    )];
    assert!(c.instance_poll(&complete));
    assert_eq!(c.phase, Phase::Dispatching);

    let (set_name, ip) = c.dispatch_target();
    assert_eq!(set_name, "server");
    assert_eq!(ip, "3.4.5.6");
    c.dispatch_ok();
    assert_eq!(c.phase, Phase::Callback);

    // the callback's map: exactly one set, exactly one machine, all fields
    assert_eq!(c.fleet.len(), 1);
    assert_eq!(c.fleet[0].0, "server");
    assert_eq!(c.fleet[0].1.len(), 1);
    let m = &c.fleet[0].1[0];
    assert_eq!(m.instance_type, "t3.small");
    assert!(m.private_ip.starts_with("172.31."));
    assert_eq!(m.public_dns, "ec2-1.compute.amazonaws.com");
    assert_eq!(m.public_ip, "3.4.5.6");

    c.callback_ok();
    assert_eq!(c.phase, Phase::Terminating);
    assert_eq!(c.terminate_targets(), &vec!["i-1".to_string()]);
    c.terminate_ok();
    assert_eq!(c.phase, Phase::Done);
    assert!(c.outcome().is_none());
}

#[test]
fn two_sets_heterogeneous_counts() {
    let mut b = BurstBuilder::default();
    b.add_set("server", 1, MachineSetup::new("t3.small", "ami-1")).unwrap();
    b.add_set("client", 3, MachineSetup::new("t3.small", "ami-1")).unwrap();
    let mut c = Controller::new(b);
    c.access_granted("sg-1".to_string(), "key-1".to_string());

    c.placement_recorded(vec!["sir-s1".to_string()]);
    assert_eq!(c.phase, Phase::Placing);
    c.placement_recorded(vec![
        "sir-c1".to_string(),
        "sir-c2".to_string(),
        "sir-c3".to_string(),
    ]);
    assert_eq!(c.phase, Phase::PollingSpot);

    let settled = vec![
        spot("sir-c2", "active", Some("i-c2")),
        spot("sir-s1", "active", Some("i-s1")),
        spot("sir-c1", "active", Some("i-c1")),
        spot("sir-c3", "active", Some("i-c3")),
    ];
    assert!(matches!(c.spot_poll(&settled), SpotPollOutcome::Settled));
    assert!(c.all_active);
    c.cancel_done();

    let descs = vec![
        inst("i-c1", "t3.small", "172.31.0.11", "dns-c1", "3.0.0.11"),
        inst("i-s1", "t3.small", "172.31.0.10", "dns-s1", "3.0.0.10"),
        inst("i-c3", "t3.small", "172.31.0.13", "dns-c3", "3.0.0.13"),
        inst("i-c2", "t3.small", "172.31.0.12", "dns-c2", "3.0.0.12"),
    ];
    assert!(c.instance_poll(&descs));

    // exactly two keys, in declaration order, with the declared counts
    assert_eq!(c.fleet.len(), 2);
    assert_eq!(c.fleet[0].0, "server");
    assert_eq!(c.fleet[0].1.len(), 1);
    assert_eq!(c.fleet[1].0, "client");
    assert_eq!(c.fleet[1].1.len(), 3);

    // all four private ips distinct
    let mut ips: Vec<String> = Vec::new();
    for (_, machines) in &c.fleet {
        for m in machines {
            assert!(!ips.contains(&m.private_ip));
            ips.push(m.private_ip.clone());
        }
    }
    assert_eq!(ips.len(), 4);
}

#[test]
fn transient_describe_race_then_success() {
    let mut c = single_server_controller();
    c.placement_recorded(vec!["sir-1".to_string()]);

    let mut witness = single_server_controller();
    witness.placement_recorded(vec!["sir-1".to_string()]);

    // the first describe hits the eventual-consistency race
    let transient = c.spot_poll_failed("The spot instance request ID 'sir-1' does not exist");
    assert!(transient);
    assert_eq!(c.phase, Phase::PollingSpot);

    // the next describe succeeds; the witness settles directly
    let settled = vec![spot("sir-1", "active", Some("i-1"))];
    assert!(matches!(c.spot_poll(&settled), SpotPollOutcome::Settled));
    assert!(matches!(witness.spot_poll(&settled), SpotPollOutcome::Settled));
    assert_eq!(c.idmap.entries, witness.idmap.entries);
}

#[test]
fn fatal_describe_error_terminates() {
    let mut c = single_server_controller();
    c.placement_recorded(vec!["sir-1".to_string()]);
    let transient = c.spot_poll_failed("RequestLimitExceeded: try again later");
    assert!(!transient);
    assert_eq!(c.phase, Phase::Terminating);
    assert!(matches!(&c.error, Some(BurstError::Polling { .. })));
}

#[test]
fn missing_state_aborts_the_poll() {
    let mut c = single_server_controller();
    c.placement_recorded(vec!["sir-1".to_string()]);
    let reqs = vec![SpotDesc {
        request_id: "sir-1".to_string(),
        state: None,
        instance_id: None,
    }];
    assert!(matches!(c.spot_poll(&reqs), SpotPollOutcome::MissingState));
    assert_eq!(c.phase, Phase::Terminating);
}

#[test]
fn setup_failure_still_terminates_every_observed_instance() {
    let mut c = single_server_controller();
    c.placement_recorded(vec!["sir-1".to_string()]);
    let settled = vec![spot("sir-1", "active", Some("i-1"))];
    assert!(matches!(c.spot_poll(&settled), SpotPollOutcome::Settled));
    c.cancel_done();
    let descs = vec![inst("i-1", "t3.small", "172.31.0.5", "dns-1", "3.4.5.6")];
    assert!(c.instance_poll(&descs));
    assert_eq!(c.phase, Phase::Dispatching);

    c.setup_failed();
    assert_eq!(c.phase, Phase::Terminating);
    match &c.error {
        Some(BurstError::Setup { set_name, public_ip }) => {
            assert_eq!(set_name, "server");
            assert_eq!(public_ip, "3.4.5.6");
        }
        _ => panic!("expected a setup error"),
    }
    // the collected instance is still terminated
    assert_eq!(c.terminate_targets(), &vec!["i-1".to_string()]);
    c.terminate_ok();
    assert_eq!(c.phase, Phase::Done);
    assert!(matches!(c.outcome(), Some(BurstError::Setup { .. })));
}

#[test]
fn connect_failure_names_set_and_machine() {
    let mut c = single_server_controller();
    c.placement_recorded(vec!["sir-1".to_string()]);
    let settled = vec![spot("sir-1", "active", Some("i-1"))];
    c.spot_poll(&settled);
    c.cancel_done();
    let descs = vec![inst("i-1", "t3.small", "172.31.0.5", "dns-1", "3.4.5.6")];
    c.instance_poll(&descs);

    c.connect_failed();
    match &c.error {
        Some(BurstError::Connect { set_name, public_ip }) => {
            assert_eq!(set_name, "server");
            assert_eq!(public_ip, "3.4.5.6");
        }
        _ => panic!("expected a connect error"),
    }
}

#[test]
fn terminator_retries_transport_flakes_then_succeeds() {
    let mut c = single_server_controller();
    c.placement_recorded(vec!["sir-1".to_string()]);
    let settled = vec![spot("sir-1", "active", Some("i-1"))];
    c.spot_poll(&settled);
    c.cancel_done();
    let descs = vec![inst("i-1", "t3.small", "172.31.0.5", "dns-1", "3.4.5.6")];
    c.instance_poll(&descs);
    c.dispatch_ok();
    c.callback_ok();

    // two transport flakes, then success: three terminate calls in all
    let mut calls = 0;
    calls += 1;
    assert!(c.terminate_failed("Pooled stream disconnected"));
    assert_eq!(c.phase, Phase::Terminating);
    calls += 1;
    assert!(c.terminate_failed("Pooled stream disconnected"));
    assert_eq!(c.phase, Phase::Terminating);
    calls += 1;
    c.terminate_ok();
    assert_eq!(calls, 3);
    assert_eq!(c.phase, Phase::Done);
    assert!(c.outcome().is_none());
}

#[test]
fn termination_error_does_not_mask_the_first_error() {
    let mut c = single_server_controller();
    c.placement_recorded(vec!["sir-1".to_string()]);
    let settled = vec![spot("sir-1", "active", Some("i-1"))];
    c.spot_poll(&settled);
    c.cancel_done();
    let descs = vec![inst("i-1", "t3.small", "172.31.0.5", "dns-1", "3.4.5.6")];
    c.instance_poll(&descs);
    c.setup_failed();
    assert!(!c.terminate_failed("UnauthorizedOperation"));
    assert_eq!(c.phase, Phase::Done);
    assert!(matches!(c.outcome(), Some(BurstError::Setup { .. })));
}

#[test]
fn failed_termination_alone_is_reported() {
    let mut c = single_server_controller();
    c.placement_recorded(vec!["sir-1".to_string()]);
    let settled = vec![spot("sir-1", "active", Some("i-1"))];
    c.spot_poll(&settled);
    c.cancel_done();
    let descs = vec![inst("i-1", "t3.small", "172.31.0.5", "dns-1", "3.4.5.6")];
    c.instance_poll(&descs);
    c.dispatch_ok();
    c.callback_ok();
    assert!(!c.terminate_failed("UnauthorizedOperation"));
    assert!(matches!(c.outcome(), Some(BurstError::Termination)));
}

#[test]
fn zero_sets_reach_callback_with_empty_map_and_no_polls() {
    let b = BurstBuilder::default();
    let mut c = Controller::new(b);
    c.access_granted("sg-1".to_string(), "key-1".to_string());
    c.begin_polling();
    // no spot, cancel or instance call is ever asked for: the phase jumps
    // straight to the callback with an empty fleet
    assert_eq!(c.phase, Phase::Callback);
    assert!(c.all_active);
    assert_eq!(c.fleet.len(), 0);
    c.callback_ok();
    assert_eq!(c.terminate_targets().len(), 0);
    c.terminate_ok();
    assert!(c.outcome().is_none());
}

#[test]
fn not_all_active_skips_dispatch_and_callback() {
    let mut b = BurstBuilder::default();
    b.add_set("server", 2, MachineSetup::new("t3.small", "ami-1")).unwrap();
    let mut c = Controller::new(b);
    c.access_granted("sg-1".to_string(), "key-1".to_string());
    c.placement_recorded(vec!["sir-1".to_string(), "sir-2".to_string()]);
    let settled = vec![
        spot("sir-1", "active", Some("i-1")),
        spot("sir-2", "cancelled", None),
    ];
    assert!(matches!(c.spot_poll(&settled), SpotPollOutcome::Settled));
    assert!(!c.all_active);
    assert_eq!(c.instance_ids, vec!["i-1".to_string()]);
    c.cancel_done();
    let descs = vec![inst("i-1", "t3.small", "172.31.0.5", "dns-1", "3.4.5.6")];
    assert!(c.instance_poll(&descs));
    // without all-active the run goes straight to termination, no callback
    assert_eq!(c.phase, Phase::Terminating);
    assert_eq!(c.terminate_targets(), &vec!["i-1".to_string()]);
    c.terminate_ok();
    assert!(c.outcome().is_none());
}

#[test]
fn observed_ids_accumulate_across_pending_polls() {
    let mut b = BurstBuilder::default();
    b.add_set("server", 2, MachineSetup::new("t3.small", "ami-1")).unwrap();
    let mut c = Controller::new(b);
    c.access_granted("sg-1".to_string(), "key-1".to_string());
    c.placement_recorded(vec!["sir-1".to_string(), "sir-2".to_string()]);

    // one request already satisfied, the other still open
    let partial = vec![
        spot("sir-1", "active", Some("i-1")),
        spot("sir-2", "open", None),
    ];
    assert!(matches!(c.spot_poll(&partial), SpotPollOutcome::StillPending));
    assert_eq!(c.observed, vec!["i-1".to_string()]);

    // a fatal describe error now still terminates the observed instance
    assert!(!c.spot_poll_failed("RequestLimitExceeded"));
    assert_eq!(c.phase, Phase::Terminating);
    assert_eq!(c.terminate_targets(), &vec!["i-1".to_string()]);
}

#[test]
fn dispatch_visits_every_machine_once_in_order() {
    let mut b = BurstBuilder::default();
    b.add_set("server", 1, MachineSetup::new("t3.small", "ami-1")).unwrap();
    b.add_set("client", 2, MachineSetup::new("t3.small", "ami-1")).unwrap();
    let mut c = Controller::new(b);
    c.access_granted("sg-1".to_string(), "key-1".to_string());
    c.placement_recorded(vec!["sir-s1".to_string()]);
    c.placement_recorded(vec!["sir-c1".to_string(), "sir-c2".to_string()]);
    let settled = vec![
        spot("sir-s1", "active", Some("i-s1")),
        spot("sir-c1", "active", Some("i-c1")),
        spot("sir-c2", "active", Some("i-c2")),
    ];
    assert!(matches!(c.spot_poll(&settled), SpotPollOutcome::Settled));
    c.cancel_done();
    let descs = vec![
        inst("i-s1", "t3.small", "172.31.0.10", "dns-s1", "3.0.0.10"),
        inst("i-c1", "t3.small", "172.31.0.11", "dns-c1", "3.0.0.11"),
        inst("i-c2", "t3.small", "172.31.0.12", "dns-c2", "3.0.0.12"),
    ];
    assert!(c.instance_poll(&descs));
    assert_eq!(c.phase, Phase::Dispatching);

    // the cursor walks the fleet in row-major order, one setup per machine
    let mut visited: Vec<(String, String)> = Vec::new();
    while c.phase == Phase::Dispatching {
        visited.push(c.dispatch_target());
        c.dispatch_ok();
    }
    assert_eq!(c.phase, Phase::Callback);
    assert_eq!(
        visited,
        vec![
            ("server".to_string(), "3.0.0.10".to_string()),
            ("client".to_string(), "3.0.0.11".to_string()),
            ("client".to_string(), "3.0.0.12".to_string()),
        ]
    );
}

#[test]
fn placement_keeps_request_ids_in_order() {
    let mut b = BurstBuilder::default();
    b.add_set("server", 1, MachineSetup::new("t3.small", "ami-1")).unwrap();
    b.add_set("client", 2, MachineSetup::new("t3.small", "ami-1")).unwrap();
    let mut c = Controller::new(b);
    c.access_granted("sg-1".to_string(), "key-1".to_string());
    c.placement_recorded(vec!["sir-s1".to_string()]);
    c.placement_recorded(vec!["sir-c1".to_string(), "sir-c2".to_string()]);
    // the tracked ids are exactly the returned request ids, in order
    assert_eq!(
        c.spot_ids,
        vec!["sir-s1".to_string(), "sir-c1".to_string(), "sir-c2".to_string()]
    );
}

#[test]
fn auth_failure_names_set_and_machine() {
    let mut c = single_server_controller();
    c.placement_recorded(vec!["sir-1".to_string()]);
    let settled = vec![spot("sir-1", "active", Some("i-1"))];
    c.spot_poll(&settled);
    c.cancel_done();
    let descs = vec![inst("i-1", "t3.small", "172.31.0.5", "dns-1", "3.4.5.6")];
    c.instance_poll(&descs);

    c.auth_failed();
    assert_eq!(c.phase, Phase::Terminating);
    match &c.error {
        Some(BurstError::Auth { set_name, public_ip }) => {
            assert_eq!(set_name, "server");
            assert_eq!(public_ip, "3.4.5.6");
        }
        _ => panic!("expected an authentication error"),
    }
    assert_eq!(c.terminate_targets(), &vec!["i-1".to_string()]);
}

#[test]
fn idmap_is_bijective_for_singleton_sets() {
    let mut b = BurstBuilder::default();
    b.add_set("server", 1, MachineSetup::new("t3.small", "ami-1")).unwrap();
    b.add_set("client", 1, MachineSetup::new("t3.small", "ami-1")).unwrap();
    let mut c = Controller::new(b);
    c.access_granted("sg-1".to_string(), "key-1".to_string());
    c.placement_recorded(vec!["sir-1".to_string()]);
    c.placement_recorded(vec!["sir-2".to_string()]);

    // before satisfaction: keyed by request id, one id per set name
    assert_eq!(c.idmap.entries.len(), 2);
    assert_ne!(c.idmap.entries[0].0, c.idmap.entries[1].0);
    assert_ne!(c.idmap.entries[0].1, c.idmap.entries[1].1);

    let settled = vec![
        spot("sir-1", "active", Some("i-1")),
        spot("sir-2", "active", Some("i-2")),
    ];
    assert!(matches!(c.spot_poll(&settled), SpotPollOutcome::Settled));

    // after satisfaction: keyed by instance id, still one id per set name
    assert_eq!(c.idmap.entries.len(), 2);
    assert_eq!(c.idmap.entries[0], ("i-1".to_string(), "server".to_string()));
    assert_eq!(c.idmap.entries[1], ("i-2".to_string(), "client".to_string()));
}

#[test]
fn provisioning_failure_terminates_nothing() {
    let b = BurstBuilder::default();
    let mut c = Controller::new(b);
    c.provisioning_failed(burst::errors::AccessStep::CreateKeyPair);
    assert_eq!(c.phase, Phase::Terminating);
    assert_eq!(c.terminate_targets().len(), 0);
    c.terminate_ok();
    assert!(matches!(
        c.outcome(),
        Some(BurstError::AccessProvisioning { .. })
    ));
}
