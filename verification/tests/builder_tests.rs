use burst::{AddSetError, BurstBuilder, MachineSetup};

#[test]
fn default_builder_is_empty_with_one_hour() {
    let b = BurstBuilder::default();
    assert_eq!(b.descriptors.len(), 0);
    assert_eq!(b.max_duration, 60);
}

#[test]
fn add_set_records_name_count_and_setup() {
    let mut b = BurstBuilder::default();
    let r = b.add_set("server", 2, MachineSetup::new("t3.small", "ami-e18aa89b"));
    assert!(r.is_ok());
    assert_eq!(b.descriptors.len(), 1);
    assert_eq!(b.descriptors[0].name, "server");
    assert_eq!(b.descriptors[0].count, 2);
    assert_eq!(b.descriptors[0].setup.instance_type, "t3.small");
    assert_eq!(b.descriptors[0].setup.ami, "ami-e18aa89b");
}

#[test]
fn add_set_rejects_zero_count() {
    let mut b = BurstBuilder::default();
    let r = b.add_set("server", 0, MachineSetup::new("t3.small", "ami-1"));
    assert!(matches!(r, Err(AddSetError::ZeroCount)));
    assert_eq!(b.descriptors.len(), 0);
}

#[test]
fn add_set_rejects_duplicate_name() {
    let mut b = BurstBuilder::default();
    assert!(b.add_set("server", 1, MachineSetup::new("t3.small", "ami-1")).is_ok());
    let r = b.add_set("server", 3, MachineSetup::new("t3.large", "ami-2"));
    assert!(matches!(r, Err(AddSetError::DuplicateName)));
    assert_eq!(b.descriptors.len(), 1);
    assert_eq!(b.descriptors[0].count, 1);
}

#[test]
fn add_set_rejects_empty_name() {
    let mut b = BurstBuilder::default();
    let r = b.add_set("", 1, MachineSetup::new("t3.small", "ami-1"));
    assert!(matches!(r, Err(AddSetError::EmptyName)));
    assert_eq!(b.descriptors.len(), 0);
}

#[test]
fn set_max_duration_keeps_only_last_value() {
    let mut b = BurstBuilder::default();
    b.set_max_duration(2);
    assert_eq!(b.max_duration, 120);
    b.set_max_duration(5);
    b.set_max_duration(3);
    assert_eq!(b.max_duration, 180);

    let mut direct = BurstBuilder::default();
    direct.set_max_duration(3);
    assert_eq!(b.max_duration, direct.max_duration);
}

#[test]
fn max_duration_accepts_the_largest_hours() {
    let mut b = BurstBuilder::default();
    b.set_max_duration(255);
    assert_eq!(b.max_duration, 255 * 60);
}

#[test]
fn machine_setup_echoes_its_fields() {
    let m = MachineSetup::new("m5.large", "ami-abc123");
    assert_eq!(m.instance_type(), "m5.large");
    assert_eq!(m.ami(), "ami-abc123");
}
