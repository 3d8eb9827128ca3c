use bcachefs_mount::{
    explicit_probe_step, identity_of_device, parse_identity, resolution_plan, resolve_by_identity,
    resolve_explicit, split_colons, MountError, ProbeStep, ResolvePlan, ScannedDevice, Superblock,
};

const ID: u128 = 0x0123456789abcdef0123456789abcdef;
const OTHER: u128 = 7;

fn sb(uuid: u128) -> Superblock {
    Superblock { uuid, encrypted_and_locked: false }
}

fn dev(path: &str, uuid: Option<u128>) -> ScannedDevice {
    ScannedDevice { devnode: Some(path.to_string()), superblock: uuid.map(sb) }
}

fn scan() -> Vec<ScannedDevice> {
    vec![
        dev("/dev/sda", Some(OTHER)),
        dev("/dev/sdb", Some(ID)),
        ScannedDevice { devnode: None, superblock: Some(sb(ID)) },
        dev("/dev/sdc", None),
        dev("/dev/sdd", Some(ID)),
    ]
}

fn paths(fs: &bcachefs_mount::ResolvedFilesystem) -> Vec<String> {
    fs.members.iter().map(|m| m.path.clone()).collect()
}

#[test]
fn parse_identity_reads_uuid_text() {
    assert_eq!(parse_identity("01234567-89ab-cdef-0123-456789abcdef"), Ok(ID));
    assert_eq!(parse_identity("0123456789abcdef0123456789abcdef"), Ok(ID));
    assert_eq!(parse_identity("not-a-uuid"), Err(MountError::InvalidIdentity));
    assert_eq!(parse_identity(""), Err(MountError::InvalidIdentity));
}

#[test]
fn plan_for_uuid_prefixes() {
    const TEXT: &str = "01234567-89ab-cdef-0123-456789abcdef";
    match resolution_plan(&format!("UUID={TEXT}")) {
        Ok(ResolvePlan::ByUuid(id)) => assert_eq!(id, ID),
        _ => panic!("expected a UUID plan"),
    }
    match resolution_plan(&format!("OLD_BLKID_UUID={TEXT}")) {
        Ok(ResolvePlan::ByUuid(id)) => assert_eq!(id, ID),
        _ => panic!("expected a UUID plan"),
    }
    match resolution_plan("/dev/sdb") {
        Ok(ResolvePlan::ByDevice(p)) => assert_eq!(p, "/dev/sdb"),
        _ => panic!("expected a device plan"),
    }
}

#[test]
fn malformed_uuid_is_refused_before_any_scan() {
    assert_eq!(resolution_plan("UUID=xyz").unwrap_err(), MountError::InvalidIdentity);
    assert_eq!(resolution_plan("OLD_BLKID_UUID=abc:def").unwrap_err(), MountError::InvalidIdentity);
    assert_eq!(resolution_plan("UUID=").unwrap_err(), MountError::InvalidIdentity);
}

#[test]
fn explicit_list_keeps_count_and_order_without_scan() {
    let listed = match resolution_plan("/dev/c:/dev/a:/dev/b") {
        Ok(ResolvePlan::Explicit(ps)) => ps,
        _ => panic!("expected an explicit list"),
    };
    assert_eq!(listed, vec!["/dev/c", "/dev/a", "/dev/b"]);
    let mut probes = Vec::new();
    let mut reads = Vec::new();
    loop {
        match explicit_probe_step(listed.len(), &probes) {
            ProbeStep::Read(i) => {
                reads.push(i);
                probes.push(Some(sb(ID)));
            }
            ProbeStep::Complete => break,
            ProbeStep::Stop(e) => panic!("unexpected {:?}", e),
        }
    }
    assert_eq!(reads, vec![0, 1, 2]);
    let fs = resolve_explicit(&listed, &probes).unwrap();
    assert_eq!(fs.members.len(), 3);
    assert_eq!(paths(&fs), vec!["/dev/c", "/dev/a", "/dev/b"]);
    assert_eq!(fs.devices_str(), "/dev/c:/dev/a:/dev/b");
    assert_eq!(fs.members[2].source, 2);
}

#[test]
fn explicit_list_stops_at_first_unreadable_device() {
    assert_eq!(explicit_probe_step(3, &vec![Some(sb(ID))]), ProbeStep::Read(1));
    assert_eq!(explicit_probe_step(3, &vec![Some(sb(ID)), None]), ProbeStep::Stop(MountError::ProbeFailed));
    assert_eq!(explicit_probe_step(1, &vec![None]), ProbeStep::Stop(MountError::ProbeFailed));
    assert_eq!(explicit_probe_step(0, &Vec::new()), ProbeStep::Stop(MountError::NotFound));
    assert_eq!(explicit_probe_step(2, &Vec::new()), ProbeStep::Read(0));
}

#[test]
fn explicit_list_fails_on_unreadable_device() {
    let listed = split_colons("/dev/a:/dev/b");
    let probes = vec![Some(sb(ID)), None];
    assert_eq!(resolve_explicit(&listed, &probes).unwrap_err(), MountError::ProbeFailed);
    assert_eq!(resolve_explicit(&Vec::new(), &Vec::new()).unwrap_err(), MountError::NotFound);
}

#[test]
fn split_colons_keeps_empty_pieces() {
    assert_eq!(split_colons("a::b"), vec!["a", "", "b"]);
    assert_eq!(split_colons(""), vec![""]);
}

#[test]
fn uuid_without_members_is_not_found() {
    let id = parse_identity("ffffffff-ffff-ffff-ffff-ffffffffffff").unwrap();
    assert_eq!(resolve_by_identity(id, &scan()).unwrap_err(), MountError::NotFound);
    assert_eq!(resolve_by_identity(ID, &Vec::new()).unwrap_err(), MountError::NotFound);
}

#[test]
fn uuid_members_in_scan_order() {
    let fs = resolve_by_identity(ID, &scan()).unwrap();
    assert_eq!(paths(&fs), vec!["/dev/sdb", "/dev/sdd"]);
    assert_eq!(fs.members[0].source, 1);
    assert_eq!(fs.members[1].source, 4);
    assert_eq!(fs.devices_str(), "/dev/sdb:/dev/sdd");
    assert_eq!(fs.representative(), sb(ID));
}

#[test]
fn reshuffled_scan_gives_same_member_set() {
    let mut shuffled = scan();
    shuffled.reverse();
    let a = resolve_by_identity(ID, &scan()).unwrap();
    let b = resolve_by_identity(ID, &shuffled).unwrap();
    let mut pa = paths(&a);
    let mut pb = paths(&b);
    assert_ne!(pa, pb);
    pa.sort();
    pb.sort();
    assert_eq!(pa, pb);
}

#[test]
fn single_device_recovers_all_members() {
    // the path itself (a symlink, say) need not be among the scanned nodes
    let id = identity_of_device(Some(sb(ID))).unwrap();
    assert_eq!(id, ID);
    let fs = resolve_by_identity(id, &scan()).unwrap();
    assert_eq!(fs.devices_str(), "/dev/sdb:/dev/sdd");
}

#[test]
fn single_device_unreadable() {
    assert_eq!(identity_of_device(None), Err(MountError::ProbeFailed));
    assert_eq!(identity_of_device(Some(sb(OTHER))), Ok(OTHER));
}
