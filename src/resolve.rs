use vstd::prelude::*;
use vstd::string::*;
use crate::options::{join_on, lemma_join_split, lemma_split_pieces, split_on, text_eq};

verus! {

/// What the superblock of a member device tells about its filesystem.
#[derive(Clone, Copy, Debug, PartialEq, Eq, Structural)]
pub struct Superblock {
    /// The filesystem's UUID, as a big-endian 128-bit integer.
    pub uuid: u128,
    /// Whether the master key is encrypted and not yet unlocked.
    pub encrypted_and_locked: bool,
}

/// One block device seen by a scan of the system: its device node, if it has
/// one, and its superblock, where probing it succeeded.
#[derive(Clone, Debug)]
pub struct ScannedDevice {
    pub devnode: Option<String>,
    pub superblock: Option<Superblock>,
}

/// A member device of the filesystem being mounted. `source` is its position
/// in the list it was taken from (the scan, or the explicit device list).
#[derive(Clone, Debug)]
pub struct DeviceRecord {
    pub path: String,
    pub superblock: Superblock,
    pub source: usize,
}

/// The member devices of one filesystem, in the order in which they were found.
#[derive(Clone, Debug)]
pub struct ResolvedFilesystem {
    pub members: Vec<DeviceRecord>,
}

#[derive(Clone, Copy, Debug, PartialEq, Eq, Structural)]
pub enum MountError {
    /// The UUID text is malformed.
    InvalidIdentity,
    /// No device matches the specifier.
    NotFound,
    /// The block devices could not be listed.
    EnumerationFailed,
    /// A device of an explicit device list has no readable superblock.
    ProbeFailed,
    /// The filesystem is encrypted and no way of unlocking it succeeded.
    LockedFilesystem,
    /// The mount call failed with this system error number.
    MountFailed(i32),
}

/// How a device specifier is to be resolved.
#[derive(Clone, Debug)]
pub enum ResolvePlan {
    /// `UUID=` or `OLD_BLKID_UUID=` followed by the text of this UUID: scan
    /// for its members.
    ByUuid(u128),
    /// A colon-joined list of device paths, taken as the whole membership.
    Explicit(Vec<String>),
    /// One device path: read its superblock for the UUID, then scan for all
    /// members.
    ByDevice(String),
}

pub open spec fn has_prefix(s: Seq<char>, p: Seq<char>) -> bool {
    s.len() >= p.len() && s.take(p.len() as int) == p
}

/// The resolution plan for a specifier, over its characters; a UUID text
/// that does not parse is refused with `InvalidIdentity`.
pub open spec fn plan_matches(dev: Seq<char>, r: Result<ResolvePlan, MountError>) -> bool {
    if has_prefix(dev, "UUID="@) {
        uuid_plan(dev.skip(5), r)
    } else if has_prefix(dev, "OLD_BLKID_UUID="@) {
        uuid_plan(dev.skip(15), r)
    } else if dev.contains(':') {
        r matches Ok(ResolvePlan::Explicit(ps)) && ps@.len() == split_on(dev, ':').len()
            && forall|i: int| 0 <= i < ps@.len() ==> (#[trigger] ps@[i])@ == split_on(dev, ':')[i]
    } else {
        r matches Ok(ResolvePlan::ByDevice(p)) && p@ == dev
    }
}

/// The plan for the UUID text `t`.
pub open spec fn uuid_plan(t: Seq<char>, r: Result<ResolvePlan, MountError>) -> bool {
    match uuid_text_value(t) {
        Some(id) => r == Ok::<ResolvePlan, MountError>(ResolvePlan::ByUuid(id)),
        None => r == Err::<ResolvePlan, MountError>(MountError::InvalidIdentity),
    }
}

fn starts_with(s: &str, p: &str) -> (r: bool)
    ensures
        r == has_prefix(s@, p@),
{
    let n = s.unicode_len();
    let m = p.unicode_len();
    if n < m {
        return false;
    }
    text_eq(s.substring_char(0, m), p)
}

fn contains_char(s: &str, c: char) -> (r: bool)
    ensures
        r == s@.contains(c),
{
    let n = s.unicode_len();
    let mut i: usize = 0;
    while i < n
        invariant
            n == s@.len(),
            i <= n,
            forall|j: int| 0 <= j < i ==> s@[j] != c,
        decreases n - i,
    {
        if s.get_char(i) == c {
            return true;
        }
        i += 1;
    }
    false
}

/// The pieces of `s` between colons.
pub fn split_colons(s: &str) -> (r: Vec<String>)
    ensures
        r@.len() == split_on(s@, ':').len(),
        forall|i: int| 0 <= i < r@.len() ==> (#[trigger] r@[i])@ == split_on(s@, ':')[i],
{
    let n = s.unicode_len();
    let mut start: usize = 0;
    let mut i: usize = 0;
    let mut out: Vec<String> = Vec::new();
    assert(s@.take(0) =~= Seq::<char>::empty());
    assert(s@.subrange(0, 0) =~= Seq::<char>::empty());
    while i < n
        invariant
            n == s@.len(),
            start <= i <= n,
            split_on(s@.take(i as int), ':').len() == out@.len() + 1,
            forall|j: int| 0 <= j < out@.len() ==> (#[trigger] out@[j])@ == split_on(s@.take(i as int), ':')[j],
            split_on(s@.take(i as int), ':').last() == s@.subrange(start as int, i as int),
        decreases n - i,
    {
        let c = s.get_char(i);
        let ghost pre = s@.take(i as int);
        assert(s@.take(i + 1).drop_last() =~= pre);
        assert(s@.take(i + 1).last() == c);
        if c == ':' {
            let piece = String::from_str(s.substring_char(start, i));
            let ghost before = out@;
            out.push(piece);
            start = i + 1;
            i = i + 1;
            assert(s@.subrange(start as int, i as int) =~= Seq::<char>::empty());
            assert forall|j: int| 0 <= j < out@.len() implies (#[trigger] out@[j])@ == split_on(s@.take(i as int), ':')[j] by {
                if j < out@.len() - 1 {
                    assert(out@[j] == before[j]);
                }
            }
        } else {
            assert(s@.subrange(start as int, i + 1) =~= s@.subrange(start as int, i as int).push(c));
            i = i + 1;
        }
    }
    assert(s@.take(n as int) =~= s@);
    let piece = String::from_str(s.substring_char(start, n));
    out.push(piece);
    out
}

/// Decides how a device specifier is resolved: by UUID where it carries the
/// `UUID=` or `OLD_BLKID_UUID=` prefix (the UUID text is parsed here, before
/// any scan), as an explicit device list where it holds a colon, else as one
/// device path.
pub fn resolution_plan(dev: &str) -> (r: Result<ResolvePlan, MountError>)
    ensures
        plan_matches(dev@, r),
{
    proof {
        reveal_strlit("UUID=");
        reveal_strlit("OLD_BLKID_UUID=");
    }
    let n = dev.unicode_len();
    if starts_with(dev, "UUID=") {
        match parse_identity(dev.substring_char(5, n)) {
            Ok(id) => Ok(ResolvePlan::ByUuid(id)),
            Err(e) => Err(e),
        }
    } else if starts_with(dev, "OLD_BLKID_UUID=") {
        match parse_identity(dev.substring_char(15, n)) {
            Ok(id) => Ok(ResolvePlan::ByUuid(id)),
            Err(e) => Err(e),
        }
    } else if contains_char(dev, ':') {
        Ok(ResolvePlan::Explicit(split_colons(dev)))
    } else {
        Ok(ResolvePlan::ByDevice(String::from_str(dev)))
    }
}

/// The UUID that a text spells, as a big-endian 128-bit integer, or `None`
/// where the text is not a UUID.
pub uninterp spec fn uuid_text_value(s: Seq<char>) -> Option<u128>;

/// Relies on `uuid::Uuid::parse_str` (with `Uuid::as_u128`): the UUID that the
/// text spells, depending on the text alone.
#[verifier::external_body]
fn parse_uuid(s: &str) -> (r: Option<u128>)
    ensures
        r == uuid_text_value(s@),
{
    match uuid::Uuid::parse_str(s) {
        Ok(u) => Some(u.as_u128()),
        Err(_) => None,
    }
}

/// Reads a filesystem identity from its text form.
pub fn parse_identity(text: &str) -> (r: Result<u128, MountError>)
    ensures
        match uuid_text_value(text@) {
            Some(u) => r == Ok::<u128, MountError>(u),
            None => r == Err::<u128, MountError>(MountError::InvalidIdentity),
        },
{
    match parse_uuid(text) {
        Some(u) => Ok(u),
        None => Err(MountError::InvalidIdentity),
    }
}

/// A scanned device belongs to the filesystem `id`: it has a device node and
/// a superblock that names `id`.
pub open spec fn is_member(d: ScannedDevice, id: u128) -> bool {
    d.devnode is Some && d.superblock is Some && d.superblock->0.uuid == id
}

/// The positions of the members of `id` in a scan, in scan order.
pub open spec fn member_indices(scan: Seq<ScannedDevice>, id: u128) -> Seq<int>
    decreases scan.len(),
{
    if scan.len() == 0 {
        Seq::<int>::empty()
    } else if is_member(scan.last(), id) {
        member_indices(scan.drop_last(), id).push(scan.len() - 1)
    } else {
        member_indices(scan.drop_last(), id)
    }
}

/// `members` are the members of `id` in `scan`, each with its device node and
/// superblock, in scan order.
pub open spec fn selects(members: Seq<DeviceRecord>, scan: Seq<ScannedDevice>, id: u128) -> bool {
    &&& members.len() == member_indices(scan, id).len()
    &&& forall|k: int|
        #![trigger members[k]]
        0 <= k < members.len() ==> {
            let j = member_indices(scan, id)[k];
            &&& members[k].source == j
            &&& members[k].path@ == scan[j].devnode->0@
            &&& members[k].superblock == scan[j].superblock->0
        }
}

/// The set of device paths of the members of `id` in a scan.
pub open spec fn member_paths(scan: Seq<ScannedDevice>, id: u128) -> Set<Seq<char>> {
    Set::new(
        |p: Seq<char>|
            exists|i: int| 0 <= i < scan.len() && is_member(scan[i], id) && (#[trigger] scan[i]).devnode->0@ == p,
    )
}

/// The set of the paths of some device records.
pub open spec fn record_paths(members: Seq<DeviceRecord>) -> Set<Seq<char>> {
    Set::new(|p: Seq<char>| exists|k: int| 0 <= k < members.len() && (#[trigger] members[k]).path@ == p)
}

proof fn lemma_member_indices(scan: Seq<ScannedDevice>, id: u128)
    ensures
        forall|k: int|
            0 <= k < member_indices(scan, id).len() ==> 0 <= #[trigger] member_indices(scan, id)[k] < scan.len()
                && is_member(scan[member_indices(scan, id)[k]], id),
        forall|i: int|
            0 <= i < scan.len() && is_member(#[trigger] scan[i], id) ==> member_indices(scan, id).contains(i),
    decreases scan.len(),
{
    if scan.len() > 0 {
        let pre = scan.drop_last();
        lemma_member_indices(pre, id);
        let m = member_indices(scan, id);
        let mp = member_indices(pre, id);
        assert forall|k: int| 0 <= k < m.len() implies 0 <= #[trigger] m[k] < scan.len() && is_member(scan[m[k]], id) by {
            if k < mp.len() {
                assert(m[k] == mp[k]);
                assert(pre[mp[k]] == scan[mp[k]]);
            }
        }
        assert forall|i: int| 0 <= i < scan.len() && is_member(#[trigger] scan[i], id) implies m.contains(i) by {
            if i < pre.len() {
                assert(pre[i] == scan[i]);
                let k = choose|k: int| 0 <= k < mp.len() && mp[k] == i;
                assert(m[k] == mp[k]);
            } else {
                assert(m[m.len() - 1] == i);
            }
        }
    }
}

proof fn lemma_selected_paths(members: Seq<DeviceRecord>, scan: Seq<ScannedDevice>, id: u128)
    requires
        selects(members, scan, id),
    ensures
        record_paths(members) == member_paths(scan, id),
{
    lemma_member_indices(scan, id);
    let m = member_indices(scan, id);
    assert forall|p: Seq<char>| record_paths(members).contains(p) implies member_paths(scan, id).contains(p) by {
        let k = choose|k: int| 0 <= k < members.len() && (#[trigger] members[k]).path@ == p;
        let j = m[k];
        assert(is_member(scan[j], id));
    }
    assert forall|p: Seq<char>| member_paths(scan, id).contains(p) implies record_paths(members).contains(p) by {
        let i = choose|i: int| 0 <= i < scan.len() && is_member(scan[i], id) && (#[trigger] scan[i]).devnode->0@ == p;
        let k = choose|k: int| 0 <= k < m.len() && m[k] == i;
        assert(members[k].path@ == p);
    }
    assert(record_paths(members) =~= member_paths(scan, id));
}

/// Which devices are members of a filesystem does not depend on the order of
/// the scan: two scans that hold the same devices, in any order, give member
/// lists with the same set of paths (though not necessarily in the same order).
pub proof fn lemma_membership_ignores_scan_order(
    s1: Seq<ScannedDevice>,
    s2: Seq<ScannedDevice>,
    id: u128,
    m1: Seq<DeviceRecord>,
    m2: Seq<DeviceRecord>,
)
    requires
        s1.to_multiset() == s2.to_multiset(),
        selects(m1, s1, id),
        selects(m2, s2, id),
    ensures
        record_paths(m1) == record_paths(m2),
{
    lemma_selected_paths(m1, s1, id);
    lemma_selected_paths(m2, s2, id);
    s1.to_multiset_ensures();
    s2.to_multiset_ensures();
    assert forall|p: Seq<char>| member_paths(s1, id).contains(p) implies member_paths(s2, id).contains(p) by {
        let i = choose|i: int| 0 <= i < s1.len() && is_member(s1[i], id) && (#[trigger] s1[i]).devnode->0@ == p;
        assert(s1.contains(s1[i]));
        assert(s1.to_multiset().count(s1[i]) > 0);
        assert(s2.to_multiset().count(s1[i]) > 0);
        assert(s2.contains(s1[i]));
        let j = choose|j: int| 0 <= j < s2.len() && s2[j] == s1[i];
        assert(s2[j].devnode->0@ == p);
    }
    assert forall|p: Seq<char>| member_paths(s2, id).contains(p) implies member_paths(s1, id).contains(p) by {
        let i = choose|i: int| 0 <= i < s2.len() && is_member(s2[i], id) && (#[trigger] s2[i]).devnode->0@ == p;
        assert(s2.contains(s2[i]));
        assert(s2.to_multiset().count(s2[i]) > 0);
        assert(s1.to_multiset().count(s2[i]) > 0);
        assert(s1.contains(s2[i]));
        let j = choose|j: int| 0 <= j < s1.len() && s1[j] == s2[i];
        assert(s1[j].devnode->0@ == p);
    }
    assert(member_paths(s1, id) =~= member_paths(s2, id));
}

/// The members of the filesystem `id` among the scanned devices, in scan order.
pub fn select_members(scan: &Vec<ScannedDevice>, id: u128) -> (r: Vec<DeviceRecord>)
    ensures
        selects(r@, scan@, id),
{
    let mut out: Vec<DeviceRecord> = Vec::new();
    let mut i: usize = 0;
    while i < scan.len()
        invariant
            i <= scan@.len(),
            selects(out@, scan@.take(i as int), id),
        decreases scan@.len() - i,
    {
        let ghost s0 = scan@.take(i as int);
        let ghost s1 = scan@.take(i + 1);
        assert(s1.drop_last() =~= s0);
        assert(s1.last() == scan@[i as int]);
        let ghost before = out@;
        let d = &scan[i];
        match (&d.devnode, &d.superblock) {
            (Some(path), Some(sb)) => {
                if sb.uuid == id {
                    out.push(DeviceRecord { path: path.clone(), superblock: *sb, source: i });
                    assert forall|k: int| #![trigger out@[k]] 0 <= k < out@.len() implies {
                        let j = member_indices(s1, id)[k];
                        &&& out@[k].source == j
                        &&& out@[k].path@ == s1[j].devnode->0@
                        &&& out@[k].superblock == s1[j].superblock->0
                    } by {
                        if k < before.len() {
                            assert(out@[k] == before[k]);
                            lemma_member_indices(s0, id);
                            assert(s0[member_indices(s0, id)[k]] == s1[member_indices(s0, id)[k]]);
                        }
                    }
                } else {
                    proof { lemma_member_indices(s0, id); }
                    assert forall|k: int| 0 <= k < member_indices(s0, id).len() implies
                        s0[#[trigger] member_indices(s0, id)[k]] == s1[member_indices(s0, id)[k]] by {}
                }
            },
            _ => {
                proof { lemma_member_indices(s0, id); }
                assert forall|k: int| 0 <= k < member_indices(s0, id).len() implies
                    s0[#[trigger] member_indices(s0, id)[k]] == s1[member_indices(s0, id)[k]] by {}
            },
        }
        i += 1;
    }
    assert(scan@.take(scan@.len() as int) =~= scan@);
    out
}

/// `r` is the result of collecting the members of `id` from `scan`.
pub open spec fn resolved_by_identity(
    id: u128,
    scan: Seq<ScannedDevice>,
    r: Result<ResolvedFilesystem, MountError>,
) -> bool {
    &&& member_indices(scan, id).len() == 0 <==> r == Err::<ResolvedFilesystem, MountError>(
        MountError::NotFound,
    )
    &&& r is Ok || r == Err::<ResolvedFilesystem, MountError>(MountError::NotFound)
    &&& r matches Ok(fs) ==> fs.members@.len() > 0 && selects(fs.members@, scan, id)
}

/// `r` is the result of resolving the explicit list `paths` from `probes`.
pub open spec fn resolved_explicitly(
    paths: Seq<String>,
    probes: Seq<Option<Superblock>>,
    r: Result<ResolvedFilesystem, MountError>,
) -> bool {
    &&& paths.len() == 0 <==> r == Err::<ResolvedFilesystem, MountError>(MountError::NotFound)
    &&& paths.len() > 0 && (forall|i: int| 0 <= i < probes.len() ==> probes[i] is Some) ==> r is Ok
    &&& paths.len() > 0 ==> ((exists|i: int| 0 <= i < probes.len() && probes[i] is None) <==> r
        == Err::<ResolvedFilesystem, MountError>(MountError::ProbeFailed))
    &&& r is Ok || r == Err::<ResolvedFilesystem, MountError>(MountError::NotFound) || r == Err::<
        ResolvedFilesystem,
        MountError,
    >(MountError::ProbeFailed)
    &&& r matches Ok(fs) ==> {
        &&& fs.members@.len() == paths.len()
        &&& forall|k: int|
            #![trigger fs.members@[k]]
            0 <= k < paths.len() ==> fs.members@[k].path@ == paths[k]@ && probes[k] == Some(
                fs.members@[k].superblock,
            ) && fs.members@[k].source == k
    }
}

/// The filesystem `id` among the scanned devices; `NotFound` where no
/// scanned device is a member.
pub fn resolve_by_identity(id: u128, scan: &Vec<ScannedDevice>) -> (r: Result<
    ResolvedFilesystem,
    MountError,
>)
    ensures
        resolved_by_identity(id, scan@, r),
{
    let members = select_members(scan, id);
    if members.len() == 0 {
        Err(MountError::NotFound)
    } else {
        Ok(ResolvedFilesystem { members })
    }
}

/// The UUID of the filesystem on a single device path, from the superblock
/// read directly from that path; `ProbeFailed` where it could not be read.
pub fn identity_of_device(probe: Option<Superblock>) -> (r: Result<u128, MountError>)
    ensures
        probe matches Some(sb) ==> r == Ok::<u128, MountError>(sb.uuid),
        probe is None ==> r == Err::<u128, MountError>(MountError::ProbeFailed),
{
    match probe {
        Some(sb) => Ok(sb.uuid),
        None => Err(MountError::ProbeFailed),
    }
}

/// The next step in reading the superblocks of an explicit list of devices.
#[derive(Clone, Copy, Debug, PartialEq, Eq, Structural)]
pub enum ProbeStep {
    /// Read the device at this position of the list.
    Read(usize),
    /// Stop reading: resolution fails with this error.
    Stop(MountError),
    /// Every listed device has been read.
    Complete,
}

/// Decides the next read of an explicit list of `n` devices, read in list
/// order, from the results so far: the first device that cannot be read
/// stops the reading at once.
pub fn explicit_probe_step(n: usize, probes: &Vec<Option<Superblock>>) -> (r: ProbeStep)
    requires
        probes@.len() <= n,
        forall|i: int| 0 <= i < probes@.len() - 1 ==> (#[trigger] probes@[i]) is Some,
    ensures
        n == 0 ==> r == ProbeStep::Stop(MountError::NotFound),
        n > 0 && probes@.len() > 0 && probes@.last() is None ==> r == ProbeStep::Stop(
            MountError::ProbeFailed,
        ),
        n > 0 && (probes@.len() == 0 || probes@.last() is Some) && probes@.len() < n ==> r
            == ProbeStep::Read(probes@.len() as usize),
        n > 0 && probes@.len() == n && probes@.last() is Some ==> r == ProbeStep::Complete,
{
    let k = probes.len();
    if n == 0 {
        ProbeStep::Stop(MountError::NotFound)
    } else if k > 0 && probes[k - 1].is_none() {
        ProbeStep::Stop(MountError::ProbeFailed)
    } else if k < n {
        ProbeStep::Read(k)
    } else {
        ProbeStep::Complete
    }
}

/// Resolves an explicit device list from the superblocks read from each listed
/// device, in list order. Every device must have been read: one that could not
/// be fails the whole list.
pub fn resolve_explicit(paths: &Vec<String>, probes: &Vec<Option<Superblock>>) -> (r: Result<
    ResolvedFilesystem,
    MountError,
>)
    requires
        paths@.len() == probes@.len(),
    ensures
        resolved_explicitly(paths@, probes@, r),
{
    if paths.len() == 0 {
        return Err(MountError::NotFound);
    }
    let mut members: Vec<DeviceRecord> = Vec::new();
    let mut i: usize = 0;
    while i < paths.len()
        invariant
            paths@.len() == probes@.len(),
            i <= paths@.len(),
            members@.len() == i,
            forall|j: int| 0 <= j < i ==> probes@[j] is Some,
            forall|k: int|
                #![trigger members@[k]]
                0 <= k < i ==> members@[k].path@ == paths@[k]@ && probes@[k] == Some(
                    members@[k].superblock,
                ) && members@[k].source == k,
        decreases paths@.len() - i,
    {
        match probes[i] {
            Some(sb) => {
                members.push(DeviceRecord { path: paths[i].clone(), superblock: sb, source: i });
            },
            None => {
                return Err(MountError::ProbeFailed);
            },
        }
        i += 1;
    }
    Ok(ResolvedFilesystem { members })
}

/// A colon-joined device list (without a UUID prefix) is resolved without a
/// scan; once every listed device has been read it resolves, to exactly one
/// member per listed path, with the listed paths in list order; joined again,
/// they give back the list.
pub proof fn lemma_explicit_list_kept(
    dev: Seq<char>,
    plan: ResolvePlan,
    probes: Seq<Option<Superblock>>,
    r: Result<ResolvedFilesystem, MountError>,
)
    requires
        !has_prefix(dev, "UUID="@),
        !has_prefix(dev, "OLD_BLKID_UUID="@),
        dev.contains(':'),
        plan_matches(dev, Ok::<ResolvePlan, MountError>(plan)),
        plan matches ResolvePlan::Explicit(ps) ==> resolved_explicitly(ps@, probes, r),
    ensures
        plan is Explicit,
        (forall|i: int| 0 <= i < probes.len() ==> (#[trigger] probes[i]) is Some) ==> r is Ok,
        r matches Ok(fs) ==> {
            &&& fs.members@.len() == split_on(dev, ':').len()
            &&& forall|k: int|
                #![trigger fs.members@[k]]
                0 <= k < fs.members@.len() ==> fs.members@[k].path@ == split_on(dev, ':')[k]
            &&& join_on(member_path_seq(fs.members@), ':') == dev
        },
{
    lemma_split_pieces(dev, ':');
    if let ResolvePlan::Explicit(ps) = plan {
        if let Ok(fs) = r {
            assert forall|k: int| #![trigger fs.members@[k]] 0 <= k < fs.members@.len() implies fs.members@[k].path@
                == split_on(dev, ':')[k] by {
                assert(fs.members@[k].path@ == ps@[k]@);
            }
            lemma_join_split(dev, ':');
            assert(member_path_seq(fs.members@) =~= split_on(dev, ':'));
        }
    }
}

/// The member paths of a filesystem.
pub open spec fn member_path_seq(members: Seq<DeviceRecord>) -> Seq<Seq<char>> {
    members.map_values(|d: DeviceRecord| d.path@)
}

impl ResolvedFilesystem {
    /// The member paths joined with colons, the form the mount call takes.
    pub fn devices_str(&self) -> (r: String)
        ensures
            r@ == join_on(member_path_seq(self.members@), ':'),
    {
        let mut out = String::new();
        let mut i: usize = 0;
        proof {
            reveal_strlit(":");
        }
        while i < self.members.len()
            invariant
                i <= self.members@.len(),
                out@ == join_on(member_path_seq(self.members@.take(i as int)), ':'),
            decreases self.members@.len() - i,
        {
            let ghost ts = member_path_seq(self.members@.take(i as int));
            let ghost ts1 = member_path_seq(self.members@.take(i + 1));
            assert(ts1.drop_last() =~= ts);
            assert(ts1.last() == self.members@[i as int].path@);
            let ghost prev = out@;
            if i > 0 {
                out.append(":");
                proof {
                    reveal_strlit(":");
                }
                assert(out@ =~= prev.push(':'));
            }
            let p = self.members[i].path.as_str();
            out.append(p);
            assert(out@ =~= join_on(ts1, ':'));
            i += 1;
        }
        assert(self.members@.take(self.members@.len() as int) =~= self.members@);
        out
    }

    /// The superblock the unlock decision reads: that of the first member.
    pub fn representative(&self) -> (r: Superblock)
        requires
            self.members@.len() > 0,
        ensures
            r == self.members@[0].superblock,
    {
        self.members[0].superblock
    }
}

} // verus!
