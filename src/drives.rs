//! The drive catalog: device records, their classification as removable or
//! system-critical, and the filter that keeps every unsafe device out of the list.
use vstd::prelude::*;
use vstd::string::{StrSliceExecFns, StringExecFns};
use crate::engine::FlashError;
use crate::text::{decimal, decimal_of, is_prefix, starts_with, str_eq};

verus! {

/// One storage device as the catalog reports it.
#[derive(Debug, Clone)]
pub struct DriveInfo {
    pub device: String,
    pub name: String,
    pub size: u64,
    pub size_human: String,
    pub removable: bool,
    pub is_system: bool,
}

/// What `bytesize` prints for a byte count.
pub uninterp spec fn human_size_of(bytes: u64) -> Seq<char>;

/// Relies on `bytesize::ByteSize`'s `Display` (decimal units): the text depends
/// on the count alone, and a count under 1000 is printed in bytes.
#[verifier::external_body]
pub(crate) fn human_size(bytes: u64) -> (r: String)
    ensures
        r@ == human_size_of(bytes),
        bytes < 1000 ==> r@ == decimal_of(bytes as nat) + " B"@,
{
    bytesize::ByteSize(bytes).to_string()
}

/// Low-index devices that always back the running system, whatever a listing tool says.
pub open spec fn is_denylisted(device: Seq<char>) -> bool {
    device == "/dev/disk0"@ || device == "/dev/disk1"@
}

/// A device that may be written: removable, not a system disk, not on the denylist.
pub open spec fn drive_is_safe(d: DriveInfo) -> bool {
    d.removable && !d.is_system && !is_denylisted(d.device@)
}

/// The fields of a `DriveInfo`, as plain values.
pub open spec fn drive_view(d: DriveInfo) -> (Seq<char>, Seq<char>, u64, Seq<char>, bool, bool) {
    (d.device@, d.name@, d.size, d.size_human@, d.removable, d.is_system)
}

pub open spec fn drive_views(v: Seq<DriveInfo>) -> Seq<(Seq<char>, Seq<char>, u64, Seq<char>, bool, bool)> {
    v.map_values(|d: DriveInfo| drive_view(d))
}

pub fn is_denylisted_device(device: &str) -> (r: bool)
    ensures
        r == is_denylisted(device@),
{
    str_eq(device, "/dev/disk0") || str_eq(device, "/dev/disk1")
}

/// Re-derives the safety of a drive from its own fields and the denylist.
pub fn is_safe_target(d: &DriveInfo) -> (r: bool)
    ensures
        r == drive_is_safe(*d),
{
    d.removable && !d.is_system && !is_denylisted_device(d.device.as_str())
}

/// Why the catalog could not list devices. Finding none is not an error.
#[derive(Clone, Debug, PartialEq, Eq)]
pub enum EnumerationError {
    /// The system's listing tool could not be started.
    ToolFailed(String),
    /// The tool's output as a whole could not be read.
    UnreadableOutput,
}

/// One block device as `lsblk` describes it.
#[derive(Clone, Debug)]
pub struct LsblkDevice {
    pub name: String,
    pub size: u64,
    /// The `rm` column: the system reports removable media.
    pub removable: bool,
    pub dev_type: String,
    pub transport: String,
    pub label: Option<String>,
    /// Mount points of the device's partitions.
    pub mountpoints: Vec<String>,
}

/// A mount point that only a disk of the running system carries.
pub open spec fn is_system_mount(m: Seq<char>) -> bool {
    m == "/"@ || m == "/boot"@ || m == "/home"@ || is_prefix("/boot/"@, m)
}

pub open spec fn lsblk_is_system(d: LsblkDevice) -> bool {
    exists|i: int| 0 <= i < d.mountpoints@.len() && is_system_mount(#[trigger] d.mountpoints@[i]@)
}

pub open spec fn lsblk_removable(d: LsblkDevice) -> bool {
    d.removable || d.transport@ == "usb"@
}

pub open spec fn lsblk_path(d: LsblkDevice) -> Seq<char> {
    "/dev/"@ + d.name@
}

/// A whole disk that may be offered: removable or on USB, and not a system disk.
pub open spec fn lsblk_accepts(d: LsblkDevice) -> bool {
    d.dev_type@ == "disk"@ && lsblk_removable(d) && !lsblk_is_system(d) && !is_denylisted(lsblk_path(d))
}

/// The catalog entry of an accepted `lsblk` device.
pub open spec fn lsblk_entry(d: LsblkDevice) -> (Seq<char>, Seq<char>, u64, Seq<char>, bool, bool) {
    (lsblk_path(d), match d.label {
        Some(l) => l@,
        None => d.name@,
    }, d.size, human_size_of(d.size), true, false)
}

/// The entries of the accepted devices, in order.
pub open spec fn lsblk_offer(devs: Seq<LsblkDevice>) -> Seq<(Seq<char>, Seq<char>, u64, Seq<char>, bool, bool)>
    decreases devs.len(),
{
    if devs.len() == 0 {
        Seq::empty()
    } else if lsblk_accepts(devs.last()) {
        lsblk_offer(devs.drop_last()).push(lsblk_entry(devs.last()))
    } else {
        lsblk_offer(devs.drop_last())
    }
}

pub fn is_system_mount_point(m: &str) -> (r: bool)
    ensures
        r == is_system_mount(m@),
{
    str_eq(m, "/") || str_eq(m, "/boot") || str_eq(m, "/home") || starts_with(m, "/boot/")
}

/// The catalog's entry for an `lsblk` device, or `None` where it must not be offered.
pub fn drive_from_lsblk(d: &LsblkDevice) -> (r: Option<DriveInfo>)
    ensures
        r is Some <==> lsblk_accepts(*d),
        r is Some ==> drive_view(r->Some_0) == lsblk_entry(*d),
        r is Some ==> {
            let x = r->Some_0;
            &&& x.device@ == lsblk_path(*d)
            &&& x.name@ == (match d.label {
                Some(l) => l@,
                None => d.name@,
            })
            &&& x.size == d.size
            &&& x.size_human@ == human_size_of(d.size)
            &&& x.removable
            &&& !x.is_system
        },
{
    if !str_eq(d.dev_type.as_str(), "disk") {
        return None;
    }
    let removable = d.removable || str_eq(d.transport.as_str(), "usb");
    let mut is_system = false;
    let mut i: usize = 0;
    while i < d.mountpoints.len()
        invariant
            i <= d.mountpoints@.len(),
            is_system <==> exists|j: int| 0 <= j < i && is_system_mount(#[trigger] d.mountpoints@[j]@),
        decreases d.mountpoints@.len() - i,
    {
        if is_system_mount_point(d.mountpoints[i].as_str()) {
            is_system = true;
        }
        i = i + 1;
    }
    let device = "/dev/".to_string().concat(d.name.as_str());
    if !removable || is_system || is_denylisted_device(device.as_str()) {
        return None;
    }
    let name = match &d.label {
        Some(l) => l.clone(),
        None => d.name.clone(),
    };
    Some(DriveInfo { device, name, size: d.size, size_human: human_size(d.size), removable: true, is_system: false })
}

/// Every entry of a list that the catalog may offer is safe to write.
pub open spec fn all_offerable(v: Seq<DriveInfo>) -> bool {
    forall|i: int| 0 <= i < v.len() ==> drive_is_safe(#[trigger] v[i]) && v[i].removable && !v[i].is_system
}

/// The removable drives among the devices that `lsblk -J -b -o NAME,SIZE,RM,TYPE,MOUNTPOINT,LABEL,TRAN`
/// reports: the entries of the accepted ones, in order, each safe to write.
pub fn usb_drives_from_lsblk(devs: &Vec<LsblkDevice>) -> (r: Vec<DriveInfo>)
    ensures
        drive_views(r@) == lsblk_offer(devs@),
        all_offerable(r@),
{
    let mut drives: Vec<DriveInfo> = Vec::new();
    let mut i: usize = 0;
    while i < devs.len()
        invariant
            i <= devs@.len(),
            all_offerable(drives@),
            drive_views(drives@) == lsblk_offer(devs@.take(i as int)),
        decreases devs@.len() - i,
    {
        let ghost cur = devs@.take(i + 1);
        assert(cur.drop_last() == devs@.take(i as int));
        assert(cur.last() == devs@[i as int]);
        if let Some(drive) = drive_from_lsblk(&devs[i]) {
            let ghost before = drives@;
            drives.push(drive);
            assert(drive_views(drives@) =~= drive_views(before).push(drive_view(drive)));
        }
        i = i + 1;
    }
    assert(devs@.take(devs@.len() as int) == devs@);
    drives
}

/// One USB disk as PowerShell's `Get-Disk` describes it.
#[derive(Clone, Debug)]
pub struct WindowsDisk {
    pub number: u64,
    pub friendly_name: Option<String>,
    pub size: u64,
    pub is_system: bool,
}

pub open spec fn windows_path(number: u64) -> Seq<char> {
    "\\\\.\\PhysicalDrive"@ + decimal_of(number as nat)
}

pub open spec fn windows_accepts(d: WindowsDisk) -> bool {
    !d.is_system && !is_denylisted(windows_path(d.number))
}

/// The catalog entry of an accepted USB disk.
pub open spec fn windows_entry(d: WindowsDisk) -> (Seq<char>, Seq<char>, u64, Seq<char>, bool, bool) {
    (windows_path(d.number), match d.friendly_name {
        Some(n) => n@,
        None => "USB Drive"@,
    }, d.size, human_size_of(d.size), true, false)
}

/// The entries of the accepted disks, in order.
pub open spec fn windows_offer(disks: Seq<WindowsDisk>) -> Seq<(Seq<char>, Seq<char>, u64, Seq<char>, bool, bool)>
    decreases disks.len(),
{
    if disks.len() == 0 {
        Seq::empty()
    } else if windows_accepts(disks.last()) {
        windows_offer(disks.drop_last()).push(windows_entry(disks.last()))
    } else {
        windows_offer(disks.drop_last())
    }
}

/// The catalog's entry for a USB disk, or `None` for a system disk.
pub fn drive_from_windows(d: &WindowsDisk) -> (r: Option<DriveInfo>)
    ensures
        r is Some <==> windows_accepts(*d),
        r is Some ==> drive_view(r->Some_0) == windows_entry(*d),
        r is Some ==> {
            let x = r->Some_0;
            &&& x.device@ == windows_path(d.number)
            &&& x.name@ == (match d.friendly_name {
                Some(n) => n@,
                None => "USB Drive"@,
            })
            &&& x.size == d.size
            &&& x.size_human@ == human_size_of(d.size)
            &&& x.removable
            &&& !x.is_system
        },
{
    let number = decimal(d.number);
    let device = "\\\\.\\PhysicalDrive".to_string().concat(number.as_str());
    if d.is_system || is_denylisted_device(device.as_str()) {
        return None;
    }
    let name = match &d.friendly_name {
        Some(n) => n.clone(),
        None => "USB Drive".to_string(),
    };
    Some(DriveInfo { device, name, size: d.size, size_human: human_size(d.size), removable: true, is_system: false })
}

/// The USB drives among the disks that PowerShell's `Get-Disk` reports: the
/// entries of the accepted ones, in order, each safe to write.
pub fn usb_drives_from_powershell(disks: &Vec<WindowsDisk>) -> (r: Vec<DriveInfo>)
    ensures
        drive_views(r@) == windows_offer(disks@),
        all_offerable(r@),
{
    let mut drives: Vec<DriveInfo> = Vec::new();
    let mut i: usize = 0;
    while i < disks.len()
        invariant
            i <= disks@.len(),
            all_offerable(drives@),
            drive_views(drives@) == windows_offer(disks@.take(i as int)),
        decreases disks@.len() - i,
    {
        let ghost cur = disks@.take(i + 1);
        assert(cur.drop_last() == disks@.take(i as int));
        assert(cur.last() == disks@[i as int]);
        if let Some(drive) = drive_from_windows(&disks[i]) {
            let ghost before = drives@;
            drives.push(drive);
            assert(drive_views(drives@) =~= drive_views(before).push(drive_view(drive)));
        }
        i = i + 1;
    }
    assert(disks@.take(disks@.len() as int) == disks@);
    drives
}

/// `drives` lists an entry for `device`.
pub open spec fn lists(drives: Seq<DriveInfo>, device: Seq<char>) -> bool {
    exists|i: int| 0 <= i < drives.len() && (#[trigger] drives[i]).device@ == device
}

/// `drives` lists a safe entry for `device`.
pub open spec fn lists_safe(drives: Seq<DriveInfo>, device: Seq<char>) -> bool {
    exists|i: int| 0 <= i < drives.len() && (#[trigger] drives[i]).device@ == device && drive_is_safe(drives[i])
}

/// Re-checks a chosen device against a fresh listing: the entry returned is one
/// of the listed ones, for that device, and safe by its own fields.
pub fn find_target(drives: &Vec<DriveInfo>, device: &str) -> (r: Result<DriveInfo, FlashError>)
    ensures
        r is Ok ==> exists|i: int|
            0 <= i < drives@.len() && r->Ok_0 == #[trigger] drives@[i] && drives@[i].device@ == device@
                && drive_is_safe(drives@[i]),
        r is Ok <==> lists_safe(drives@, device@),
        r == Err::<DriveInfo, FlashError>(FlashError::DriveNotFound) <==> !lists(drives@, device@),
        r == Err::<DriveInfo, FlashError>(FlashError::SafetyViolation) <==> lists(drives@, device@)
            && !lists_safe(drives@, device@),
{
    let mut listed = false;
    let mut i: usize = 0;
    while i < drives.len()
        invariant
            i <= drives@.len(),
            listed <==> exists|j: int| 0 <= j < i && (#[trigger] drives@[j]).device@ == device@,
            forall|j: int| 0 <= j < i && (#[trigger] drives@[j]).device@ == device@ ==> !drive_is_safe(drives@[j]),
        decreases drives@.len() - i,
    {
        if str_eq(drives[i].device.as_str(), device) {
            listed = true;
            if is_safe_target(&drives[i]) {
                let d = &drives[i];
                let found = DriveInfo {
                    device: d.device.clone(),
                    name: d.name.clone(),
                    size: d.size,
                    size_human: d.size_human.clone(),
                    removable: d.removable,
                    is_system: d.is_system,
                };
                assert(found == drives@[i as int]);
                return Ok(found);
            }
        }
        i = i + 1;
    }
    if listed {
        Err(FlashError::SafetyViolation)
    } else {
        Err(FlashError::DriveNotFound)
    }
}

/// The unbuffered form of a macOS disk path: `/dev/diskN` becomes `/dev/rdiskN`;
/// any other path is kept.
pub fn raw_device_path(device: &str) -> (r: String)
    ensures
        is_prefix("/dev/disk"@, device@) ==> r@ == "/dev/rdisk"@ + device@.subrange(9, device@.len() as int),
        !is_prefix("/dev/disk"@, device@) ==> r@ == device@,
{
    if starts_with(device, "/dev/disk") {
        proof { reveal_strlit("/dev/disk"); }
        let rest = device.substring_char(9, device.unicode_len());
        "/dev/rdisk".to_string().concat(rest)
    } else {
        device.to_string()
    }
}

} // verus!
