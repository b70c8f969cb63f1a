//! The data of the Syncthing control surface: identities, device and folder
//! entries, the options patch, and the bookkeeping an in-memory engine keeps.

use vstd::prelude::*;

use crate::catalog::trim_trailing_slashes;
use crate::text::{push_char, str_eq};

verus! {

/// Timeout of one REST request, in seconds.
pub const HTTP_TIMEOUT_SECS: u64 = 30;

/// Attempts made for one REST request (connection failures only).
pub const HTTP_RETRY_ATTEMPTS: u32 = 3;

/// This-device identity reported by the engine's system status.
#[derive(Debug, Clone, PartialEq, Eq)]
pub struct SystemStatus {
    pub my_id: String,
}

/// A device entry as carried in the engine's configuration.
#[derive(Debug, Clone, PartialEq, Eq)]
pub struct DeviceInfo {
    pub device_id: String,
    pub name: String,
}

/// An unknown device that tried to connect, surfaced for user approval.
#[derive(Debug, Clone, PartialEq, Eq)]
pub struct PendingDevice {
    pub device_id: String,
    pub name: String,
}

/// A folder to create or update; `device_ids` must include this device.
#[derive(Debug, Clone, PartialEq, Eq)]
pub struct FolderSpec {
    pub id: String,
    pub label: String,
    pub path: String,
    pub device_ids: Vec<String>,
}

/// The discovery and connectivity options the app toggles.
#[derive(Debug, Clone, PartialEq, Eq)]
pub struct OptionsPatch {
    pub global_discovery: bool,
    pub local_discovery: bool,
    pub relays: bool,
    pub nat: bool,
    /// Listen addresses; dynamic ports (`:0`) keep the embedded engine off
    /// the standard port. Empty leaves the engine default untouched.
    pub listen_addresses: Vec<String>,
}

impl Default for OptionsPatch {
    /// Reach peers anywhere, over TCP, on a dynamic port.
    fn default() -> (r: OptionsPatch)
        ensures
            r.global_discovery && r.local_discovery && r.relays && r.nat,
            r.listen_addresses@.len() == 1,
            r.listen_addresses@[0]@ == "tcp://0.0.0.0:0"@,
    {
        OptionsPatch {
            global_discovery: true,
            local_discovery: true,
            relays: true,
            nat: true,
            listen_addresses: vec![String::from_str("tcp://0.0.0.0:0")],
        }
    }
}

impl OptionsPatch {
    /// Loopback only, with every discovery channel off.
    pub fn loopback() -> (r: OptionsPatch)
        ensures
            !r.global_discovery && !r.local_discovery && !r.relays && !r.nat,
            r.listen_addresses@.len() == 1,
            r.listen_addresses@[0]@ == "tcp://127.0.0.1:0"@,
    {
        OptionsPatch {
            global_discovery: false,
            local_discovery: false,
            relays: false,
            nat: false,
            listen_addresses: vec![String::from_str("tcp://127.0.0.1:0")],
        }
    }
}

/// The REST origin a client talks to: `base_url` without trailing slashes.
pub fn rest_base_url(base_url: &str) -> (r: String)
    ensures
        r@ == trim_trailing_slashes(base_url@),
{
    let mut n = base_url.unicode_len();
    assert(base_url@.take(n as int) =~= base_url@);
    while n > 0 && base_url.get_char(n - 1) == '/'
        invariant
            n <= base_url@.len(),
            trim_trailing_slashes(base_url@) == trim_trailing_slashes(base_url@.take(n as int)),
        decreases n,
    {
        assert(base_url@.take(n as int).drop_last() =~= base_url@.take(n - 1));
        n = n - 1;
    }
    let mut out = String::new();
    let mut i: usize = 0;
    while i < n
        invariant
            n <= base_url@.len(),
            i <= n,
            out@ == base_url@.take(i as int),
        decreases n - i,
    {
        push_char(&mut out, base_url.get_char(i));
        i = i + 1;
        assert(out@ =~= base_url@.take(i as int));
    }
    out
}

/// The pause before retrying a request whose attempt `attempt` (counted
/// from 0) failed to connect, in milliseconds; `None` when no attempt is
/// left.
pub fn http_retry_delay_ms(attempt: u32) -> (r: Option<u64>)
    ensures
        attempt == 0 ==> r == Some(100u64),
        attempt == 1 ==> r == Some(300u64),
        attempt >= 2 ==> r is None,
{
    if attempt == 0 {
        Some(100)
    } else if attempt == 1 {
        Some(300)
    } else {
        None
    }
}

/// The (id, name) views of a device list.
pub open spec fn device_views(ds: Seq<DeviceInfo>) -> Seq<(Seq<char>, Seq<char>)> {
    ds.map_values(|d: DeviceInfo| (d.device_id@, d.name@))
}

/// Adds a device to a configured device list, or renames it in place when
/// its id is already listed.
pub fn upsert_device(devices: &mut Vec<DeviceInfo>, device_id: &str, name: &str)
    ensures
        (exists|i: int| 0 <= i < old(devices)@.len() && (#[trigger] old(devices)@[i]).device_id@ == device_id@) ==> {
            let i = choose|i: int| 0 <= i < old(devices)@.len() && (#[trigger] old(devices)@[i]).device_id@ == device_id@
                && forall|j: int| 0 <= j < i ==> old(devices)@[j].device_id@ != device_id@;
            device_views(final(devices)@) == device_views(old(devices)@).update(i, (device_id@, name@))
        },
        !(exists|i: int| 0 <= i < old(devices)@.len() && (#[trigger] old(devices)@[i]).device_id@ == device_id@)
            ==> device_views(final(devices)@) == device_views(old(devices)@).push((device_id@, name@)),
{
    let mut i: usize = 0;
    while i < devices.len()
        invariant
            devices@ == old(devices)@,
            i <= devices.len(),
            forall|j: int| 0 <= j < i ==> (#[trigger] devices@[j]).device_id@ != device_id@,
        decreases devices.len() - i,
    {
        if str_eq(devices[i].device_id.as_str(), device_id) {
            let entry = DeviceInfo { device_id: devices[i].device_id.clone(), name: String::from_str(name) };
            devices.set(i, entry);
            proof {
                let k = choose|k: int| 0 <= k < old(devices)@.len() && (#[trigger] old(devices)@[k]).device_id@ == device_id@
                    && forall|j: int| 0 <= j < k ==> old(devices)@[j].device_id@ != device_id@;
                if k < i {
                    assert(old(devices)@[k].device_id@ != device_id@);
                }
                if k > i {
                    assert(old(devices)@[i as int].device_id@ != device_id@);
                }
                assert(device_views(devices@) =~= device_views(old(devices)@).update(i as int, (device_id@, name@)));
            }
            return;
        }
        i = i + 1;
    }
    devices.push(DeviceInfo { device_id: String::from_str(device_id), name: String::from_str(name) });
    assert(device_views(devices@) =~= device_views(old(devices)@).push((device_id@, name@)));
}

/// The entries of `ds` whose id is not `id`, in order.
pub open spec fn without_device(ds: Seq<(Seq<char>, Seq<char>)>, id: Seq<char>) -> Seq<(Seq<char>, Seq<char>)>
    decreases ds.len(),
{
    if ds.len() == 0 {
        Seq::empty()
    } else {
        let rest = without_device(ds.drop_last(), id);
        if ds.last().0 != id {
            rest.push(ds.last())
        } else {
            rest
        }
    }
}

/// Drops every entry of a device list carrying `device_id`.
pub fn remove_device_entry(devices: &mut Vec<DeviceInfo>, device_id: &str)
    ensures
        device_views(final(devices)@) == without_device(device_views(old(devices)@), device_id@),
{
    let ghost orig = device_views(devices@);
    let mut kept: Vec<DeviceInfo> = Vec::new();
    let mut i: usize = 0;
    while i < devices.len()
        invariant
            orig == device_views(devices@),
            i <= devices.len(),
            device_views(kept@) == without_device(orig.take(i as int), device_id@),
        decreases devices.len() - i,
    {
        proof {
            assert(orig.take(i + 1).drop_last() =~= orig.take(i as int));
        }
        if !str_eq(devices[i].device_id.as_str(), device_id) {
            kept.push(DeviceInfo { device_id: devices[i].device_id.clone(), name: devices[i].name.clone() });
            proof {
                assert(device_views(kept@) =~= device_views(kept@.drop_last()).push(orig[i as int]));
            }
        }
        proof {
            assert(orig.take(i + 1).last() == orig[i as int]);
            assert(device_views(kept@) =~= without_device(orig.take(i + 1), device_id@));
        }
        i = i + 1;
    }
    assert(orig.take(devices.len() as int) =~= orig);
    *devices = kept;
}

/// The folders of `fs` whose id is not `id`, in order.
pub open spec fn without_folder(fs: Seq<FolderSpec>, id: Seq<char>) -> Seq<FolderSpec>
    decreases fs.len(),
{
    if fs.len() == 0 {
        Seq::empty()
    } else {
        let rest = without_folder(fs.drop_last(), id);
        if fs.last().id@ != id {
            rest.push(fs.last())
        } else {
            rest
        }
    }
}

/// Records `spec` as the configuration of its folder: any earlier entry with
/// the same id is dropped and `spec` is appended.
pub fn replace_folder(folders: &mut Vec<FolderSpec>, spec: FolderSpec)
    ensures
        final(folders)@ == without_folder(old(folders)@, spec.id@).push(spec),
{
    let ghost orig = folders@;
    let mut kept: Vec<FolderSpec> = Vec::new();
    let ghost mut i: int = 0;
    while folders.len() > 0
        invariant
            0 <= i <= orig.len(),
            i + folders@.len() == orig.len(),
            folders@ == orig.skip(i),
            kept@ == without_folder(orig.take(i), spec.id@),
        decreases folders@.len(),
    {
        proof {
            assert(orig.skip(i)[0] == orig[i]);
        }
        let f = folders.remove(0);
        proof {
            assert(orig.take(i + 1).drop_last() =~= orig.take(i));
            assert(orig.take(i + 1).last() == f);
        }
        if !str_eq(f.id.as_str(), spec.id.as_str()) {
            kept.push(f);
        }
        proof {
            assert(orig.skip(i + 1) =~= orig.skip(i).drop_first());
            i = i + 1;
        }
    }
    proof {
        assert(orig.take(i) =~= orig);
    }
    kept.push(spec);
    *folders = kept;
}

} // verus!
