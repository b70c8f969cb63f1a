//! What the sync engine decides around the embedded Syncthing process: the
//! peer list shown to the user, the device set the library folder is shared
//! with, and the REST API key.

use vstd::prelude::*;

use crate::control::{DeviceInfo, FolderSpec, OptionsPatch};
use crate::idmap::IdMap;
use crate::text::{push_char, str_eq};

verus! {

/// Fixed folder id of the synced library, stable across devices.
pub const LIBRARY_FOLDER_ID: &'static str = "flts-library";

/// Label of the synced library folder.
pub const LIBRARY_FOLDER_LABEL: &'static str = "FLTS Library";

/// How long to wait for the engine's REST API, in seconds.
pub const REST_READY_TIMEOUT_SECS: u64 = 30;

/// Pause between two readiness probes, in milliseconds.
pub const REST_POLL_INTERVAL_MS: u64 = 150;

/// A paired peer as shown in the device-management UI.
#[derive(Debug, Clone, PartialEq, Eq)]
pub struct PeerInfo {
    pub device_id: String,
    pub name: String,
    pub connected: bool,
}

/// Inputs for bringing up the engine.
pub struct EngineConfig {
    /// Engine home: device identity, configuration and index database; lives
    /// outside the synced folder.
    pub home: String,
    /// The folder to sync: the app-managed library root.
    pub library_root: String,
    /// Discovery, relay and listen options applied once the engine is up.
    pub options: OptionsPatch,
    /// Bind loopback only and skip boot-time discovery.
    pub loopback_only: bool,
}

/// The peers among `devices` (every device but `me`), in order, each with
/// its connection flag (`false` when the engine reports none).
pub open spec fn peers_of(devices: Seq<DeviceInfo>, connections: Map<Seq<char>, bool>, me: Seq<char>) -> Seq<(Seq<char>, Seq<char>, bool)>
    decreases devices.len(),
{
    if devices.len() == 0 {
        Seq::empty()
    } else {
        let rest = peers_of(devices.drop_last(), connections, me);
        let d = devices.last();
        if d.device_id@ != me {
            rest.push((d.device_id@, d.name@, connections.contains_key(d.device_id@) && connections[d.device_id@]))
        } else {
            rest
        }
    }
}

/// Law: the peer list shows every configured device but this one, in order,
/// each under its own name and with exactly the connection flag the engine
/// reports for it (`false` when it reports none), so a device reported as
/// disconnected is never shown as connected.
pub proof fn law_peers_report_engine_state(devices: Seq<DeviceInfo>, connections: Map<Seq<char>, bool>, me: Seq<char>)
    ensures
        forall|i: int| 0 <= i < peers_of(devices, connections, me).len() ==> {
            let p = #[trigger] peers_of(devices, connections, me)[i];
            &&& p.0 != me
            &&& p.2 == (connections.contains_key(p.0) && connections[p.0])
            &&& (connections.contains_key(p.0) && !connections[p.0] ==> !p.2)
            &&& exists|j: int| 0 <= j < devices.len() && (#[trigger] devices[j]).device_id@ == p.0 && devices[j].name@ == p.1
        },
        forall|j: int| 0 <= j < devices.len() && (#[trigger] devices[j]).device_id@ != me ==> exists|i: int|
            0 <= i < peers_of(devices, connections, me).len()
                && #[trigger] peers_of(devices, connections, me)[i] == (
                devices[j].device_id@,
                devices[j].name@,
                connections.contains_key(devices[j].device_id@) && connections[devices[j].device_id@],
            ),
    decreases devices.len(),
{
    if devices.len() > 0 {
        let d = devices.drop_last();
        law_peers_report_engine_state(d, connections, me);
        let prev = peers_of(d, connections, me);
        let cur = peers_of(devices, connections, me);
        let n = devices.len() - 1;
        assert forall|i: int| 0 <= i < cur.len() implies {
            let p = #[trigger] cur[i];
            &&& p.0 != me
            &&& p.2 == (connections.contains_key(p.0) && connections[p.0])
            &&& (connections.contains_key(p.0) && !connections[p.0] ==> !p.2)
            &&& exists|j: int| 0 <= j < devices.len() && (#[trigger] devices[j]).device_id@ == p.0 && devices[j].name@ == p.1
        } by {
            if i < prev.len() {
                assert(cur[i] == prev[i]);
                let j = choose|j: int| 0 <= j < d.len() && (#[trigger] d[j]).device_id@ == prev[i].0 && d[j].name@ == prev[i].1;
                assert(devices[j] == d[j]);
            } else {
                assert(devices[n] == devices.last());
            }
        }
        assert forall|j: int| 0 <= j < devices.len() && (#[trigger] devices[j]).device_id@ != me implies exists|i: int|
            0 <= i < cur.len()
                && #[trigger] cur[i] == (
                devices[j].device_id@,
                devices[j].name@,
                connections.contains_key(devices[j].device_id@) && connections[devices[j].device_id@],
            ) by {
            if j < n {
                assert(d[j] == devices[j]);
                let i = choose|i: int| 0 <= i < prev.len() && #[trigger] prev[i] == (
                    d[j].device_id@,
                    d[j].name@,
                    connections.contains_key(d[j].device_id@) && connections[d[j].device_id@],
                );
                assert(cur[i] == prev[i]);
            } else {
                assert(cur[cur.len() - 1] == (
                    devices[j].device_id@,
                    devices[j].name@,
                    connections.contains_key(devices[j].device_id@) && connections[devices[j].device_id@],
                ));
            }
        }
    }
}

/// The views of a peer list.
pub open spec fn peer_views(ps: Seq<PeerInfo>) -> Seq<(Seq<char>, Seq<char>, bool)> {
    ps.map_values(|p: PeerInfo| (p.device_id@, p.name@, p.connected))
}

/// Peers (every configured device but this one) with their live connection
/// state.
pub fn list_peers(devices: &Vec<DeviceInfo>, connections: &IdMap<bool>, my_id: &str) -> (r: Vec<PeerInfo>)
    requires
        connections.wf(),
    ensures
        peer_views(r@) == peers_of(devices@, connections@, my_id@),
{
    let mut out: Vec<PeerInfo> = Vec::new();
    let mut i: usize = 0;
    while i < devices.len()
        invariant
            connections.wf(),
            i <= devices.len(),
            peer_views(out@) == peers_of(devices@.take(i as int), connections@, my_id@),
        decreases devices.len() - i,
    {
        let d = &devices[i];
        proof {
            assert(devices@.take(i + 1).drop_last() =~= devices@.take(i as int));
            assert(devices@.take(i + 1).last() == devices@[i as int]);
        }
        if !str_eq(d.device_id.as_str(), my_id) {
            let connected = match connections.get(d.device_id.as_str()) {
                Some(c) => *c,
                None => false,
            };
            out.push(PeerInfo { device_id: d.device_id.clone(), name: d.name.clone(), connected });
            assert(peer_views(out@) =~= peer_views(out@.drop_last()).push((d.device_id@, d.name@, connected)));
        }
        proof {
            assert(peer_views(out@) =~= peers_of(devices@.take(i + 1), connections@, my_id@));
        }
        i = i + 1;
    }
    assert(devices@.take(devices@.len() as int) =~= devices@);
    out
}

/// The ids of a device list, in order.
pub open spec fn device_ids_of(devices: Seq<DeviceInfo>) -> Seq<Seq<char>> {
    devices.map_values(|d: DeviceInfo| d.device_id@)
}

/// The devices the library folder is shared with: every configured device,
/// plus this one when it is not configured.
pub open spec fn share_set(devices: Seq<DeviceInfo>, me: Seq<char>) -> Seq<Seq<char>> {
    if device_ids_of(devices).contains(me) {
        device_ids_of(devices)
    } else {
        device_ids_of(devices).push(me)
    }
}

/// The folder spec that shares the library with this device and every
/// configured peer (the full device list, so no persisted peer is dropped).
pub fn library_folder_spec(devices: &Vec<DeviceInfo>, my_id: &str, library_root: &str) -> (r: FolderSpec)
    ensures
        r.id@ == LIBRARY_FOLDER_ID@,
        r.label@ == LIBRARY_FOLDER_LABEL@,
        r.path@ == library_root@,
        r.device_ids@.map_values(|s: String| s@) == share_set(devices@, my_id@),
{
    let mut ids: Vec<String> = Vec::new();
    let mut seen_self = false;
    let mut i: usize = 0;
    while i < devices.len()
        invariant
            i <= devices.len(),
            ids@.map_values(|s: String| s@) == device_ids_of(devices@.take(i as int)),
            seen_self == device_ids_of(devices@.take(i as int)).contains(my_id@),
        decreases devices.len() - i,
    {
        let ghost prev = device_ids_of(devices@.take(i as int));
        if str_eq(devices[i].device_id.as_str(), my_id) {
            seen_self = true;
        }
        ids.push(devices[i].device_id.clone());
        proof {
            let next = device_ids_of(devices@.take(i + 1));
            assert(next =~= prev.push(devices@[i as int].device_id@));
            assert(ids@.map_values(|s: String| s@) =~= next);
            assert(next.contains(my_id@) <==> (prev.contains(my_id@) || devices@[i as int].device_id@ == my_id@)) by {
                if next.contains(my_id@) {
                    let k = choose|k: int| 0 <= k < next.len() && next[k] == my_id@;
                    if k < prev.len() {
                        assert(prev[k] == my_id@);
                    }
                }
                if prev.contains(my_id@) {
                    let k = choose|k: int| 0 <= k < prev.len() && prev[k] == my_id@;
                    assert(next[k] == my_id@);
                }
                if devices@[i as int].device_id@ == my_id@ {
                    assert(next[i as int] == my_id@);
                }
            }
        }
        i = i + 1;
    }
    assert(devices@.take(devices@.len() as int) =~= devices@);
    if !seen_self {
        ids.push(String::from_str(my_id));
        assert(ids@.map_values(|s: String| s@) =~= device_ids_of(devices@).push(my_id@));
    }
    FolderSpec {
        id: String::from_str(LIBRARY_FOLDER_ID),
        label: String::from_str(LIBRARY_FOLDER_LABEL),
        path: String::from_str(library_root),
        device_ids: ids,
    }
}

/// The lower-case hexadecimal digit of `n < 16`.
pub open spec fn hex_lower_digit(n: u8) -> char {
    seq!['0', '1', '2', '3', '4', '5', '6', '7', '8', '9', 'a', 'b', 'c', 'd', 'e', 'f'][n as int]
}

/// Two lower-case hexadecimal digits per byte, most significant first.
pub open spec fn hex_lower(bytes: Seq<u8>) -> Seq<char>
    decreases bytes.len(),
{
    if bytes.len() == 0 {
        Seq::empty()
    } else {
        hex_lower(bytes.drop_last()) + seq![hex_lower_digit(bytes.last() / 16), hex_lower_digit(bytes.last() % 16)]
    }
}

fn hex_lower_char(n: u8) -> (c: char)
    requires
        n < 16,
    ensures
        c == hex_lower_digit(n),
{
    match n {
        0 => '0',
        1 => '1',
        2 => '2',
        3 => '3',
        4 => '4',
        5 => '5',
        6 => '6',
        7 => '7',
        8 => '8',
        9 => '9',
        10 => 'a',
        11 => 'b',
        12 => 'c',
        13 => 'd',
        14 => 'e',
        _ => 'f',
    }
}

/// The REST API key made of `bytes`: each byte as two lower-case hex digits.
pub fn api_key_from_bytes(bytes: &[u8]) -> (r: String)
    ensures
        r@ == hex_lower(bytes@),
        r@.len() == 2 * bytes@.len(),
{
    let mut out = String::new();
    let mut i: usize = 0;
    while i < bytes.len()
        invariant
            i <= bytes@.len(),
            out@ == hex_lower(bytes@.take(i as int)),
            out@.len() == 2 * i,
        decreases bytes@.len() - i,
    {
        let b = bytes[i];
        push_char(&mut out, hex_lower_char(b / 16));
        push_char(&mut out, hex_lower_char(b % 16));
        proof {
            assert(bytes@.take(i + 1).drop_last() =~= bytes@.take(i as int));
            assert(bytes@.take(i + 1).last() == b);
            assert(out@ =~= hex_lower(bytes@.take(i + 1)));
        }
        i = i + 1;
    }
    assert(bytes@.take(bytes@.len() as int) =~= bytes@);
    out
}

/// `rand::fill`: overwrites `dest` with bytes from the thread-local random
/// generator. Nothing is promised of the bytes but their number.
#[verifier::external_body]
fn fill_random(dest: &mut Vec<u8>)
    ensures
        final(dest)@.len() == old(dest)@.len(),
{
    rand::fill(dest.as_mut_slice());
}

/// A fresh 32-character REST API key: 16 random bytes in lower-case hex.
pub fn generate_api_key() -> (r: String)
    ensures
        r@.len() == 32,
        exists|bytes: Seq<u8>| bytes.len() == 16 && r@ == #[trigger] hex_lower(bytes),
{
    let mut bytes: Vec<u8> = vec![0u8; 16];
    fill_random(&mut bytes);
    api_key_from_bytes(bytes.as_slice())
}

} // verus!
