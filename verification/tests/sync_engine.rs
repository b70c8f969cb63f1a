use library::control::{
    http_retry_delay_ms, remove_device_entry, replace_folder, rest_base_url, upsert_device, DeviceInfo,
    FolderSpec, OptionsPatch,
};
use library::engine::{api_key_from_bytes, generate_api_key, library_folder_spec, list_peers, LIBRARY_FOLDER_ID};
use library::idmap::IdMap;

fn dev(id: &str, name: &str) -> DeviceInfo {
    DeviceInfo { device_id: id.into(), name: name.into() }
}

#[test]
fn mock_records_devices_folders_and_options() {
    let mut devices = Vec::new();
    upsert_device(&mut devices, "PEER-ONE", "Laptop");
    upsert_device(&mut devices, "PEER-ONE", "Laptop Renamed");
    upsert_device(&mut devices, "PEER-TWO", "Phone");
    assert_eq!(devices.len(), 2, "duplicate add updates in place");
    assert_eq!(devices[0].name, "Laptop Renamed");
    remove_device_entry(&mut devices, "PEER-ONE");
    assert_eq!(devices.len(), 1);

    let mut folders = Vec::new();
    replace_folder(
        &mut folders,
        FolderSpec {
            id: "flts-library".into(),
            label: "FLTS".into(),
            path: "/tmp/lib".into(),
            device_ids: vec!["THIS-DEVICE".into(), "PEER-TWO".into()],
        },
    );
    assert_eq!(folders.len(), 1);
    assert_eq!(folders[0].device_ids.len(), 2);
    replace_folder(
        &mut folders,
        FolderSpec { id: "flts-library".into(), label: "FLTS".into(), path: "/tmp/lib".into(), device_ids: vec![] },
    );
    assert_eq!(folders.len(), 1);
    assert!(folders[0].device_ids.is_empty());
    assert_eq!(OptionsPatch::default(), OptionsPatch::default());
}

#[test]
fn options_presets() {
    let d = OptionsPatch::default();
    assert!(d.global_discovery && d.local_discovery && d.relays && d.nat);
    assert_eq!(d.listen_addresses, vec!["tcp://0.0.0.0:0".to_string()]);
    let l = OptionsPatch::loopback();
    assert!(!l.global_discovery && !l.local_discovery && !l.relays && !l.nat);
    assert_eq!(l.listen_addresses, vec!["tcp://127.0.0.1:0".to_string()]);
}

#[test]
fn rest_helpers() {
    assert_eq!(rest_base_url("http://127.0.0.1:8384//"), "http://127.0.0.1:8384");
    assert_eq!(http_retry_delay_ms(0), Some(100));
    assert_eq!(http_retry_delay_ms(1), Some(300));
    assert_eq!(http_retry_delay_ms(2), None);
}

#[test]
fn peers_exclude_self_and_carry_connection_state() {
    let devices = vec![dev("ME", "me"), dev("A", "alpha"), dev("B", "beta")];
    let mut conns: IdMap<bool> = IdMap::new();
    conns.insert("A".into(), true);
    let peers = list_peers(&devices, &conns, "ME");
    assert_eq!(peers.len(), 2);
    assert_eq!(peers[0].device_id, "A");
    assert!(peers[0].connected);
    assert_eq!(peers[1].name, "beta");
    assert!(!peers[1].connected);
}

#[test]
fn start_time_reshare_covers_persisted_peers() {
    let devices = vec![dev("A", "a"), dev("B", "b")];
    let spec = library_folder_spec(&devices, "ME", "/lib");
    assert_eq!(spec.id, LIBRARY_FOLDER_ID);
    assert_eq!(spec.label, "FLTS Library");
    assert_eq!(spec.path, "/lib");
    assert_eq!(spec.device_ids, vec!["A".to_string(), "B".to_string(), "ME".to_string()]);
    let devices = vec![dev("ME", "m"), dev("A", "a")];
    let spec = library_folder_spec(&devices, "ME", "/lib");
    assert_eq!(spec.device_ids, vec!["ME".to_string(), "A".to_string()]);
}

#[test]
fn api_keys_are_lower_hex() {
    assert_eq!(api_key_from_bytes(&[0x00, 0xab, 0x7f]), "00ab7f");
    let k = generate_api_key();
    assert_eq!(k.len(), 32);
    assert!(k.chars().all(|c| c.is_ascii_hexdigit() && !c.is_ascii_uppercase()));
}
