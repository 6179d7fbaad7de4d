use castscreen::discovery::{
    beacon_message, classify_datagram, probe_message, Datagram, DeviceRegistry, DiscoveredDevice,
    DEVICE_TIMEOUT_MS,
};
use serde_json::Value;

fn device(name: &str, ip: &str, port: u16) -> DiscoveredDevice {
    DiscoveredDevice {
        device_name: name.to_string(),
        ip: ip.to_string(),
        port,
        role: "receiver".to_string(),
        version: "0.2.0".to_string(),
    }
}

#[test]
fn test_beacon_serialization_and_device() {
    let mut payload = serde_json::Map::new();
    payload.insert("device_name".to_string(), Value::String("Streaming-Laptop".to_string()));
    payload.insert("port".to_string(), Value::from(9000u16));
    payload.insert("role".to_string(), Value::String("receiver".to_string()));
    payload.insert("version".to_string(), Value::String("0.2.0".to_string()));

    let json = serde_json::to_string(&Value::Object(payload)).expect("Serialization failed");
    // The description travels behind the beacon header and comes back out.
    let datagram = beacon_message(json.as_bytes());
    let body = match classify_datagram(&datagram) {
        Datagram::Beacon(body) => body,
        other => panic!("not a beacon: {:?}", other),
    };
    let parsed: Value = serde_json::from_slice(&body).expect("Deserialization failed");

    assert_eq!(parsed["device_name"], "Streaming-Laptop");
    assert_eq!(parsed["port"], 9000);
    assert_eq!(parsed["role"], "receiver");
    assert_eq!(parsed["version"], "0.2.0");

    let dev = DiscoveredDevice {
        device_name: parsed["device_name"].as_str().unwrap().to_string(),
        ip: "192.168.1.50".to_string(),
        port: parsed["port"].as_u64().unwrap() as u16,
        role: parsed["role"].as_str().unwrap().to_string(),
        version: parsed["version"].as_str().unwrap().to_string(),
    };

    assert_eq!(dev.name(), "Streaming-Laptop");
    assert_eq!(dev.ip, "192.168.1.50");
    assert_eq!(dev.port, 9000);
}

#[test]
fn probes_and_beacons_are_told_apart() {
    assert!(matches!(classify_datagram(&probe_message()), Datagram::Probe));
    assert!(matches!(classify_datagram(b"hello"), Datagram::Other));
    assert!(matches!(classify_datagram(&[0xFF, 0xFE, 0x00]), Datagram::Other));
    match classify_datagram(&beacon_message(b"{}")) {
        Datagram::Beacon(body) => assert_eq!(body, b"{}".to_vec()),
        other => panic!("not a beacon: {:?}", other),
    }
}

#[test]
fn registry_keeps_one_entry_per_endpoint() {
    let mut registry = DeviceRegistry::new();
    registry.observe(device("A", "10.0.0.2", 9000), 0);
    registry.observe(device("B", "10.0.0.3", 9000), 10);
    registry.observe(device("A-renamed", "10.0.0.2", 9000), 20);
    let devices = registry.get_devices();
    assert_eq!(devices.len(), 2);
    assert!(devices.iter().any(|d| d.name() == "A-renamed" && d.ip == "10.0.0.2"));
    assert!(devices.iter().any(|d| d.name() == "B"));
    // Another port on the same address is another instance.
    registry.observe(device("C", "10.0.0.2", 9100), 30);
    assert_eq!(registry.get_devices().len(), 3);
}

#[test]
fn registry_forgets_silent_devices() {
    let mut registry = DeviceRegistry::new();
    registry.observe(device("old", "10.0.0.2", 9000), 0);
    registry.observe(device("new", "10.0.0.3", 9000), 4_000);
    registry.prune(DEVICE_TIMEOUT_MS - 1);
    assert_eq!(registry.get_devices().len(), 2);
    registry.prune(DEVICE_TIMEOUT_MS + 1);
    let devices = registry.get_devices();
    assert_eq!(devices.len(), 1);
    assert_eq!(devices[0].name(), "new");
}

#[test]
fn device_clone_is_equal() {
    let d = device("A", "10.0.0.2", 9000);
    assert_eq!(d.clone(), d);
}
