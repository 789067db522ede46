use rustping::models::{Device, SensorType, WebDevice};
use rustping::registry::{
    add_device, add_devices, delete_device, reload_devices, update_device, validate_device,
    DeviceError, RegistryError,
};

fn web(name: &str, ip: &str) -> WebDevice {
    WebDevice {
        name: name.to_string(),
        ip: ip.to_string(),
        category: "Core".to_string(),
        sensors: vec!["Ping".to_string()],
        http_path: None,
    }
}

#[test]
fn validation_errors_in_order() {
    let list = vec![web("A", "1.1.1.1")];
    assert_eq!(validate_device(&web("  ", "2.2.2.2"), &list, None), Err(DeviceError::EmptyName));
    assert_eq!(validate_device(&web("B", "\t"), &list, None), Err(DeviceError::EmptyIp));
    let mut d = web("B", "2.2.2.2");
    d.category = String::new();
    assert_eq!(validate_device(&d, &list, None), Err(DeviceError::EmptyCategory));
    let mut d = web("B", "2.2.2.2");
    d.sensors.clear();
    assert_eq!(validate_device(&d, &list, None), Err(DeviceError::NoSensors));
    assert_eq!(validate_device(&web("A", "2.2.2.2"), &list, None), Err(DeviceError::DuplicateName));
    assert_eq!(validate_device(&web("A", "2.2.2.2"), &list, Some(0)), Ok(()));
    assert_eq!(DeviceError::DuplicateName.message(), "Device name already exists");
}

#[test]
fn add_update_delete() {
    let mut list = vec![web("A", "1.1.1.1")];
    assert_eq!(add_device(&mut list, web("B", "2.2.2.2")), Ok(()));
    assert_eq!(add_device(&mut list, web("B", "3.3.3.3")), Err(DeviceError::DuplicateName));
    assert_eq!(list.len(), 2);
    assert_eq!(update_device(&mut list, 5, web("C", "9.9.9.9")), Err(RegistryError::NotFound));
    assert_eq!(update_device(&mut list, 1, web("C", "1.1.1.1")), Err(RegistryError::Conflict));
    assert_eq!(update_device(&mut list, 1, web(" ", "7.7.7.7")), Err(RegistryError::Invalid(DeviceError::EmptyName)));
    let mut no_sensor = web("C", "7.7.7.7");
    no_sensor.sensors.clear();
    assert_eq!(update_device(&mut list, 1, no_sensor), Err(RegistryError::Invalid(DeviceError::NoSensors)));
    assert_eq!(list[1].name, "B");
    assert_eq!(update_device(&mut list, 1, web("B", "2.2.2.3")), Ok(()));
    assert_eq!(list[1].ip, "2.2.2.3");
    assert!(matches!(delete_device(&mut list, 2), Err(RegistryError::NotFound)));
    let gone = delete_device(&mut list, 0).ok().unwrap();
    assert_eq!(gone.name, "A");
    assert_eq!(list.len(), 1);
}

#[test]
fn sensor_names_map_to_kinds() {
    let mut w = web("A", "1.1.1.1");
    w.sensors = vec!["Http".to_string(), "Https".to_string(), "Ping".to_string(), "Other".to_string()];
    let d = Device::from_web(w);
    assert_eq!(d.sensors, vec![SensorType::Http, SensorType::Https, SensorType::Ping, SensorType::Ping]);
    assert!(d.has_http_sensor());
    assert_eq!(d.ping_status, None);
}

#[test]
fn reload_replaces_and_forgets_health() {
    let mut registry = vec![Device::from_web(web("X", "1.1.1.1")), Device::from_web(web("Y", "2.2.2.2"))];
    let mut loaded = Device::from_web(web("Y", "2.2.2.2"));
    loaded.ping_status = Some(true);
    loaded.bandwidth_usage = Some(5);
    reload_devices(&mut registry, vec![loaded]);
    assert_eq!(registry.len(), 1);
    assert_eq!(registry[0].name, "Y");
    assert_eq!(registry[0].ping_status, None);
    assert_eq!(registry[0].bandwidth_usage, None);
    let mut more = Device::from_web(web("Z", "3.3.3.3"));
    more.http_status = Some(false);
    add_devices(&mut registry, vec![more]);
    assert_eq!(registry.len(), 2);
    assert_eq!(registry[1].http_status, None);
}
