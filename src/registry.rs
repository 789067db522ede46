//! The device registry: the configured list as stored, the checks an edit
//! must pass, and the in-memory list the poll loop reads.

use vstd::prelude::*;
use crate::models::{Device, WebDevice, without_health};
use crate::text::{blank, is_blank};

verus! {

/// Why a new or edited device was refused.
#[derive(Clone, Copy, Debug, PartialEq, Eq, Structural)]
pub enum DeviceError {
    EmptyName,
    EmptyIp,
    EmptyCategory,
    NoSensors,
    DuplicateName,
}

impl DeviceError {
    pub fn message(&self) -> (r: &'static str)
        ensures
            r@ == match self {
                DeviceError::EmptyName => "Device name cannot be empty"@,
                DeviceError::EmptyIp => "IP address cannot be empty"@,
                DeviceError::EmptyCategory => "Category cannot be empty"@,
                DeviceError::NoSensors => "At least one sensor must be selected"@,
                DeviceError::DuplicateName => "Device name already exists"@,
            },
    {
        match self {
            DeviceError::EmptyName => "Device name cannot be empty",
            DeviceError::EmptyIp => "IP address cannot be empty",
            DeviceError::EmptyCategory => "Category cannot be empty",
            DeviceError::NoSensors => "At least one sensor must be selected",
            DeviceError::DuplicateName => "Device name already exists",
        }
    }
}

/// Why an edit of the stored list by position was refused.
#[derive(Clone, Copy, Debug, PartialEq, Eq, Structural)]
pub enum RegistryError {
    /// No device stands at the given position.
    NotFound,
    /// Another device already has the same name or address.
    Conflict,
    /// The device itself is not acceptable: a blank field or no sensor.
    Invalid(DeviceError),
}

/// Some device other than the one at `exclude` already carries `name`.
pub open spec fn name_in_use(name: Seq<char>, devices: Seq<WebDevice>, exclude: Option<usize>) -> bool {
    exists|i: int|
        0 <= i < devices.len() && exclude != Some(i as usize) && #[trigger] devices[i].name@ == name
}

/// The verdict on `device` against the stored list, checks taken in order.
pub open spec fn validation(device: WebDevice, devices: Seq<WebDevice>, exclude: Option<usize>) -> Result<(), DeviceError> {
    if blank(device.name@) {
        Err(DeviceError::EmptyName)
    } else if blank(device.ip@) {
        Err(DeviceError::EmptyIp)
    } else if blank(device.category@) {
        Err(DeviceError::EmptyCategory)
    } else if device.sensors@.len() == 0 {
        Err(DeviceError::NoSensors)
    } else if name_in_use(device.name@, devices, exclude) {
        Err(DeviceError::DuplicateName)
    } else {
        Ok(())
    }
}

/// The checks of `validation` on the device alone, in the same order.
pub open spec fn shape_check(device: WebDevice) -> Option<DeviceError> {
    if blank(device.name@) {
        Some(DeviceError::EmptyName)
    } else if blank(device.ip@) {
        Some(DeviceError::EmptyIp)
    } else if blank(device.category@) {
        Some(DeviceError::EmptyCategory)
    } else if device.sensors@.len() == 0 {
        Some(DeviceError::NoSensors)
    } else {
        None
    }
}

/// Some device other than the one at `id` has the name or the address of `device`.
pub open spec fn clashes(device: WebDevice, devices: Seq<WebDevice>, id: int) -> bool {
    exists|i: int|
        0 <= i < devices.len() && i != id && ((#[trigger] devices[i]).name@ == device.name@
            || devices[i].ip@ == device.ip@)
}

/// Checks a device before it is stored: no blank name, address or category,
/// at least one sensor, and a name that no other device (the one at
/// `exclude_index` aside) carries.
pub fn validate_device(device: &WebDevice, devices: &[WebDevice], exclude_index: Option<usize>) -> (r: Result<(), DeviceError>)
    ensures
        r == validation(*device, devices@, exclude_index),
{
    if is_blank(device.name.as_str()) {
        return Err(DeviceError::EmptyName);
    }
    if is_blank(device.ip.as_str()) {
        return Err(DeviceError::EmptyIp);
    }
    if is_blank(device.category.as_str()) {
        return Err(DeviceError::EmptyCategory);
    }
    if device.sensors.len() == 0 {
        return Err(DeviceError::NoSensors);
    }
    let mut i: usize = 0;
    while i < devices.len()
        invariant
            i <= devices@.len(),
            !blank(device.name@),
            !blank(device.ip@),
            !blank(device.category@),
            device.sensors@.len() != 0,
            forall|j: int|
                0 <= j < i ==> !(exclude_index != Some(j as usize) && #[trigger] devices@[j].name@
                    == device.name@),
        decreases devices@.len() - i,
    {
        let skip = match exclude_index {
            Some(e) => e == i,
            None => false,
        };
        if !skip && devices[i].name == device.name {
            assert(exclude_index != Some(i) && devices@[i as int].name@ == device.name@);
            return Err(DeviceError::DuplicateName);
        }
        i += 1;
    }
    Ok(())
}

/// Appends `device` to the stored list when it passes `validate_device`.
pub fn add_device(devices: &mut Vec<WebDevice>, device: WebDevice) -> (r: Result<(), DeviceError>)
    ensures
        r == validation(device, old(devices)@, None),
        r is Ok ==> final(devices)@ == old(devices)@.push(device),
        r is Err ==> final(devices)@ == old(devices)@,
{
    let r = validate_device(&device, devices.as_slice(), None);
    if r.is_ok() {
        devices.push(device);
    }
    r
}

/// Checks a device on its own: no blank name, address or category, and at
/// least one sensor.
pub fn check_shape(device: &WebDevice) -> (r: Option<DeviceError>)
    ensures
        r == shape_check(*device),
{
    if is_blank(device.name.as_str()) {
        Some(DeviceError::EmptyName)
    } else if is_blank(device.ip.as_str()) {
        Some(DeviceError::EmptyIp)
    } else if is_blank(device.category.as_str()) {
        Some(DeviceError::EmptyCategory)
    } else if device.sensors.len() == 0 {
        Some(DeviceError::NoSensors)
    } else {
        None
    }
}

/// Replaces the stored device at `id`, unless there is none, the new device
/// fails the checks of `check_shape`, or another device already has the new
/// name or address.
pub fn update_device(devices: &mut Vec<WebDevice>, id: usize, device: WebDevice) -> (r: Result<(), RegistryError>)
    ensures
        id >= old(devices)@.len() ==> r == Err::<(), RegistryError>(RegistryError::NotFound),
        id < old(devices)@.len() && shape_check(device) is Some ==> r == Err::<(), RegistryError>(
            RegistryError::Invalid(shape_check(device)->Some_0),
        ),
        id < old(devices)@.len() && shape_check(device) is None && clashes(
            device,
            old(devices)@,
            id as int,
        ) ==> r == Err::<(), RegistryError>(RegistryError::Conflict),
        id < old(devices)@.len() && shape_check(device) is None && !clashes(
            device,
            old(devices)@,
            id as int,
        ) ==> r is Ok,
        r is Ok ==> final(devices)@ == old(devices)@.update(id as int, device),
        r is Err ==> final(devices)@ == old(devices)@,
{
    if id >= devices.len() {
        return Err(RegistryError::NotFound);
    }
    if let Some(e) = check_shape(&device) {
        return Err(RegistryError::Invalid(e));
    }
    let mut i: usize = 0;
    while i < devices.len()
        invariant
            i <= devices@.len(),
            devices@ == old(devices)@,
            id < devices@.len(),
            shape_check(device) is None,
            forall|j: int|
                0 <= j < i ==> !(j != id && ((#[trigger] devices@[j]).name@ == device.name@
                    || devices@[j].ip@ == device.ip@)),
        decreases devices@.len() - i,
    {
        if i != id {
            let same_name = devices[i].name == device.name;
            let same_ip = devices[i].ip == device.ip;
            if same_name || same_ip {
                assert(clashes(device, old(devices)@, id as int)) by {
                    assert(devices@[i as int].name@ == device.name@ || devices@[i as int].ip@
                        == device.ip@);
                }
                return Err(RegistryError::Conflict);
            }
        }
        assert(!(i != id && (devices@[i as int].name@ == device.name@ || devices@[i as int].ip@
            == device.ip@)));
        i += 1;
    }
    devices.set(id, device);
    Ok(())
}

/// Removes the stored device at `index`, if there is one.
pub fn delete_device(devices: &mut Vec<WebDevice>, index: usize) -> (r: Result<WebDevice, RegistryError>)
    ensures
        index >= old(devices)@.len() <==> r == Err::<WebDevice, RegistryError>(
            RegistryError::NotFound,
        ),
        index < old(devices)@.len() ==> r is Ok,
        r is Ok ==> r->Ok_0 == old(devices)@[index as int] && final(devices)@ == old(
            devices,
        )@.remove(index as int),
        r is Err ==> final(devices)@ == old(devices)@,
{
    if index >= devices.len() {
        return Err(RegistryError::NotFound);
    }
    Ok(devices.remove(index))
}

/// The devices of `loaded`, each with its health fields unknown.
pub open spec fn fresh(loaded: Seq<Device>) -> Seq<Device> {
    loaded.map_values(|d: Device| without_health(d))
}

fn clear_all_health(devices: &mut Vec<Device>)
    ensures
        final(devices)@ == fresh(old(devices)@),
{
    let ghost start = devices@;
    let mut i: usize = 0;
    while i < devices.len()
        invariant
            i <= devices@.len(),
            devices@.len() == start.len(),
            forall|j: int| 0 <= j < i ==> devices@[j] == without_health(#[trigger] start[j]),
            forall|j: int| i <= j < devices@.len() ==> devices@[j] == start[j],
        decreases devices@.len() - i,
    {
        devices[i].clear_health();
        i += 1;
    }
    assert(devices@ =~= fresh(start));
}

/// Replaces the whole in-memory list by the devices just read from the
/// configuration, with nothing observed yet.
pub fn reload_devices(registry: &mut Vec<Device>, loaded: Vec<Device>)
    ensures
        final(registry)@ == fresh(loaded@),
{
    let mut loaded = loaded;
    clear_all_health(&mut loaded);
    *registry = loaded;
}

/// Adds the devices just read from the configuration to the in-memory list,
/// with nothing observed yet.
pub fn add_devices(registry: &mut Vec<Device>, loaded: Vec<Device>)
    ensures
        final(registry)@ == old(registry)@ + fresh(loaded@),
{
    let mut loaded = loaded;
    clear_all_health(&mut loaded);
    registry.append(&mut loaded);
}

} // verus!
