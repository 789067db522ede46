//! The devices under watch, as configured and as last observed.

use vstd::prelude::*;

verus! {

/// A kind of check that can be enabled on a device.
#[derive(Clone, Copy, Debug, PartialEq, Eq, Structural)]
pub enum SensorType {
    Ping,
    Http,
    Https,
    Bandwidth,
}

} // verus!

verus! {

/// A monitored device with the health fields the poll loop fills in.
pub struct Device {
    pub name: String,
    pub ip: String,
    pub category: String,
    pub sensors: Vec<SensorType>,
    pub http_path: Option<String>,
    pub ping_status: Option<bool>,
    pub http_status: Option<bool>,
    /// Last bandwidth sample, in hundredths of a megabit per second.
    pub bandwidth_usage: Option<u64>,
}

/// A device as it is entered through the management interface and stored in
/// the configuration file: sensors are named rather than typed.
pub struct WebDevice {
    pub name: String,
    pub ip: String,
    pub category: String,
    pub sensors: Vec<String>,
    pub http_path: Option<String>,
}

pub open spec fn has_sensor(sensors: Seq<SensorType>, kind: SensorType) -> bool {
    exists|i: int| 0 <= i < sensors.len() && sensors[i] == kind
}

/// The sensor a configured name stands for; an unknown name means a ping check.
pub open spec fn sensor_named(name: Seq<char>) -> SensorType {
    if name == "Http"@ {
        SensorType::Http
    } else if name == "Https"@ {
        SensorType::Https
    } else {
        SensorType::Ping
    }
}

/// `d` with every observed health field back to unknown.
pub open spec fn without_health(d: Device) -> Device {
    Device { ping_status: None, http_status: None, bandwidth_usage: None, ..d }
}

impl Device {
    /// Whether an HTTP or HTTPS check is configured.
    pub open spec fn watches_http(&self) -> bool {
        has_sensor(self.sensors@, SensorType::Http) || has_sensor(self.sensors@, SensorType::Https)
    }

    pub fn has_sensor(&self, kind: SensorType) -> (r: bool)
        ensures
            r == has_sensor(self.sensors@, kind),
    {
        let mut i: usize = 0;
        while i < self.sensors.len()
            invariant
                i <= self.sensors@.len(),
                forall|j: int| 0 <= j < i ==> self.sensors@[j] != kind,
            decreases self.sensors@.len() - i,
        {
            if self.sensors[i] == kind {
                return true;
            }
            i += 1;
        }
        false
    }

    pub fn has_http_sensor(&self) -> (r: bool)
        ensures
            r == self.watches_http(),
    {
        self.has_sensor(SensorType::Http) || self.has_sensor(SensorType::Https)
    }

    /// The in-memory device for a configured one: sensor names become sensor
    /// kinds and nothing has been observed yet.
    pub fn from_web(web: WebDevice) -> (d: Device)
        ensures
            d.name == web.name,
            d.ip == web.ip,
            d.category == web.category,
            d.http_path == web.http_path,
            d.sensors@.len() == web.sensors@.len(),
            forall|i: int|
                0 <= i < web.sensors@.len() ==> d.sensors@[i] == sensor_named(
                    #[trigger] web.sensors@[i]@,
                ),
            d.ping_status is None,
            d.http_status is None,
            d.bandwidth_usage is None,
    {
        let mut sensors: Vec<SensorType> = Vec::new();
        let mut i: usize = 0;
        while i < web.sensors.len()
            invariant
                i <= web.sensors@.len(),
                sensors@.len() == i,
                forall|j: int|
                    0 <= j < i ==> sensors@[j] == sensor_named(#[trigger] web.sensors@[j]@),
            decreases web.sensors@.len() - i,
        {
            sensors.push(sensor_from_name(web.sensors[i].as_str()));
            i += 1;
        }
        Device {
            name: web.name,
            ip: web.ip,
            category: web.category,
            sensors,
            http_path: web.http_path,
            ping_status: None,
            http_status: None,
            bandwidth_usage: None,
        }
    }

    /// Forgets every observed health field.
    pub fn clear_health(&mut self)
        ensures
            *final(self) == without_health(*old(self)),
    {
        self.ping_status = None;
        self.http_status = None;
        self.bandwidth_usage = None;
    }
}

pub fn sensor_from_name(name: &str) -> (r: SensorType)
    ensures
        r == sensor_named(name@),
{
    if crate::text::same_text(name, "Http") {
        SensorType::Http
    } else if crate::text::same_text(name, "Https") {
        SensorType::Https
    } else {
        SensorType::Ping
    }
}

} // verus!
