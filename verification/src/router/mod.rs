//! Routing one capture source to several playback devices.
use vstd::prelude::*;

pub mod delay_buffer;
pub mod device_table;
pub mod router;
pub mod volume_mixer;

pub use router::AudioRouter;

use vstd::string::StringExecFns;

verus! {

/// An optional string as an optional character sequence.
pub open spec fn opt_view(o: Option<String>) -> Option<Seq<char>> {
    match o {
        Some(s) => Some(s@),
        None => None,
    }
}

/// A copy of an optional string.
pub fn copy_opt_string(o: &Option<String>) -> (r: Option<String>)
    ensures
        opt_view(r) == opt_view(*o),
{
    match o {
        Some(s) => Some(String::from_str(s.as_str())),
        None => None,
    }
}

/// A target device of the routing and its settings.  `volume` is the bit
/// pattern of an IEEE-754 binary32 gain (what `f32::to_bits` gives).
#[derive(Debug, Clone)]
pub struct RouterDevice {
    pub id: String,
    pub name: String,
    pub volume: u32,
    pub delay_ms: u32,
    pub enabled: bool,
}

/// The model of a [`RouterDevice`].
pub struct RouterDeviceModel {
    pub id: Seq<char>,
    pub name: Seq<char>,
    pub volume: u32,
    pub delay_ms: u32,
    pub enabled: bool,
}

impl View for RouterDevice {
    type V = RouterDeviceModel;

    open spec fn view(&self) -> RouterDeviceModel {
        RouterDeviceModel {
            id: self.id@,
            name: self.name@,
            volume: self.volume,
            delay_ms: self.delay_ms,
            enabled: self.enabled,
        }
    }
}

/// The models of the devices `v`.
pub open spec fn devices_view(v: Seq<RouterDevice>) -> Seq<RouterDeviceModel> {
    v.map_values(|d: RouterDevice| d@)
}

impl RouterDevice {
    /// A copy of this device.
    pub fn duplicate(&self) -> (r: RouterDevice)
        ensures
            r@ == self@,
    {
        RouterDevice {
            id: String::from_str(self.id.as_str()),
            name: String::from_str(self.name.as_str()),
            volume: self.volume,
            delay_ms: self.delay_ms,
            enabled: self.enabled,
        }
    }
}

/// A copy of the devices `v`.
pub fn duplicate_devices(v: &Vec<RouterDevice>) -> (r: Vec<RouterDevice>)
    ensures
        devices_view(r@) == devices_view(v@),
{
    let mut r: Vec<RouterDevice> = Vec::new();
    let mut i: usize = 0;
    while i < v.len()
        invariant
            i <= v@.len(),
            devices_view(r@) == devices_view(v@.take(i as int)),
        decreases v@.len() - i,
    {
        r.push(v[i].duplicate());
        assert(devices_view(v@.take(i + 1)) =~= devices_view(v@.take(i as int)).push(v@[i as int]@));
        assert(devices_view(r@) =~= devices_view(v@.take(i as int)).push(v@[i as int]@));
        i = i + 1;
    }
    assert(v@.take(v@.len() as int) =~= v@);
    r
}

/// The routing configuration: the target devices and their settings.
#[derive(Clone)]
pub struct RouterConfig {
    pub devices: Vec<RouterDevice>,
}

impl View for RouterConfig {
    type V = Seq<RouterDeviceModel>;

    open spec fn view(&self) -> Seq<RouterDeviceModel> {
        devices_view(self.devices@)
    }
}

impl RouterConfig {
    /// A configuration with no devices.
    pub fn new() -> (r: Self)
        ensures
            r@ == Seq::<RouterDeviceModel>::empty(),
    {
        let r = RouterConfig { devices: Vec::new() };
        assert(r@ =~= Seq::<RouterDeviceModel>::empty());
        r
    }

    /// A copy of this configuration.
    pub fn duplicate(&self) -> (r: Self)
        ensures
            r@ == self@,
    {
        RouterConfig { devices: duplicate_devices(&self.devices) }
    }
}

impl Default for RouterConfig {
    fn default() -> (r: Self)
        ensures
            r@ == Seq::<RouterDeviceModel>::empty(),
    {
        RouterConfig::new()
    }
}

/// What the router reports of itself.
#[derive(Clone)]
pub struct RouterStatus {
    pub is_running: bool,
    pub source_device_id: Option<String>,
    pub source_device_name: Option<String>,
    pub target_devices: Vec<RouterDevice>,
    pub vb_cable_id: Option<String>,
    pub original_default_device_id: Option<String>,
}

/// Whether the virtual cable is installed, and which device it is.
#[derive(Clone)]
pub struct VirtualDeviceStatus {
    pub is_installed: bool,
    pub device_id: Option<String>,
    pub device_name: Option<String>,
}

/// The outcome of checking routing targets against the default device.
#[derive(Clone)]
pub struct ValidationResult {
    pub has_conflicts: bool,
    pub conflict_devices: Vec<String>,
    pub warning: String,
}

} // verus!
