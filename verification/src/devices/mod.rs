//! Audio playback devices as the system lists them.
use vstd::prelude::*;

pub mod audio;

pub use audio::AudioDeviceManager;

verus! {

/// A playback device: its system id, a display name, a kind (`"headphones"`,
/// `"speakers"`, `"hdmi"` or `"bluetooth"`) and its category.
#[derive(Debug, Clone)]
pub struct Device {
    pub id: String,
    pub name: String,
    pub device_type: String,
    pub category: DeviceCategory,
}

/// What kind of device a [`Device`] is.
#[derive(Debug, Clone, Copy, PartialEq, Eq, Structural)]
pub enum DeviceCategory {
    Audio,
}

/// The model of a [`Device`]: its strings as character sequences.
pub struct DeviceModel {
    pub id: Seq<char>,
    pub name: Seq<char>,
    pub device_type: Seq<char>,
    pub category: DeviceCategory,
}

impl View for Device {
    type V = DeviceModel;

    open spec fn view(&self) -> DeviceModel {
        DeviceModel {
            id: self.id@,
            name: self.name@,
            device_type: self.device_type@,
            category: self.category,
        }
    }
}

/// A source of the devices that can be chosen.
pub trait DeviceManager: Send + Sync {
    fn get_devices(&self) -> Vec<Device>;
}

} // verus!
