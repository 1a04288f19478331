//! Per-device volumes, with a sync mode in which the master device's volume
//! is copied to every device.
//!
//! A volume is carried as the bit pattern of an IEEE-754 binary32 value (what
//! `f32::to_bits` gives).  The mixer compares volumes only against `0.0` and
//! `1.0`, which it does on the bit patterns; scaling samples is left to a
//! function that the caller hands in.
use vstd::prelude::*;

use super::device_table::DeviceTable;
use super::{copy_opt_string, opt_view};
use vstd::string::StringExecFns;

verus! {

/// The bit pattern of `1.0`, the volume of a device that has none set.
pub const UNITY: u32 = 0x3F80_0000;

/// The bit pattern of `0.0`.
pub const ZERO: u32 = 0;

/// The bits of `b` without its sign.
pub open spec fn magnitude_bits(b: u32) -> int {
    (b as int) % 0x8000_0000
}

/// `b` is the pattern of a NaN.
pub open spec fn is_nan_bits(b: u32) -> bool {
    magnitude_bits(b) > 0x7F80_0000
}

/// The pattern of `v.clamp(0.0, 1.0)` for the value `v` whose pattern is `b`:
/// a NaN and `-0.0` stay, values below `0.0` become `0.0`, values above `1.0`
/// become `1.0`, the rest stay.
pub open spec fn clamp_unit(b: u32) -> u32 {
    if is_nan_bits(b) {
        b
    } else if b >= 0x8000_0000 {
        if magnitude_bits(b) == 0 {
            b
        } else {
            ZERO
        }
    } else if b > UNITY {
        UNITY
    } else {
        b
    }
}

/// Computes `clamp_unit(b)`.
pub fn clamp_unit_bits(b: u32) -> (r: u32)
    ensures
        r == clamp_unit(b),
{
    let magnitude = b % 0x8000_0000;
    if magnitude > 0x7F80_0000 {
        b
    } else if b >= 0x8000_0000 {
        if magnitude == 0 {
            b
        } else {
            ZERO
        }
    } else if b > UNITY {
        UNITY
    } else {
        b
    }
}

/// The model of a [`VolumeMixer`].
pub struct MixerModel {
    pub volumes: Map<Seq<char>, u32>,
    pub sync_mode: bool,
    pub master: Option<Seq<char>>,
}

/// `volumes` with every device's volume set to `v`.
pub open spec fn all_set_to(volumes: Map<Seq<char>, u32>, v: u32) -> Map<Seq<char>, u32> {
    Map::new(|k: Seq<char>| volumes.dom().contains(k), |k: Seq<char>| v)
}

/// The volumes after setting `id` to `v` (already clamped): in sync mode,
/// setting the master sets every device.
pub open spec fn volumes_after_set(m: MixerModel, id: Seq<char>, v: u32) -> Map<Seq<char>, u32> {
    if m.sync_mode && m.master == Some(id) {
        all_set_to(m.volumes.insert(id, v), v)
    } else {
        m.volumes.insert(id, v)
    }
}

/// The volume that the mixer reports for `id`: its own, or `1.0`.
pub open spec fn volume_of(m: MixerModel, id: Seq<char>) -> u32 {
    if m.volumes.dom().contains(id) {
        m.volumes[id]
    } else {
        UNITY
    }
}

/// Manages the volume of each device.
pub struct VolumeMixer {
    device_volumes: DeviceTable<u32>,
    sync_mode: bool,
    master_device: Option<String>,
}

impl View for VolumeMixer {
    type V = MixerModel;

    closed spec fn view(&self) -> MixerModel {
        MixerModel {
            volumes: self.device_volumes@,
            sync_mode: self.sync_mode,
            master: opt_view(self.master_device),
        }
    }
}

impl VolumeMixer {
    /// The mixer's table is well formed.
    pub closed spec fn wf(&self) -> bool {
        self.device_volumes.wf()
    }

    /// The order in which the devices were first added.
    pub closed spec fn device_order(&self) -> Seq<Seq<char>> {
        self.device_volumes.key_order()
    }

    /// A mixer with no devices, sync mode off and no master.
    pub fn new() -> (r: Self)
        ensures
            r.wf(),
            r@.volumes == Map::<Seq<char>, u32>::empty(),
            !r@.sync_mode,
            r@.master is None,
    {
        VolumeMixer { device_volumes: DeviceTable::new(), sync_mode: false, master_device: None }
    }

    /// Sets the volume of `device_id` to `volume` clamped to `0.0..=1.0`; in
    /// sync mode, setting the master's volume sets every device's.
    pub fn set_volume(&mut self, device_id: &str, volume: u32)
        requires
            old(self).wf(),
        ensures
            final(self).wf(),
            final(self)@.volumes == volumes_after_set(old(self)@, device_id@, clamp_unit(volume)),
            final(self)@.sync_mode == old(self)@.sync_mode,
            final(self)@.master == old(self)@.master,
    {
        let clamped = clamp_unit_bits(volume);
        self.device_volumes.insert(String::from_str(device_id), clamped);
        let is_master = match &self.master_device {
            Some(m) => crate::text::str_eq(m.as_str(), device_id),
            None => false,
        };
        if self.sync_mode && is_master {
            self.sync_to_all(clamped);
        }
        proof {
            if self.sync_mode && is_master {
                assert(self.device_volumes@ =~= all_set_to(
                    old(self)@.volumes.insert(device_id@, clamped),
                    clamped,
                ));
            }
        }
    }

    /// The volume of `device_id`, or `1.0` when it has none.
    pub fn get_volume(&self, device_id: &str) -> (r: u32)
        requires
            self.wf(),
        ensures
            r == volume_of(self@, device_id@),
    {
        match self.device_volumes.get(device_id) {
            Some(v) => *v,
            None => UNITY,
        }
    }

    /// Scales each of `samples` by the volume of `device_id` with `scale`
    /// (sample, volume) when the device has a volume; leaves them otherwise.
    pub fn apply_volume<F: Fn(u32, u32) -> u32>(
        &self,
        device_id: &str,
        samples: &mut Vec<u32>,
        scale: F,
    )
        requires
            self.wf(),
            forall|s: u32, v: u32| #[trigger] call_requires(scale, (s, v)),
        ensures
            final(samples)@.len() == old(samples)@.len(),
            !self@.volumes.dom().contains(device_id@) ==> final(samples)@ == old(samples)@,
            self@.volumes.dom().contains(device_id@) ==> forall|i: int|
                0 <= i < old(samples)@.len() ==> call_ensures(
                    scale,
                    (old(samples)@[i], self@.volumes[device_id@]),
                    #[trigger] final(samples)@[i],
                ),
    {
        match self.device_volumes.get(device_id) {
            Some(v) => {
                let volume = *v;
                let ghost s0 = samples@;
                let mut i: usize = 0;
                while i < samples.len()
                    invariant
                        forall|s: u32, w: u32| #[trigger] call_requires(scale, (s, w)),
                        samples@.len() == s0.len(),
                        i <= s0.len(),
                        forall|j: int| i <= j < s0.len() ==> samples@[j] == s0[j],
                        forall|j: int|
                            0 <= j < i ==> call_ensures(
                                scale,
                                (s0[j], volume),
                                #[trigger] samples@[j],
                            ),
                    decreases s0.len() - i,
                {
                    let scaled = scale(samples[i], volume);
                    samples.set(i, scaled);
                    i = i + 1;
                }
            },
            None => {},
        }
    }

    /// Turns sync mode on or off.
    pub fn set_sync_mode(&mut self, enabled: bool)
        requires
            old(self).wf(),
        ensures
            final(self).wf(),
            final(self)@ == (MixerModel { sync_mode: enabled, ..old(self)@ }),
    {
        self.sync_mode = enabled;
    }

    /// Makes `device_id` the master device (or none).
    pub fn set_master_device(&mut self, device_id: Option<String>)
        requires
            old(self).wf(),
        ensures
            final(self).wf(),
            final(self)@.volumes == old(self)@.volumes,
            final(self)@.sync_mode == old(self)@.sync_mode,
            final(self)@.master == match device_id {
                Some(s) => Some(s@),
                None => None::<Seq<char>>,
            },
    {
        self.master_device = device_id;
    }

    /// The master device, if any.
    pub fn master_device(&self) -> (r: Option<&str>)
        ensures
            match (r, self@.master) {
                (Some(a), Some(b)) => a@ == b,
                (None, None) => true,
                _ => false,
            },
    {
        match &self.master_device {
            Some(m) => Some(m.as_str()),
            None => None,
        }
    }

    /// Copies the master's volume to every device, when the master has one.
    pub fn sync_from_master(&mut self)
        requires
            old(self).wf(),
        ensures
            final(self).wf(),
            final(self)@.sync_mode == old(self)@.sync_mode,
            final(self)@.master == old(self)@.master,
            final(self)@.volumes == match old(self)@.master {
                Some(m) => if old(self)@.volumes.dom().contains(m) {
                    all_set_to(old(self)@.volumes, old(self)@.volumes[m])
                } else {
                    old(self)@.volumes
                },
                None => old(self)@.volumes,
            },
    {
        let master = copy_opt_string(&self.master_device);
        match master {
            Some(m) => {
                let vol = match self.device_volumes.get(m.as_str()) {
                    Some(v) => Some(*v),
                    None => None,
                };
                match vol {
                    Some(v) => {
                        self.sync_to_all(v);
                        assert(self.device_volumes@ =~= all_set_to(old(self)@.volumes, v));
                    },
                    None => {},
                }
            },
            None => {},
        }
    }

    /// Sets every device's volume to `volume`.
    fn sync_to_all(&mut self, volume: u32)
        requires
            old(self).wf(),
        ensures
            final(self).wf(),
            final(self)@.volumes == all_set_to(old(self)@.volumes, volume),
            final(self)@.sync_mode == old(self)@.sync_mode,
            final(self)@.master == old(self)@.master,
    {
        self.device_volumes.set_all(volume);
        assert(self.device_volumes@ =~= all_set_to(old(self)@.volumes, volume));
    }

    /// Adds `device_id` with `volume` as given (not clamped), or replaces its volume.
    pub fn add_device(&mut self, device_id: &str, volume: u32)
        requires
            old(self).wf(),
        ensures
            final(self).wf(),
            final(self)@ == (MixerModel {
                volumes: old(self)@.volumes.insert(device_id@, volume),
                ..old(self)@
            }),
    {
        self.device_volumes.insert(String::from_str(device_id), volume);
    }

    /// Removes `device_id`; when it was the master, another remaining device
    /// becomes the master, or none when no device remains.
    pub fn remove_device(&mut self, device_id: &str)
        requires
            old(self).wf(),
        ensures
            final(self).wf(),
            final(self)@.volumes == old(self)@.volumes.remove(device_id@),
            final(self)@.sync_mode == old(self)@.sync_mode,
            old(self)@.master != Some(device_id@) ==> final(self)@.master == old(self)@.master,
            old(self)@.master == Some(device_id@) ==> match final(self)@.master {
                Some(m) => final(self)@.volumes.dom().contains(m),
                None => final(self)@.volumes.dom() == Set::<Seq<char>>::empty(),
            },
    {
        self.device_volumes.remove(device_id);
        let was_master = match &self.master_device {
            Some(m) => crate::text::str_eq(m.as_str(), device_id),
            None => false,
        };
        if was_master {
            self.master_device = self.device_volumes.first_key();
        }
    }

    /// Removes every device and the master.
    pub fn clear(&mut self)
        requires
            old(self).wf(),
        ensures
            final(self).wf(),
            final(self)@.volumes == Map::<Seq<char>, u32>::empty(),
            final(self)@.sync_mode == old(self)@.sync_mode,
            final(self)@.master is None,
    {
        self.device_volumes.clear();
        self.master_device = None;
    }

    /// Every device's volume.
    pub fn all_volumes(&self) -> (r: &DeviceTable<u32>)
        requires
            self.wf(),
        ensures
            r.wf(),
            r@ == self@.volumes,
    {
        &self.device_volumes
    }

    /// Whether sync mode is on.
    pub fn is_sync_mode(&self) -> (r: bool)
        ensures
            r == self@.sync_mode,
    {
        self.sync_mode
    }
}

impl Default for VolumeMixer {
    fn default() -> (r: Self)
        ensures
            r.wf(),
            r@.volumes == Map::<Seq<char>, u32>::empty(),
            !r@.sync_mode,
            r@.master is None,
    {
        VolumeMixer::new()
    }
}

/// Clamping keeps a NaN and `-0.0`, puts every other value in `0.0..=1.0`,
/// and clamping twice is clamping once.
pub proof fn lemma_clamp_in_unit(b: u32)
    ensures
        is_nan_bits(b) ==> clamp_unit(b) == b,
        !is_nan_bits(b) ==> clamp_unit(b) <= UNITY || clamp_unit(b) == 0x8000_0000,
        clamp_unit(clamp_unit(b)) == clamp_unit(b),
{
}

/// A volume that is set is the volume read back, clamped to `0.0..=1.0`.
pub proof fn lemma_set_then_get(m: MixerModel, id: Seq<char>, volume: u32)
    ensures
        volume_of(
            MixerModel { volumes: volumes_after_set(m, id, clamp_unit(volume)), ..m },
            id,
        ) == clamp_unit(volume),
{
}

/// In sync mode, setting the master's volume gives every device that volume.
pub proof fn lemma_sync_master_sets_all(m: MixerModel, id: Seq<char>, volume: u32)
    requires
        m.sync_mode,
        m.master == Some(id),
    ensures
        volumes_after_set(m, id, clamp_unit(volume)).dom() == m.volumes.dom().insert(id),
        forall|k: Seq<char>| #[trigger]
            volumes_after_set(m, id, clamp_unit(volume)).dom().contains(k) ==> volumes_after_set(
                m,
                id,
                clamp_unit(volume),
            )[k] == clamp_unit(volume),
{
    assert(volumes_after_set(m, id, clamp_unit(volume)).dom() =~= m.volumes.dom().insert(id));
}

/// Unless it is the master's in sync mode, setting a device's volume leaves
/// every other device's volume as it was.
pub proof fn lemma_set_leaves_others(m: MixerModel, id: Seq<char>, volume: u32, other: Seq<char>)
    requires
        !(m.sync_mode && m.master == Some(id)),
        other != id,
    ensures
        volume_of(
            MixerModel { volumes: volumes_after_set(m, id, clamp_unit(volume)), ..m },
            other,
        ) == volume_of(m, other),
{
}

} // verus!
