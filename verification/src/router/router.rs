//! The router's state and the decisions it takes.  Querying and switching the
//! system's default device and running the capture loop are outside work: the
//! caller performs it and hands the results to the steps below.
use vstd::prelude::*;

use super::delay_buffer::{delay_fits, delay_samples_for, DelayBuffer, DelayModel};
use super::device_table::DeviceTable;
use super::{
    copy_opt_string, devices_view, opt_view, RouterConfig, RouterDevice, RouterDeviceModel,
    RouterStatus, ValidationResult, VirtualDeviceStatus,
};
use crate::text::{chars_of, starts_with_chars, str_eq, substring, trim_bounds, trimmed};
use vstd::string::StringExecFns;

verus! {

broadcast use vstd::string::group_string_axioms;

/// The sample rate the router starts with.
pub const DEFAULT_SAMPLE_RATE: u32 = 48000;

/// The number of channels the router starts with.
pub const DEFAULT_CHANNELS: u32 = 2;

/// The message when starting while already running.
pub open spec fn already_running_message() -> Seq<char> {
    "Router already running"@
}

/// The message when starting without the virtual cable.
pub open spec fn no_cable_message() -> Seq<char> {
    "未检测到 VB-Cable 虚拟设备，请先安装 VB-Cable"@
}

/// The message when no target remains once the cable is left out.
pub open spec fn no_targets_message() -> Seq<char> {
    "没有有效的目标设备"@
}

/// The warning given when the default device is known.
pub open spec fn echo_warning() -> Seq<char> {
    "源设备将被自动排除以避免回音"@
}

/// The character sequences of the strings `v`.
pub open spec fn strings_view(v: Seq<String>) -> Seq<Seq<char>> {
    v.map_values(|s: String| s@)
}

/// The value that a cmdlet printed as `output`: the output trimmed, unless it
/// is empty or is the code page banner.
pub open spec fn cmdlet_value(output: Seq<char>) -> Option<Seq<char>> {
    let t = trimmed(output);
    if t.len() == 0 || "Active code page:"@.is_prefix_of(t) {
        None
    } else {
        Some(t)
    }
}

/// The targets `ts` without the cable `cable`, in order.
pub open spec fn targets_without(ts: Seq<Seq<char>>, cable: Seq<char>) -> Seq<Seq<char>> {
    ts.filter(|t: Seq<char>| t != cable)
}

/// Whether the configured device `d` is routed to when `targets` are the targets.
pub open spec fn is_routed(d: RouterDeviceModel, targets: Seq<Seq<char>>) -> bool {
    d.enabled && targets.contains(d.id)
}

/// The volume of each routed device; a later entry for the same id wins.
pub open spec fn routed_volumes(devs: Seq<RouterDeviceModel>, targets: Seq<Seq<char>>) -> Map<
    Seq<char>,
    u32,
>
    decreases devs.len(),
{
    if devs.len() == 0 {
        Map::empty()
    } else {
        let m = routed_volumes(devs.drop_last(), targets);
        if is_routed(devs.last(), targets) {
            m.insert(devs.last().id, devs.last().volume)
        } else {
            m
        }
    }
}

/// The delay of each routed device; a later entry for the same id wins.
pub open spec fn routed_delays(devs: Seq<RouterDeviceModel>, targets: Seq<Seq<char>>) -> Map<
    Seq<char>,
    u32,
>
    decreases devs.len(),
{
    if devs.len() == 0 {
        Map::empty()
    } else {
        let m = routed_delays(devs.drop_last(), targets);
        if is_routed(devs.last(), targets) {
            m.insert(devs.last().id, devs.last().delay_ms)
        } else {
            m
        }
    }
}

/// A fresh delay line for each routed device; a later entry for the same id wins.
pub open spec fn routed_buffers(
    devs: Seq<RouterDeviceModel>,
    targets: Seq<Seq<char>>,
    sample_rate: u32,
    channels: u32,
) -> Map<Seq<char>, DelayModel>
    decreases devs.len(),
{
    if devs.len() == 0 {
        Map::empty()
    } else {
        let m = routed_buffers(devs.drop_last(), targets, sample_rate, channels);
        let d = devs.last();
        if is_routed(d, targets) {
            m.insert(
                d.id,
                DelayModel {
                    queue: Seq::empty(),
                    delay: delay_samples_for(d.delay_ms, sample_rate, channels as usize) as nat,
                    channels: channels as nat,
                },
            )
        } else {
            m
        }
    }
}

/// The position of the first configured device with id `id`.
pub open spec fn device_index(devs: Seq<RouterDeviceModel>, id: Seq<char>) -> Option<int> {
    devs.map_values(|d: RouterDeviceModel| d.id).index_of_first(id)
}

/// The configured devices after setting the volume of the first with id `id`.
pub open spec fn with_volume(devs: Seq<RouterDeviceModel>, id: Seq<char>, volume: u32) -> Seq<
    RouterDeviceModel,
> {
    match device_index(devs, id) {
        Some(i) => devs.update(i, RouterDeviceModel { volume, ..devs[i] }),
        None => devs,
    }
}

/// The configured devices after setting the delay of the first with id `id`.
pub open spec fn with_delay(devs: Seq<RouterDeviceModel>, id: Seq<char>, delay_ms: u32) -> Seq<
    RouterDeviceModel,
> {
    match device_index(devs, id) {
        Some(i) => devs.update(i, RouterDeviceModel { delay_ms, ..devs[i] }),
        None => devs,
    }
}

/// The model of an [`AudioRouter`].
pub struct RouterModel {
    pub devices: Seq<RouterDeviceModel>,
    pub source_device_id: Option<Seq<char>>,
    pub source_device_name: Option<Seq<char>>,
    pub running: bool,
    pub buffers: Map<Seq<char>, DelayModel>,
    pub sample_rate: u32,
    pub channels: u32,
    pub vb_cable_id: Option<Seq<char>>,
    pub original_default: Option<Seq<char>>,
    pub volumes: Map<Seq<char>, u32>,
    pub delays: Map<Seq<char>, u32>,
}

/// Every delay of a device that starting with `targets` routes to fits the
/// machine at the router's rate and channels.
pub open spec fn start_delays_fit_model(m: RouterModel, targets: Seq<Seq<char>>) -> bool {
    forall|i: int|
        0 <= i < m.devices.len() && is_routed(#[trigger] m.devices[i], start_targets(m, targets))
            ==> delay_fits(m.devices[i].delay_ms, m.sample_rate, m.channels as usize)
}

/// Whether setting the delay of `id` to `delay_ms` fits the machine: it is
/// computed only for a device that has a delay line.
pub open spec fn delay_change_fits_model(m: RouterModel, id: Seq<char>, delay_ms: u32) -> bool {
    m.buffers.dom().contains(id) ==> delay_fits(delay_ms, m.sample_rate, m.channels as usize)
}

/// The router as it stands after setting the volume of `id` to `volume`.
pub open spec fn after_set_volume(m: RouterModel, id: Seq<char>, volume: u32) -> RouterModel {
    RouterModel {
        devices: with_volume(m.devices, id, volume),
        volumes: m.volumes.insert(id, volume),
        ..m
    }
}

/// The router as it stands after setting the delay of `id` to `delay_ms`.
pub open spec fn after_set_delay(m: RouterModel, id: Seq<char>, delay_ms: u32) -> RouterModel {
    RouterModel {
        devices: with_delay(m.devices, id, delay_ms),
        delays: m.delays.insert(id, delay_ms),
        buffers: if m.buffers.dom().contains(id) {
            m.buffers.insert(
                id,
                DelayModel {
                    delay: delay_samples_for(delay_ms, m.sample_rate, m.channels as usize) as nat,
                    ..m.buffers[id]
                },
            )
        } else {
            m.buffers
        },
        ..m
    }
}

/// The router as it stands after its configuration became `devices`.
pub open spec fn after_update_config(m: RouterModel, devices: Seq<RouterDeviceModel>) -> RouterModel {
    RouterModel { devices, ..m }
}

/// A router just made, with the virtual cable `vb_cable_id`.
pub open spec fn initial_model(vb_cable_id: Option<Seq<char>>) -> RouterModel {
    RouterModel {
        devices: Seq::empty(),
        source_device_id: None,
        source_device_name: None,
        running: false,
        buffers: Map::empty(),
        sample_rate: DEFAULT_SAMPLE_RATE,
        channels: DEFAULT_CHANNELS,
        vb_cable_id,
        original_default: None,
        volumes: Map::empty(),
        delays: Map::empty(),
    }
}

/// The targets that starting with `targets` routes to: all but the cable.
pub open spec fn start_targets(m: RouterModel, targets: Seq<Seq<char>>) -> Seq<Seq<char>> {
    targets_without(targets, m.vb_cable_id->0)
}

/// The router as it stands after remembering `current_default` as the
/// default device to restore.
pub open spec fn after_record(m: RouterModel, current_default: Seq<char>) -> RouterModel {
    RouterModel { original_default: Some(current_default), ..m }
}

/// The router as it stands after the last step of starting with `targets`,
/// the cable being named `source_name`: the cable is the source; when some
/// target remains it runs, with a fresh delay line, volume and delay for each
/// routed device.
pub open spec fn after_finish_start(
    m: RouterModel,
    targets: Seq<Seq<char>>,
    source_name: Option<Seq<char>>,
) -> RouterModel {
    let valid = start_targets(m, targets);
    let base = RouterModel {
        source_device_id: Some(m.vb_cable_id->0),
        source_device_name: source_name,
        ..m
    };
    if valid.len() == 0 {
        base
    } else {
        RouterModel {
            running: true,
            buffers: routed_buffers(m.devices, valid, m.sample_rate, m.channels),
            volumes: routed_volumes(m.devices, valid),
            delays: routed_delays(m.devices, valid),
            ..base
        }
    }
}

/// The router as it stands after `stop`.
pub open spec fn stopped(m: RouterModel) -> RouterModel {
    RouterModel { running: false, buffers: Map::empty(), original_default: None, ..m }
}

/// The audio router's state.
pub struct AudioRouter {
    config: RouterConfig,
    source_device_id: Option<String>,
    source_device_name: Option<String>,
    running: bool,
    delay_buffers: DeviceTable<DelayBuffer>,
    sample_rate: u32,
    channels: u32,
    vb_cable_id: Option<String>,
    original_default_device_id: Option<String>,
    shared_volumes: DeviceTable<u32>,
    shared_delays: DeviceTable<u32>,
}

impl View for AudioRouter {
    type V = RouterModel;

    closed spec fn view(&self) -> RouterModel {
        RouterModel {
            devices: self.config@,
            source_device_id: opt_view(self.source_device_id),
            source_device_name: opt_view(self.source_device_name),
            running: self.running,
            buffers: self.delay_buffers@.map_values(|b: DelayBuffer| b@),
            sample_rate: self.sample_rate,
            channels: self.channels,
            vb_cable_id: opt_view(self.vb_cable_id),
            original_default: opt_view(self.original_default_device_id),
            volumes: self.shared_volumes@,
            delays: self.shared_delays@,
        }
    }
}

/// The value that a cmdlet printed as `output`: the output trimmed, unless it
/// is empty or is the code page banner.
pub fn parse_cmdlet_value(output: &str) -> (r: Option<String>)
    ensures
        opt_view(r) == cmdlet_value(output@),
{
    let cs = chars_of(output);
    let (a, b) = trim_bounds(&cs);
    let t = substring(output, a, b);
    let tc = chars_of(t.as_str());
    let banner = chars_of("Active code page:");
    if tc.len() == 0 || starts_with_chars(&tc, &banner) {
        None
    } else {
        Some(t)
    }
}

/// Whether `ids` holds `id`.
fn ids_contain(ids: &Vec<String>, id: &str) -> (r: bool)
    ensures
        r == strings_view(ids@).contains(id@),
{
    let mut i: usize = 0;
    while i < ids.len()
        invariant
            i <= ids@.len(),
            forall|j: int| 0 <= j < i ==> ids@[j]@ != id@,
        decreases ids@.len() - i,
    {
        if str_eq(ids[i].as_str(), id) {
            assert(strings_view(ids@)[i as int] == id@);
            return true;
        }
        i = i + 1;
    }
    assert forall|j: int| 0 <= j < strings_view(ids@).len() implies strings_view(ids@)[j] != id@ by {
        assert(strings_view(ids@)[j] == ids@[j]@);
    }
    false
}

/// The targets `targets` without `cable`, in order.
fn targets_without_cable(targets: &Vec<String>, cable: &str) -> (r: Vec<String>)
    ensures
        strings_view(r@) == targets_without(strings_view(targets@), cable@),
{
    let ghost pred = |t: Seq<char>| t != cable@;
    let mut valid: Vec<String> = Vec::new();
    let mut i: usize = 0;
    while i < targets.len()
        invariant
            i <= targets@.len(),
            pred == (|t: Seq<char>| t != cable@),
            strings_view(valid@) == strings_view(targets@.take(i as int)).filter(pred),
        decreases targets@.len() - i,
    {
        let ghost before = strings_view(valid@);
        proof {
            reveal(Seq::filter);
            assert(strings_view(targets@.take(i + 1)).drop_last() =~= strings_view(
                targets@.take(i as int),
            ));
            assert(strings_view(targets@.take(i + 1)).last() == targets@[i as int]@);
        }
        if !str_eq(targets[i].as_str(), cable) {
            valid.push(String::from_str(targets[i].as_str()));
            assert(strings_view(valid@) =~= before.push(targets@[i as int]@));
        }
        i = i + 1;
    }
    assert(targets@.take(targets@.len() as int) =~= targets@);
    valid
}

/// Whether the configured device `device` is routed to when `targets` are
/// the targets: it is enabled and among them.
pub fn routes_to(device: &RouterDevice, targets: &Vec<String>) -> (r: bool)
    ensures
        r == is_routed(device@, strings_view(targets@)),
{
    device.enabled && ids_contain(targets, device.id.as_str())
}

/// The position of the first device of `devs` with id `id`.
fn find_device(devs: &Vec<RouterDevice>, id: &str) -> (r: Option<usize>)
    ensures
        match r {
            Some(i) => i < devs@.len() && device_index(devices_view(devs@), id@) == Some(i as int),
            None => device_index(devices_view(devs@), id@) is None,
        },
{
    let ghost ids = devices_view(devs@).map_values(|d: RouterDeviceModel| d.id);
    proof {
        ids.index_of_first_ensures(id@);
    }
    let mut i: usize = 0;
    while i < devs.len()
        invariant
            i <= devs@.len(),
            ids == devices_view(devs@).map_values(|d: RouterDeviceModel| d.id),
            forall|j: int| 0 <= j < i ==> ids[j] != id@,
        decreases devs@.len() - i,
    {
        if str_eq(devs[i].id.as_str(), id) {
            proof {
                crate::text::lemma_first_index_is(ids, id@, i as int);
            }
            return Some(i);
        }
        i = i + 1;
    }
    proof {
        crate::text::lemma_first_index_none(ids, id@);
    }
    None
}

impl AudioRouter {
    /// The router's tables are well formed and its delay lines have its channels.
    pub closed spec fn wf(&self) -> bool {
        &&& self.delay_buffers.wf()
        &&& self.shared_volumes.wf()
        &&& self.shared_delays.wf()
        &&& forall|k: Seq<char>| #[trigger]
            self.delay_buffers@.dom().contains(k) ==> self.delay_buffers@[k]@.channels
                == self.channels
    }

    /// A stopped router with an empty configuration; `vb_cable_id` is the
    /// virtual cable found on the system, if any.
    pub fn new(vb_cable_id: Option<String>) -> (r: Self)
        ensures
            r.wf(),
            r@ == initial_model(opt_view(vb_cable_id)),
    {
        let r = AudioRouter {
            config: RouterConfig::new(),
            source_device_id: None,
            source_device_name: None,
            running: false,
            delay_buffers: DeviceTable::new(),
            sample_rate: DEFAULT_SAMPLE_RATE,
            channels: DEFAULT_CHANNELS,
            vb_cable_id,
            original_default_device_id: None,
            shared_volumes: DeviceTable::new(),
            shared_delays: DeviceTable::new(),
        };
        assert(r.delay_buffers@.map_values(|b: DelayBuffer| b@) =~= Map::empty());
        r
    }

    /// The id of the virtual cable, if one was found.
    pub fn vb_cable_id(&self) -> (r: Option<String>)
        ensures
            opt_view(r) == self@.vb_cable_id,
    {
        copy_opt_string(&self.vb_cable_id)
    }

    /// The cable's status; `device_name` is the name the system gives the
    /// cable (looked up only when there is a cable).
    pub fn get_virtual_device_status(&self, device_name: Option<String>) -> (r: VirtualDeviceStatus)
        ensures
            r.is_installed == self@.vb_cable_id is Some,
            opt_view(r.device_id) == self@.vb_cable_id,
            opt_view(r.device_name) == if self@.vb_cable_id is Some {
                opt_view(device_name)
            } else {
                None
            },
    {
        let is_installed = self.vb_cable_id.is_some();
        VirtualDeviceStatus {
            is_installed,
            device_id: copy_opt_string(&self.vb_cable_id),
            device_name: if is_installed {
                device_name
            } else {
                None
            },
        }
    }

    /// Checks `device_ids` against the system's default device `default_id`
    /// (`None` when it could not be found): the ids equal to it conflict.
    pub fn validate_targets(&self, device_ids: &[String], default_id: Option<String>) -> (r:
        ValidationResult)
        ensures
            strings_view(r.conflict_devices@) == strings_view(device_ids@).filter(
                |t: Seq<char>| Some(t) == opt_view(default_id),
            ),
            r.has_conflicts == (r.conflict_devices@.len() > 0),
            r.warning@ == if default_id is Some {
                echo_warning()
            } else {
                Seq::<char>::empty()
            },
    {
        let ghost pred = |t: Seq<char>| Some(t) == opt_view(default_id);
        let mut conflicts: Vec<String> = Vec::new();
        let mut i: usize = 0;
        while i < device_ids.len()
            invariant
                i <= device_ids@.len(),
                pred == (|t: Seq<char>| Some(t) == opt_view(default_id)),
                strings_view(conflicts@) == strings_view(device_ids@.take(i as int)).filter(pred),
            decreases device_ids@.len() - i,
        {
            let ghost before = strings_view(conflicts@);
            let same = match &default_id {
                Some(d) => str_eq(device_ids[i].as_str(), d.as_str()),
                None => false,
            };
            proof {
                reveal(Seq::filter);
                assert(strings_view(device_ids@.take(i + 1)).drop_last() =~= strings_view(
                    device_ids@.take(i as int),
                ));
                assert(strings_view(device_ids@.take(i + 1)).last() == device_ids@[i as int]@);
            }
            if same {
                conflicts.push(String::from_str(device_ids[i].as_str()));
                assert(strings_view(conflicts@) =~= before.push(device_ids@[i as int]@));
            }
            i = i + 1;
        }
        assert(device_ids@.take(device_ids@.len() as int) =~= device_ids@);
        let warning = match &default_id {
            Some(_) => String::from_str("源设备将被自动排除以避免回音"),
            None => String::new(),
        };
        ValidationResult { has_conflicts: conflicts.len() > 0, conflict_devices: conflicts, warning }
    }

    /// The first step of starting: refuses while running and without the
    /// cable; otherwise gives the cable's id.
    pub fn start_check(&self) -> (r: Result<String, String>)
        ensures
            self@.running ==> (r matches Err(e) && e@ == already_running_message()),
            !self@.running && self@.vb_cable_id is None ==> (r matches Err(e) && e@
                == no_cable_message()),
            !self@.running && self@.vb_cable_id is Some ==> (r matches Ok(id) && Some(id@)
                == self@.vb_cable_id),
    {
        if self.running {
            return Err(String::from_str("Router already running"));
        }
        match &self.vb_cable_id {
            Some(id) => Ok(String::from_str(id.as_str())),
            None => Err(String::from_str("未检测到 VB-Cable 虚拟设备，请先安装 VB-Cable")),
        }
    }

    /// The second step of starting: remembers `current_default`, the system's
    /// default device, and tells whether the cable must be made the default.
    pub fn record_original_default(&mut self, current_default: String) -> (switch: bool)
        requires
            old(self).wf(),
            old(self)@.vb_cable_id is Some,
        ensures
            final(self).wf(),
            final(self)@ == after_record(old(self)@, current_default@),
            switch == (Some(current_default@) != old(self)@.vb_cable_id),
    {
        let switch = match &self.vb_cable_id {
            Some(id) => !str_eq(current_default.as_str(), id.as_str()),
            None => false,
        };
        self.original_default_device_id = Some(current_default);
        switch
    }

    /// Whether the delay of every device that starting with
    /// `target_device_ids` routes to fits the machine.
    pub fn start_delays_fit(&self, target_device_ids: &Vec<String>) -> (r: bool)
        requires
            self@.vb_cable_id is Some,
        ensures
            r == start_delays_fit_model(self@, strings_view(target_device_ids@)),
    {
        let cable = match &self.vb_cable_id {
            Some(id) => String::from_str(id.as_str()),
            None => String::new(),
        };
        let valid = targets_without_cable(target_device_ids, cable.as_str());
        let ghost vs = strings_view(valid@);
        let mut i: usize = 0;
        while i < self.config.devices.len()
            invariant
                i <= self.config.devices@.len(),
                vs == strings_view(valid@),
                vs == start_targets(self@, strings_view(target_device_ids@)),
                forall|j: int|
                    0 <= j < i && is_routed(#[trigger] self@.devices[j], vs) ==> delay_fits(
                        self@.devices[j].delay_ms,
                        self.sample_rate,
                        self.channels as usize,
                    ),
            decreases self.config.devices@.len() - i,
        {
            assert(self@.devices[i as int] == self.config.devices@[i as int]@);
            if self.config.devices[i].enabled && ids_contain(
                &valid,
                self.config.devices[i].id.as_str(),
            ) && !super::delay_buffer::delay_fits_exec(
                self.config.devices[i].delay_ms,
                self.sample_rate,
                self.channels as usize,
            ) {
                return false;
            }
            i = i + 1;
        }
        true
    }

    /// Whether setting the delay of `device_id` to `delay_ms` fits the machine.
    pub fn delay_change_fits(&self, device_id: &str, delay_ms: u32) -> (r: bool)
        requires
            self.wf(),
        ensures
            r == delay_change_fits_model(self@, device_id@, delay_ms),
    {
        !self.delay_buffers.contains_key(device_id) || super::delay_buffer::delay_fits_exec(
            delay_ms,
            self.sample_rate,
            self.channels as usize,
        )
    }

    /// The last step of starting, once the cable is the default device:
    /// records the cable as the source (named `source_device_name`) and routes
    /// to `target_device_ids` without the cable.  With no target left it gives
    /// the device to restore as the default and the message to fail with.
    pub fn finish_start(&mut self, target_device_ids: Vec<String>, source_device_name: Option<
        String,
    >) -> (r: Result<Vec<String>, (Option<String>, String)>)
        requires
            old(self).wf(),
            old(self)@.vb_cable_id is Some,
            start_delays_fit_model(old(self)@, strings_view(target_device_ids@)),
        ensures
            final(self).wf(),
            final(self)@ == after_finish_start(
                old(self)@,
                strings_view(target_device_ids@),
                opt_view(source_device_name),
            ),
            ({
                let valid = start_targets(old(self)@, strings_view(target_device_ids@));
                &&& valid.len() == 0 ==> (r matches Err(e) && opt_view(e.0) == old(
                    self,
                )@.original_default && e.1@ == no_targets_message())
                &&& valid.len() > 0 ==> (r matches Ok(v) && strings_view(v@) == valid)
            }),
    {
        let cable = match &self.vb_cable_id {
            Some(id) => String::from_str(id.as_str()),
            None => String::new(),
        };
        let valid = targets_without_cable(&target_device_ids, cable.as_str());
        if valid.len() == 0 {
            self.source_device_id = Some(String::from_str(cable.as_str()));
            self.source_device_name = source_device_name;
            return Err(
                (
                    copy_opt_string(&self.original_default_device_id),
                    String::from_str("没有有效的目标设备"),
                ),
            );
        }
        self.delay_buffers.clear();
        self.shared_volumes.clear();
        self.shared_delays.clear();
        let ghost devs = self.config@;
        let ghost vs = strings_view(valid@);
        let mut k: usize = 0;
        while k < self.config.devices.len()
            invariant
                k <= self.config.devices@.len(),
                devs == self.config@,
                vs == strings_view(valid@),
                vs == start_targets(old(self)@, strings_view(target_device_ids@)),
                start_delays_fit_model(old(self)@, strings_view(target_device_ids@)),
                devs == old(self)@.devices,
                self.sample_rate == old(self).sample_rate,
                self.channels == old(self).channels,
                self.vb_cable_id == old(self).vb_cable_id,
                self.original_default_device_id == old(self).original_default_device_id,
                self.running == old(self).running,
                self.delay_buffers.wf(),
                self.shared_volumes.wf(),
                self.shared_delays.wf(),
                forall|key: Seq<char>| #[trigger]
                    self.delay_buffers@.dom().contains(key) ==> self.delay_buffers@[key]@.channels
                        == self.channels,
                self.delay_buffers@.map_values(|b: DelayBuffer| b@) == routed_buffers(
                    devs.take(k as int),
                    vs,
                    self.sample_rate,
                    self.channels,
                ),
                self.shared_volumes@ == routed_volumes(devs.take(k as int), vs),
                self.shared_delays@ == routed_delays(devs.take(k as int), vs),
            decreases self.config.devices@.len() - k,
        {
            let ghost d = devs[k as int];
            assert(devs.take(k + 1).drop_last() =~= devs.take(k as int));
            assert(devs.take(k + 1).last() == d);
            assert(d == self.config.devices@[k as int]@);
            let enabled = self.config.devices[k].enabled;
            if enabled && ids_contain(&valid, self.config.devices[k].id.as_str()) {
                assert(is_routed(old(self)@.devices[k as int], vs));
                assert(delay_fits(d.delay_ms, self.sample_rate, self.channels as usize));
                let ghost before_b = self.delay_buffers@.map_values(|b: DelayBuffer| b@);
                let buffer = DelayBuffer::new(
                    self.config.devices[k].delay_ms,
                    self.sample_rate,
                    self.channels as usize,
                );
                let id = String::from_str(self.config.devices[k].id.as_str());
                self.delay_buffers.insert(id, buffer);
                assert(self.delay_buffers@.map_values(|b: DelayBuffer| b@) =~= before_b.insert(
                    d.id,
                    buffer@,
                ));
                let vol = self.config.devices[k].volume;
                let delay = self.config.devices[k].delay_ms;
                self.shared_volumes.insert(String::from_str(self.config.devices[k].id.as_str()), vol);
                self.shared_delays.insert(
                    String::from_str(self.config.devices[k].id.as_str()),
                    delay,
                );
            }
            k = k + 1;
        }
        assert(devs.take(self.config.devices@.len() as int) =~= devs);
        self.source_device_id = Some(String::from_str(cable.as_str()));
        self.source_device_name = source_device_name;
        self.running = true;
        Ok(valid)
    }

    /// Stops routing: clears the delay lines and forgets the remembered
    /// default device, which it gives back to be restored.
    pub fn stop(&mut self) -> (restore: Option<String>)
        requires
            old(self).wf(),
        ensures
            final(self).wf(),
            final(self)@ == stopped(old(self)@),
            opt_view(restore) == old(self)@.original_default,
    {
        self.running = false;
        self.delay_buffers.clear();
        assert(self.delay_buffers@.map_values(|b: DelayBuffer| b@) =~= Map::empty());
        let restore = copy_opt_string(&self.original_default_device_id);
        self.original_default_device_id = None;
        restore
    }

    /// Whether the router is running.
    pub fn is_running(&self) -> (r: bool)
        ensures
            r == self@.running,
    {
        self.running
    }

    /// The router's status.
    pub fn get_status(&self) -> (r: RouterStatus)
        ensures
            r.is_running == self@.running,
            opt_view(r.source_device_id) == self@.source_device_id,
            opt_view(r.source_device_name) == self@.source_device_name,
            devices_view(r.target_devices@) == self@.devices,
            opt_view(r.vb_cable_id) == self@.vb_cable_id,
            opt_view(r.original_default_device_id) == self@.original_default,
    {
        RouterStatus {
            is_running: self.running,
            source_device_id: copy_opt_string(&self.source_device_id),
            source_device_name: copy_opt_string(&self.source_device_name),
            target_devices: super::duplicate_devices(&self.config.devices),
            vb_cable_id: copy_opt_string(&self.vb_cable_id),
            original_default_device_id: copy_opt_string(&self.original_default_device_id),
        }
    }

    /// Sets the volume (a binary32 bit pattern) of the first configured device
    /// with id `device_id`, and the volume the routing loop reads for it.
    pub fn set_device_volume(&mut self, device_id: &str, volume: u32)
        requires
            old(self).wf(),
        ensures
            final(self).wf(),
            final(self)@ == after_set_volume(old(self)@, device_id@, volume),
    {
        let ghost devs = self.config@;
        match find_device(&self.config.devices, device_id) {
            Some(i) => {
                let mut d = self.config.devices[i].duplicate();
                d.volume = volume;
                self.config.devices.set(i, d);
                assert(self.config@ =~= with_volume(devs, device_id@, volume));
            },
            None => {},
        }
        self.shared_volumes.insert(String::from_str(device_id), volume);
    }

    /// Sets the delay of `device_id`: of its delay line, of the first
    /// configured device with that id, and the delay the routing loop reads.
    pub fn set_device_delay(&mut self, device_id: &str, delay_ms: u32)
        requires
            old(self).wf(),
            delay_change_fits_model(old(self)@, device_id@, delay_ms),
        ensures
            final(self).wf(),
            final(self)@ == after_set_delay(old(self)@, device_id@, delay_ms),
    {
        let ghost b0 = self.delay_buffers@.map_values(|b: DelayBuffer| b@);
        let found = self.delay_buffers.remove_entry(device_id);
        match found {
            Some(mut buffer) => {
                buffer.set_delay(delay_ms, self.sample_rate);
                let ghost nb = buffer@;
                self.delay_buffers.insert(String::from_str(device_id), buffer);
                assert(self.delay_buffers@.map_values(|b: DelayBuffer| b@) =~= b0.insert(
                    device_id@,
                    nb,
                ));
            },
            None => {
                assert(self.delay_buffers@.map_values(|b: DelayBuffer| b@) =~= b0);
            },
        }
        let ghost devs = self.config@;
        match find_device(&self.config.devices, device_id) {
            Some(i) => {
                let mut d = self.config.devices[i].duplicate();
                d.delay_ms = delay_ms;
                self.config.devices.set(i, d);
                assert(self.config@ =~= with_delay(devs, device_id@, delay_ms));
            },
            None => {},
        }
        self.shared_delays.insert(String::from_str(device_id), delay_ms);
    }

    /// Replaces the configuration.
    pub fn update_config(&mut self, config: RouterConfig)
        requires
            old(self).wf(),
        ensures
            final(self).wf(),
            final(self)@ == after_update_config(old(self)@, config@),
    {
        self.config = config;
    }

    /// The configuration.
    pub fn get_config(&self) -> (r: &RouterConfig)
        ensures
            r@ == self@.devices,
    {
        &self.config
    }

    /// The volumes the routing loop reads, by device id.
    pub fn shared_volumes(&self) -> (r: &DeviceTable<u32>)
        requires
            self.wf(),
        ensures
            r.wf(),
            r@ == self@.volumes,
    {
        &self.shared_volumes
    }

    /// The delays the routing loop reads, by device id.
    pub fn shared_delays(&self) -> (r: &DeviceTable<u32>)
        requires
            self.wf(),
        ensures
            r.wf(),
            r@ == self@.delays,
    {
        &self.shared_delays
    }
}

/// Stopping after a start hands back the default device that the start
/// found: whatever the targets, the router keeps `current_default` through
/// the last step of starting (also when no target remains), and `stop`
/// gives it back, forgets it and leaves the router stopped.
pub proof fn lemma_stop_restores_default(
    m: RouterModel,
    current_default: Seq<char>,
    targets: Seq<Seq<char>>,
    source_name: Option<Seq<char>>,
)
    requires
        m.vb_cable_id is Some,
    ensures
        after_finish_start(after_record(m, current_default), targets, source_name).original_default
            == Some(current_default),
        stopped(after_finish_start(after_record(m, current_default), targets, source_name)).original_default is None,
        !stopped(after_finish_start(after_record(m, current_default), targets, source_name)).running,
{
}

/// The keys of the routed tables are targets.
proof fn lemma_routed_keys(
    devs: Seq<RouterDeviceModel>,
    valid: Seq<Seq<char>>,
    sample_rate: u32,
    channels: u32,
    k: Seq<char>,
)
    ensures
        routed_buffers(devs, valid, sample_rate, channels).dom().contains(k) <==> exists|i: int|
            0 <= i < devs.len() && (#[trigger] devs[i]).id == k && is_routed(devs[i], valid),
        routed_volumes(devs, valid).dom().contains(k) <==> exists|i: int|
            0 <= i < devs.len() && (#[trigger] devs[i]).id == k && is_routed(devs[i], valid),
        routed_delays(devs, valid).dom().contains(k) <==> exists|i: int|
            0 <= i < devs.len() && (#[trigger] devs[i]).id == k && is_routed(devs[i], valid),
    decreases devs.len(),
{
    if devs.len() > 0 {
        let init = devs.drop_last();
        lemma_routed_keys(init, valid, sample_rate, channels, k);
        if exists|i: int| 0 <= i < devs.len() && (#[trigger] devs[i]).id == k && is_routed(devs[i], valid) {
            let i = choose|i: int| 0 <= i < devs.len() && (#[trigger] devs[i]).id == k && is_routed(devs[i], valid);
            if i < init.len() {
                assert(init[i] == devs[i]);
            }
        }
        if exists|i: int| 0 <= i < init.len() && (#[trigger] init[i]).id == k && is_routed(init[i], valid) {
            let i = choose|i: int| 0 <= i < init.len() && (#[trigger] init[i]).id == k && is_routed(init[i], valid);
            assert(devs[i] == init[i]);
        }
    }
}

/// Delay lines, volumes and delays are kept exactly for the configured
/// devices that are enabled and among the targets a start routes to, and the
/// cable is never one of those targets.
pub proof fn lemma_routed_exactly(m: RouterModel, targets: Seq<Seq<char>>, source_name: Option<Seq<char>>)
    requires
        m.vb_cable_id is Some,
    ensures
        !start_targets(m, targets).contains(m.vb_cable_id->0),
        start_targets(m, targets).len() > 0 ==> {
            let after = after_finish_start(m, targets, source_name);
            let valid = start_targets(m, targets);
            forall|k: Seq<char>|
                {
                    &&& #[trigger] after.buffers.dom().contains(k) <==> exists|i: int|
                        0 <= i < m.devices.len() && (#[trigger] m.devices[i]).id == k && is_routed(
                            m.devices[i],
                            valid,
                        )
                    &&& after.volumes.dom().contains(k) == after.buffers.dom().contains(k)
                    &&& after.delays.dom().contains(k) == after.buffers.dom().contains(k)
                }
        },
{
    let cable = m.vb_cable_id->0;
    let pred = |t: Seq<char>| t != cable;
    let valid = start_targets(m, targets);
    if valid.contains(cable) {
        let i = choose|i: int| 0 <= i < valid.len() && valid[i] == cable;
        targets.lemma_filter_pred(pred, i);
    }
    if valid.len() > 0 {
        let after = after_finish_start(m, targets, source_name);
        assert forall|k: Seq<char>|
            {
                &&& #[trigger] after.buffers.dom().contains(k) <==> exists|i: int|
                    0 <= i < m.devices.len() && (#[trigger] m.devices[i]).id == k && is_routed(
                        m.devices[i],
                        valid,
                    )
                &&& after.volumes.dom().contains(k) == after.buffers.dom().contains(k)
                &&& after.delays.dom().contains(k) == after.buffers.dom().contains(k)
            } by {
            lemma_routed_keys(m.devices, valid, m.sample_rate, m.channels, k);
        }
    }
}

/// A call that changes a router: the steps of starting that change it, stopping,
/// and the setters.  (`start_check` and the getters change nothing.)
pub enum RouterCall {
    RecordDefault(Seq<char>),
    FinishStart(Seq<Seq<char>>, Option<Seq<char>>),
    Stop,
    SetVolume(Seq<char>, u32),
    SetDelay(Seq<char>, u32),
    UpdateConfig(Seq<RouterDeviceModel>),
}

/// The router as it stands after the call `c`, as the call's contract states
/// it.  The last step of starting can be called only with a cable.
pub open spec fn apply_call(m: RouterModel, c: RouterCall) -> RouterModel {
    match c {
        RouterCall::RecordDefault(current) => after_record(m, current),
        RouterCall::FinishStart(targets, name) => if m.vb_cable_id is Some {
            after_finish_start(m, targets, name)
        } else {
            m
        },
        RouterCall::Stop => stopped(m),
        RouterCall::SetVolume(id, volume) => after_set_volume(m, id, volume),
        RouterCall::SetDelay(id, delay_ms) => after_set_delay(m, id, delay_ms),
        RouterCall::UpdateConfig(devices) => after_update_config(m, devices),
    }
}

/// The router as it stands after the calls `calls`, in order.
pub open spec fn run_calls(m: RouterModel, calls: Seq<RouterCall>) -> RouterModel
    decreases calls.len(),
{
    if calls.len() == 0 {
        m
    } else {
        apply_call(run_calls(m, calls.drop_last()), calls.last())
    }
}

/// Whether the call `c` is a start that succeeds on a router with the cable
/// `vb_cable_id`: some target other than the cable is given.
pub open spec fn start_succeeds(vb_cable_id: Option<Seq<char>>, c: RouterCall) -> bool {
    match c {
        RouterCall::FinishStart(targets, _) => vb_cable_id is Some && targets_without(
            targets,
            vb_cable_id->0,
        ).len() > 0,
        _ => false,
    }
}

/// Whether some start among `calls` succeeded and no stop came after it.
pub open spec fn started_since_last_stop(vb_cable_id: Option<Seq<char>>, calls: Seq<RouterCall>) -> bool {
    exists|i: int|
        0 <= i < calls.len() && #[trigger] start_succeeds(vb_cable_id, calls[i]) && forall|j: int|
            i < j < calls.len() ==> !(#[trigger] calls[j] is Stop)
}

/// Over any sequence of calls on a new router, the router runs exactly when
/// some start succeeded and no stop came after it: a start that fails leaves
/// the flag as it was, and nothing but `stop` clears it.  The cable stays the
/// one the router was made with.
pub proof fn lemma_running_follows_starts(vb_cable_id: Option<Seq<char>>, calls: Seq<RouterCall>)
    ensures
        run_calls(initial_model(vb_cable_id), calls).running == started_since_last_stop(
            vb_cable_id,
            calls,
        ),
        run_calls(initial_model(vb_cable_id), calls).vb_cable_id == vb_cable_id,
    decreases calls.len(),
{
    if calls.len() > 0 {
        let prefix = calls.drop_last();
        let last = calls.last();
        let n = calls.len() - 1;
        lemma_running_follows_starts(vb_cable_id, prefix);
        assert(calls[n] == last);
        assert forall|j: int| 0 <= j < prefix.len() implies prefix[j] == calls[j] by {}
        if last is Stop {
            if started_since_last_stop(vb_cable_id, calls) {
                let i = choose|i: int|
                    0 <= i < calls.len() && #[trigger] start_succeeds(vb_cable_id, calls[i])
                        && forall|j: int| i < j < calls.len() ==> !(#[trigger] calls[j] is Stop);
                if i < n {
                    assert(!(calls[n] is Stop));
                }
            }
        } else if start_succeeds(vb_cable_id, last) {
            assert(start_succeeds(vb_cable_id, calls[n]));
        } else {
            if started_since_last_stop(vb_cable_id, calls) {
                let i = choose|i: int|
                    0 <= i < calls.len() && #[trigger] start_succeeds(vb_cable_id, calls[i])
                        && forall|j: int| i < j < calls.len() ==> !(#[trigger] calls[j] is Stop);
                assert(i < n);
                assert(start_succeeds(vb_cable_id, prefix[i]));
                assert forall|j: int| i < j < prefix.len() implies !(#[trigger] prefix[j] is Stop) by {
                    assert(prefix[j] == calls[j]);
                }
            }
            if started_since_last_stop(vb_cable_id, prefix) {
                let i = choose|i: int|
                    0 <= i < prefix.len() && #[trigger] start_succeeds(vb_cable_id, prefix[i])
                        && forall|j: int| i < j < prefix.len() ==> !(#[trigger] prefix[j] is Stop);
                assert(start_succeeds(vb_cable_id, calls[i]));
                assert forall|j: int| i < j < calls.len() implies !(#[trigger] calls[j] is Stop) by {
                    if j < n {
                        assert(prefix[j] == calls[j]);
                    }
                }
            }
        }
    }
}

/// Each routed id keeps the settings of the last configured device with that
/// id that is routed: its volume, its delay, and a fresh delay line for that
/// delay.
proof fn lemma_routed_settings_of(
    devs: Seq<RouterDeviceModel>,
    valid: Seq<Seq<char>>,
    sample_rate: u32,
    channels: u32,
    k: Seq<char>,
)
    ensures
        routed_volumes(devs, valid).dom().contains(k) ==> exists|j: int|
            0 <= j < devs.len() && (#[trigger] devs[j]).id == k && is_routed(devs[j], valid)
                && (forall|j2: int|
                j < j2 < devs.len() ==> !((#[trigger] devs[j2]).id == k && is_routed(
                    devs[j2],
                    valid,
                ))) && routed_volumes(devs, valid)[k] == devs[j].volume && routed_delays(
                devs,
                valid,
            )[k] == devs[j].delay_ms && routed_buffers(devs, valid, sample_rate, channels)[k]
                == (DelayModel {
                queue: Seq::empty(),
                delay: delay_samples_for(devs[j].delay_ms, sample_rate, channels as usize) as nat,
                channels: channels as nat,
            }),
    decreases devs.len(),
{
    lemma_routed_keys(devs, valid, sample_rate, channels, k);
    if devs.len() > 0 {
        let init = devs.drop_last();
        let d = devs.last();
        let n = devs.len() - 1;
        assert(devs[n] == d);
        if d.id == k && is_routed(d, valid) {
            assert(routed_volumes(devs, valid)[k] == d.volume);
        } else if routed_volumes(devs, valid).dom().contains(k) {
            lemma_routed_keys(init, valid, sample_rate, channels, k);
            lemma_routed_settings_of(init, valid, sample_rate, channels, k);
            let j = choose|j: int|
                0 <= j < init.len() && (#[trigger] init[j]).id == k && is_routed(init[j], valid)
                    && (forall|j2: int|
                    j < j2 < init.len() ==> !((#[trigger] init[j2]).id == k && is_routed(
                        init[j2],
                        valid,
                    ))) && routed_volumes(init, valid)[k] == init[j].volume && routed_delays(
                    init,
                    valid,
                )[k] == init[j].delay_ms && routed_buffers(init, valid, sample_rate, channels)[k]
                    == (DelayModel {
                    queue: Seq::empty(),
                    delay: delay_samples_for(init[j].delay_ms, sample_rate, channels as usize) as nat,
                    channels: channels as nat,
                });
            assert(devs[j] == init[j]);
            assert forall|j2: int| j < j2 < devs.len() implies !((#[trigger] devs[j2]).id == k
                && is_routed(devs[j2], valid)) by {
                if j2 < n {
                    assert(devs[j2] == init[j2]);
                }
            }
        }
    }
}

/// After a successful start, every routed id keeps exactly the settings of
/// the last configured device with that id that is routed: its own volume,
/// its own delay, and a fresh, empty delay line for that delay.
pub proof fn lemma_start_keeps_own_settings(
    m: RouterModel,
    targets: Seq<Seq<char>>,
    source_name: Option<Seq<char>>,
    k: Seq<char>,
)
    requires
        m.vb_cable_id is Some,
        start_targets(m, targets).len() > 0,
        after_finish_start(m, targets, source_name).volumes.dom().contains(k),
    ensures
        ({
            let after = after_finish_start(m, targets, source_name);
            let valid = start_targets(m, targets);
            exists|j: int|
                0 <= j < m.devices.len() && (#[trigger] m.devices[j]).id == k && is_routed(
                    m.devices[j],
                    valid,
                ) && (forall|j2: int|
                    j < j2 < m.devices.len() ==> !((#[trigger] m.devices[j2]).id == k
                        && is_routed(m.devices[j2], valid))) && after.volumes[k]
                    == m.devices[j].volume && after.delays[k] == m.devices[j].delay_ms
                    && after.buffers[k] == (DelayModel {
                    queue: Seq::empty(),
                    delay: delay_samples_for(
                        m.devices[j].delay_ms,
                        m.sample_rate,
                        m.channels as usize,
                    ) as nat,
                    channels: m.channels as nat,
                })
        }),
{
    lemma_routed_settings_of(
        m.devices,
        start_targets(m, targets),
        m.sample_rate,
        m.channels,
        k,
    );
}

} // verus!
