//! In-memory record of a discovered device: identity, channel and temp
//! catalogs, and the bounded ring of status snapshots that the shaping
//! functions read.

use vstd::prelude::*;

use crate::setting::CentiTemp;

verus! {

/// A stable device identifier.
pub type UID = String;

/// Index of a device within its family, 1-based.
pub type TypeIndex = u8;

/// Frequency in MHz.
pub type Mhz = u64;

/// Power in centiwatts (hundredths of a watt).
pub type CentiWatts = u64;

/// A duty reading in centi-percent (hundredths of a percent point).
pub type CentiDuty = i64;

/// The device families the engine manages.
#[derive(Debug, Clone, Copy, PartialEq, Eq, Structural)]
pub enum DeviceType {
    Liquidctl,
    Hwmon,
    CPU,
    GPU,
    CustomSensors,
}

/// The liquidctl driver families the engine distinguishes.
#[derive(Debug, Clone, Copy, PartialEq, Eq, Structural)]
pub enum BaseDriver {
    Modern690Lc,
    Legacy690Lc,
    Hydro690Lc,
    HydroPlatinum,
    HydroPro,
    KrakenZ3,
    SmartDevice2,
}

/// Extra information for devices driven through the liquidctl helper.
#[derive(Debug, Clone)]
pub struct LcInfo {
    pub driver_type: BaseDriver,
    pub firmware_version: Option<String>,
    /// Whether the user still has to say if this is a legacy Asetek 690LC.
    pub unknown_asetek: bool,
}

/// One temp reading inside a status snapshot.
#[derive(Debug)]
pub struct TempStatus {
    pub name: String,
    pub temp: CentiTemp,
}

impl Clone for TempStatus {
    fn clone(&self) -> (res: Self)
        ensures
            res@ == self@,
    {
        TempStatus { name: self.name.clone(), temp: self.temp }
    }
}

/// The ghost image of a `TempStatus`.
pub struct TempStatusV {
    pub name: Seq<char>,
    pub temp: CentiTemp,
}

impl View for TempStatus {
    type V = TempStatusV;

    open spec fn view(&self) -> TempStatusV {
        TempStatusV { name: self.name@, temp: self.temp }
    }
}

/// One channel reading inside a status snapshot.
#[derive(Debug)]
pub struct ChannelStatus {
    pub name: String,
    pub rpm: Option<u32>,
    pub duty: Option<CentiDuty>,
    pub watts: Option<CentiWatts>,
    pub freq: Option<Mhz>,
}

/// The ghost image of a `ChannelStatus`.
pub struct ChannelStatusV {
    pub name: Seq<char>,
    pub rpm: Option<u32>,
    pub duty: Option<CentiDuty>,
    pub watts: Option<CentiWatts>,
    pub freq: Option<Mhz>,
}

impl View for ChannelStatus {
    type V = ChannelStatusV;

    open spec fn view(&self) -> ChannelStatusV {
        ChannelStatusV {
            name: self.name@,
            rpm: self.rpm,
            duty: self.duty,
            watts: self.watts,
            freq: self.freq,
        }
    }
}

impl Clone for ChannelStatus {
    fn clone(&self) -> (res: Self)
        ensures
            res@ == self@,
    {
        ChannelStatus {
            name: self.name.clone(),
            rpm: self.rpm,
            duty: self.duty,
            watts: self.watts,
            freq: self.freq,
        }
    }
}

/// A snapshot of a device at one scheduler tick.
#[derive(Debug)]
pub struct Status {
    pub temps: Vec<TempStatus>,
    pub channels: Vec<ChannelStatus>,
}

impl Clone for Status {
    fn clone(&self) -> (res: Self)
        ensures
            res@ == self@,
    {
        let temps = self.temps.clone();
        let channels = self.channels.clone();
        proof {
            assert(temps@.map_values(|t: TempStatus| t@) =~= self.temps@.map_values(
                |t: TempStatus| t@,
            ));
            assert(channels@.map_values(|c: ChannelStatus| c@) =~= self.channels@.map_values(
                |c: ChannelStatus| c@,
            ));
        }
        Status { temps, channels }
    }
}

/// The ghost image of a `Status`.
pub struct StatusV {
    pub temps: Seq<TempStatusV>,
    pub channels: Seq<ChannelStatusV>,
}

impl View for Status {
    type V = StatusV;

    open spec fn view(&self) -> StatusV {
        StatusV {
            temps: self.temps@.map_values(|t: TempStatus| t@),
            channels: self.channels@.map_values(|c: ChannelStatus| c@),
        }
    }
}

impl Status {
    pub fn empty() -> (s: Status)
        ensures
            s@.temps == Seq::<TempStatusV>::empty(),
            s@.channels == Seq::<ChannelStatusV>::empty(),
    {
        Status { temps: Vec::new(), channels: Vec::new() }
    }
}

/// The latest reading of the sensor called `name` inside one snapshot:
/// the last matching entry, as the adapters append refinements at the end.
pub open spec fn spec_temp_in_status(temps: Seq<TempStatusV>, name: Seq<char>) -> Option<CentiTemp>
    decreases temps.len(),
{
    if temps.len() == 0 {
        None
    } else if temps.last().name == name {
        Some(temps.last().temp)
    } else {
        spec_temp_in_status(temps.drop_last(), name)
    }
}

/// Returns the reading of the sensor called `name` in `status`, if present.
pub fn get_temp_from_status(name: &String, status: &Status) -> (r: Option<CentiTemp>)
    ensures
        r == spec_temp_in_status(status@.temps, name@),
{
    let mut i: usize = status.temps.len();
    proof {
        assert(status@.temps.take(status@.temps.len() as int) =~= status@.temps);
    }
    while i > 0
        invariant
            i <= status.temps.len(),
            spec_temp_in_status(status@.temps, name@) == spec_temp_in_status(
                status@.temps.take(i as int),
                name@,
            ),
        decreases i,
    {
        proof {
            assert(status@.temps[i - 1] == status.temps@[i - 1]@);
            assert(status@.temps.take(i as int).last() == status@.temps[i - 1]);
            assert(status@.temps.take(i as int).drop_last() =~= status@.temps.take(i - 1));
        }
        if status.temps[i - 1].name == *name {
            return Some(status.temps[i - 1].temp);
        }
        i = i - 1;
    }
    assert(status@.temps.take(0) =~= Seq::<TempStatusV>::empty());
    None
}

/// Static description of one temp sensor.
#[derive(Debug, Clone)]
pub struct TempInfo {
    pub label: String,
    pub number: u8,
}

/// Legal speed-control modes of a channel.
#[derive(Debug, Clone, Copy, PartialEq, Eq, Structural)]
pub struct SpeedOptions {
    pub min_duty: u8,
    pub max_duty: u8,
    pub profiles_enabled: bool,
    pub fixed_enabled: bool,
    pub manual_profiles_enabled: bool,
}

/// One lighting mode a channel offers.
#[derive(Debug, Clone)]
pub struct LightingMode {
    pub name: String,
    pub min_colors: u8,
    pub max_colors: u8,
    pub speed_enabled: bool,
    pub backward_enabled: bool,
}

/// Static description of one channel.
#[derive(Debug, Clone)]
pub struct ChannelInfo {
    pub label: Option<String>,
    pub speed_options: Option<SpeedOptions>,
    pub lighting_modes: Vec<LightingMode>,
}

impl ChannelInfo {
    pub fn with_speed_options(speed_options: SpeedOptions) -> (c: ChannelInfo)
        ensures
            c.speed_options == Some(speed_options),
            c.label is None,
    {
        ChannelInfo { label: None, speed_options: Some(speed_options), lighting_modes: Vec::new() }
    }

    pub fn with_lighting_modes(lighting_modes: Vec<LightingMode>) -> (c: ChannelInfo)
        ensures
            c.lighting_modes == lighting_modes,
            c.label is None,
            c.speed_options is None,
    {
        ChannelInfo { label: None, speed_options: None, lighting_modes }
    }
}

/// Which driver stack serves a device.
#[derive(Debug, Clone, Copy, PartialEq, Eq, Structural)]
pub enum DriverType {
    Kernel,
    Liquidctl,
    Nvml,
    NvidiaCli,
    CoolerControl,
}

/// Driver identification for a device.
#[derive(Debug, Clone)]
pub struct DriverInfo {
    pub drv_type: DriverType,
    pub name: Option<String>,
    pub version: Option<String>,
    pub locations: Vec<String>,
}

/// Static catalog of a device: its channels, temps and limits.
/// Channel and temp catalogs keep their insertion order.
#[derive(Debug, Clone)]
pub struct DeviceInfo {
    pub channels: Vec<(String, ChannelInfo)>,
    pub temps: Vec<(String, TempInfo)>,
    pub lighting_speeds: Vec<String>,
    pub temp_min: u8,
    pub temp_max: u8,
    pub profile_max_length: u8,
    pub profile_min_length: u8,
    pub driver_info: DriverInfo,
}

/// A discovered device and its bounded history of snapshots, newest last.
#[derive(Debug)]
pub struct Device {
    pub name: String,
    pub d_type: DeviceType,
    pub type_index: TypeIndex,
    pub uid: UID,
    pub lc_info: Option<LcInfo>,
    pub info: DeviceInfo,
    pub status_history: Vec<Status>,
    /// How many snapshots the ring keeps; fixed when the history is
    /// initialized for a poll rate.
    pub status_history_max: usize,
}

/// A poll rate the engine accepts: between one millisecond and one minute.
pub open spec fn valid_poll_rate_ms(ms: u64) -> bool {
    1 <= ms <= 60000
}

/// Snapshots the ring must hold: the largest shaping window (16 samples)
/// plus the largest configurable response delay (255 s) divided by the poll
/// rate.
pub open spec fn spec_history_capacity(poll_rate_ms: u64) -> int
    recommends
        valid_poll_rate_ms(poll_rate_ms),
{
    16 + (255000 + poll_rate_ms - 1) / (poll_rate_ms as int)
}

/// The ring capacity for a poll rate: 16 samples plus ceil(255 s / poll).
pub fn history_capacity(poll_rate_ms: u64) -> (cap: usize)
    requires
        valid_poll_rate_ms(poll_rate_ms),
    ensures
        cap == spec_history_capacity(poll_rate_ms),
        cap >= 17,
{
    assert((255000 + poll_rate_ms - 1) as int / poll_rate_ms as int >= 1) by (nonlinear_arith)
        requires
            1 <= poll_rate_ms <= 60000,
    ;
    assert((255000 + poll_rate_ms - 1) as int / poll_rate_ms as int <= 314999) by (nonlinear_arith)
        requires
            1 <= poll_rate_ms <= 60000,
    ;
    let cap64: u64 = 16 + (255000 + poll_rate_ms - 1) / poll_rate_ms;
    cap64 as usize
}

impl Device {
    /// A fresh device record with an empty history.
    /// The uid is the given unique identifier where one was found, else the
    /// device name: stable identification is the discovery code's duty.
    pub fn new(
        name: String,
        d_type: DeviceType,
        type_index: TypeIndex,
        lc_info: Option<LcInfo>,
        info: DeviceInfo,
        unique_id: Option<String>,
    ) -> (d: Device)
        ensures
            d.name == name,
            d.d_type == d_type,
            d.type_index == type_index,
            d.lc_info == lc_info,
            d.info == info,
            d.status_history@.len() == 0,
            d.status_history_max >= 1,
            unique_id is Some ==> d.uid == unique_id->0,
            unique_id is None ==> d.uid@ == name@,
    {
        let uid: UID = match unique_id {
            Some(u) => u,
            None => name.clone(),
        };
        Device {
            name,
            d_type,
            type_index,
            uid,
            lc_info,
            info,
            status_history: Vec::new(),
            status_history_max: 17,
        }
    }

    pub open spec fn spec_uid(&self) -> Seq<char> {
        self.uid@
    }

    /// The device's stable identifier.
    pub fn get_uid(&self) -> (u: &UID)
        ensures
            u@ == self.spec_uid(),
    {
        &self.uid
    }

    /// The device's family.
    pub fn kind(&self) -> (k: DeviceType)
        ensures
            k == self.d_type,
    {
        self.d_type
    }

    /// The most recent snapshot, if any.
    pub fn status_current(&self) -> (s: Option<Status>)
        ensures
            self.status_history@.len() == 0 <==> s is None,
            self.status_history@.len() > 0 ==> s is Some && s->0@ == self.status_history@.last()@,
    {
        if self.status_history.len() == 0 {
            None
        } else {
            Some(self.status_history[self.status_history.len() - 1].clone())
        }
    }

    /// Restarts the history as a one-snapshot ring sized for the poll rate.
    pub fn initialize_status_history_with(&mut self, status: Status, poll_rate_ms: u64)
        requires
            valid_poll_rate_ms(poll_rate_ms),
        ensures
            final(self).status_history@ == seq![status],
            final(self).status_history_max == spec_history_capacity(poll_rate_ms),
            final(self).name == old(self).name,
            final(self).d_type == old(self).d_type,
            final(self).type_index == old(self).type_index,
            final(self).uid == old(self).uid,
            final(self).lc_info == old(self).lc_info,
            final(self).info == old(self).info,
    {
        self.status_history = Vec::new();
        self.status_history.push(status);
        self.status_history_max = history_capacity(poll_rate_ms);
    }

    /// Appends a snapshot, dropping the oldest once the ring is full.
    pub fn set_status(&mut self, status: Status)
        requires
            old(self).status_history_max >= 1,
        ensures
            final(self).status_history@ == if old(self).status_history@.len() < old(
                self,
            ).status_history_max {
                old(self).status_history@.push(status)
            } else {
                old(self).status_history@.skip(1).push(status)
            },
            final(self).status_history_max == old(self).status_history_max,
            final(self).name == old(self).name,
            final(self).d_type == old(self).d_type,
            final(self).type_index == old(self).type_index,
            final(self).uid == old(self).uid,
            final(self).lc_info == old(self).lc_info,
            final(self).info == old(self).info,
    {
        if self.status_history.len() >= self.status_history_max {
            self.status_history.remove(0);
        }
        self.status_history.push(status);
        proof {
            if old(self).status_history@.len() >= old(self).status_history_max {
                assert(final(self).status_history@ =~= old(self).status_history@.skip(1).push(
                    status,
                ));
            }
        }
    }
}


/// Clamps an emitted duty into a channel's declared speed range before it
/// is dispatched to the device.
pub fn clamp_duty_to_channel(duty: u8, options: &SpeedOptions) -> (r: u8)
    requires
        options.min_duty <= options.max_duty,
    ensures
        options.min_duty <= r <= options.max_duty,
        duty < options.min_duty ==> r == options.min_duty,
        duty > options.max_duty ==> r == options.max_duty,
        options.min_duty <= duty <= options.max_duty ==> r == duty,
{
    if duty < options.min_duty {
        options.min_duty
    } else if duty > options.max_duty {
        options.max_duty
    } else {
        duty
    }
}

} // verus!
