//! Device-support builders for liquidctl driver families: the static
//! channel catalog each family offers.

use vstd::prelude::*;

use crate::device::{
    ChannelInfo, DeviceInfo, DriverInfo, DriverType, LightingMode, SpeedOptions, TypeIndex,
};
use crate::liquidctl::DeviceResponse;

verus! {

/// Builds one lighting mode entry.
fn color_mode(
    name: &str,
    min_colors: u8,
    max_colors: u8,
    speed_enabled: bool,
    backward_enabled: bool,
) -> (m: LightingMode)
    ensures
        m.name@ == name@,
        m.min_colors == min_colors,
        m.max_colors == max_colors,
        m.speed_enabled == speed_enabled,
        m.backward_enabled == backward_enabled,
{
    LightingMode { name: name.to_owned(), min_colors, max_colors, speed_enabled, backward_enabled }
}

/// The driver locations a response reports: its HID address and its hwmon
/// address, where present.
pub open spec fn spec_driver_locations(resp: &DeviceResponse) -> Seq<Seq<char>> {
    let hid: Seq<Seq<char>> = match resp.hid_address {
        Some(ref a) => seq![a@],
        None => Seq::empty(),
    };
    let hwmon: Seq<Seq<char>> = match resp.hwmon_address {
        Some(ref a) => seq![a@],
        None => Seq::empty(),
    };
    hid + hwmon
}

fn collect_driver_locations(resp: &DeviceResponse) -> (r: Vec<String>)
    ensures
        r@.map_values(|l: String| l@) == spec_driver_locations(resp),
{
    let mut r: Vec<String> = Vec::new();
    if let Some(a) = &resp.hid_address {
        r.push(a.clone());
    }
    if let Some(a) = &resp.hwmon_address {
        r.push(a.clone());
    }
    proof {
        assert(r@.map_values(|l: String| l@) =~= spec_driver_locations(resp));
    }
    r
}

/// Support for the HydroPlatinum family: a pump channel with a bounded
/// duty range, profile-capable fan channels, and a three-mode lighting
/// catalog sized by the reported LED count.
#[derive(Debug)]
pub struct HydroPlatinumSupport {
    /// The LED count of the last extracted device; one until known.
    pub led_count: u8,
}

impl HydroPlatinumSupport {
    pub fn new() -> (s: HydroPlatinumSupport)
        ensures
            s.led_count == 1,
    {
        HydroPlatinumSupport { led_count: 1 }
    }

    /// The lighting modes this family offers: off, fixed, and super-fixed
    /// over every LED.
    pub fn get_color_channel_modes(&self) -> (r: Vec<LightingMode>)
        ensures
            r@.len() == 3,
            r@[0].name@ == "off"@ && r@[0].min_colors == 0 && r@[0].max_colors == 0,
            r@[1].name@ == "fixed"@ && r@[1].min_colors == 1 && r@[1].max_colors == 1,
            r@[2].name@ == "super-fixed"@ && r@[2].min_colors == 1 && r@[2].max_colors
                == self.led_count,
            forall|i: int|
                0 <= i < 3 ==> !(#[trigger] r@[i]).speed_enabled && !r@[i].backward_enabled,
    {
        let mut r: Vec<LightingMode> = Vec::new();
        r.push(color_mode("off", 0, 0, false, false));
        r.push(color_mode("fixed", 1, 1, false, false));
        r.push(color_mode("super-fixed", 1, self.led_count, false, false));
        r
    }

    /// The static catalog of one HydroPlatinum device: the pump channel
    /// runs 20..=100 fixed-only; each reported fan channel runs 0..=100
    /// with profiles; each color channel carries the lighting modes; temps
    /// span 20..=60 with profiles of 2..=7 points.
    pub fn extract_info(&mut self, device_response: &DeviceResponse) -> (info: DeviceInfo)
        ensures
            final(self).led_count == (match device_response.properties.led_count {
                Some(c) => c,
                None => old(self).led_count,
            }),
            info.temp_min == 20,
            info.temp_max == 60,
            info.profile_max_length == 7,
            info.profile_min_length == 2,
            info.lighting_speeds@.len() == 0,
            info.driver_info.drv_type == DriverType::Liquidctl,
            info.driver_info.name matches Some(n) && n@ == "HydroPlatinum"@,
            info.driver_info.version == device_response.liquidctl_version,
            info.driver_info.locations@.map_values(|l: String| l@) == spec_driver_locations(
                device_response,
            ),
            info.channels@.len() == 1 + device_response.properties.speed_channels@.len()
                + device_response.properties.color_channels@.len(),
            info.channels@[0].0@ == "pump"@,
            info.channels@[0].1.speed_options == Some(
                SpeedOptions {
                    min_duty: 20,
                    max_duty: 100,
                    profiles_enabled: false,
                    fixed_enabled: true,
                    manual_profiles_enabled: true,
                },
            ),
            forall|i: int|
                0 <= i < device_response.properties.speed_channels@.len() ==> {
                    let entry = #[trigger] info.channels@[1 + i];
                    &&& entry.0@ == device_response.properties.speed_channels@[i]@
                    &&& entry.1.speed_options == Some(
                        SpeedOptions {
                            min_duty: 0,
                            max_duty: 100,
                            profiles_enabled: true,
                            fixed_enabled: true,
                            manual_profiles_enabled: true,
                        },
                    )
                },
            forall|i: int|
                0 <= i < device_response.properties.color_channels@.len() ==> {
                    let entry = #[trigger] info.channels@[1
                        + device_response.properties.speed_channels@.len() + i];
                    &&& entry.0@ == device_response.properties.color_channels@[i]@
                    &&& entry.1.lighting_modes@.len() == 3
                },
    {
        if let Some(led_count) = device_response.properties.led_count {
            self.led_count = led_count;
        }
        let mut channels: Vec<(String, ChannelInfo)> = Vec::new();
        channels.push(
            (
                "pump".to_owned(),
                ChannelInfo::with_speed_options(
                    SpeedOptions {
                        min_duty: 20,
                        max_duty: 100,
                        profiles_enabled: false,
                        fixed_enabled: true,
                        manual_profiles_enabled: true,
                    },
                ),
            ),
        );
        let speed_names = &device_response.properties.speed_channels;
        let n = speed_names.len();
        let mut i: usize = 0;
        while i < n
            invariant
                i <= n,
                n == speed_names@.len(),
                channels@.len() == 1 + i,
                channels@[0].0@ == "pump"@,
                channels@[0].1.speed_options == Some(
                    SpeedOptions {
                        min_duty: 20,
                        max_duty: 100,
                        profiles_enabled: false,
                        fixed_enabled: true,
                        manual_profiles_enabled: true,
                    },
                ),
                forall|a: int|
                    0 <= a < i ==> {
                        let entry = #[trigger] channels@[1 + a];
                        &&& entry.0@ == speed_names@[a]@
                        &&& entry.1.speed_options == Some(
                            SpeedOptions {
                                min_duty: 0,
                                max_duty: 100,
                                profiles_enabled: true,
                                fixed_enabled: true,
                                manual_profiles_enabled: true,
                            },
                        )
                    },
            decreases n - i,
        {
            channels.push(
                (
                    speed_names[i].clone(),
                    ChannelInfo::with_speed_options(
                        SpeedOptions {
                            min_duty: 0,
                            max_duty: 100,
                            profiles_enabled: true,
                            fixed_enabled: true,
                            manual_profiles_enabled: true,
                        },
                    ),
                ),
            );
            i = i + 1;
        }
        let color_names = &device_response.properties.color_channels;
        let m = color_names.len();
        let mut j: usize = 0;
        while j < m
            invariant
                j <= m,
                m == color_names@.len(),
                n == speed_names@.len(),
                channels@.len() == 1 + n + j,
                channels@[0].0@ == "pump"@,
                channels@[0].1.speed_options == Some(
                    SpeedOptions {
                        min_duty: 20,
                        max_duty: 100,
                        profiles_enabled: false,
                        fixed_enabled: true,
                        manual_profiles_enabled: true,
                    },
                ),
                forall|a: int|
                    0 <= a < n ==> {
                        let entry = #[trigger] channels@[1 + a];
                        &&& entry.0@ == speed_names@[a]@
                        &&& entry.1.speed_options == Some(
                            SpeedOptions {
                                min_duty: 0,
                                max_duty: 100,
                                profiles_enabled: true,
                                fixed_enabled: true,
                                manual_profiles_enabled: true,
                            },
                        )
                    },
                forall|a: int|
                    0 <= a < j ==> {
                        let entry = #[trigger] channels@[1 + n + a];
                        &&& entry.0@ == color_names@[a]@
                        &&& entry.1.lighting_modes@.len() == 3
                    },
        decreases m - j,
        {
            let modes = self.get_color_channel_modes();
            channels.push((color_names[j].clone(), ChannelInfo::with_lighting_modes(modes)));
            j = j + 1;
        }
        DeviceInfo {
            channels,
            temps: Vec::new(),
            lighting_speeds: Vec::new(),
            temp_min: 20,
            temp_max: 60,
            profile_max_length: 7,
            profile_min_length: 2,
            driver_info: DriverInfo {
                drv_type: DriverType::Liquidctl,
                name: Some("HydroPlatinum".to_owned()),
                version: device_response.liquidctl_version.clone(),
                locations: collect_driver_locations(device_response),
            },
        }
    }
}

/// Support for the SmartDevice2 family: fixed-only fan channels whose
/// names are remembered per device — a fan set to zero disappears from
/// the helper's status and must be reported as zero — and a large
/// lighting catalog.
#[derive(Debug)]
pub struct SmartDevice2Support {
    /// The speed-channel names seen at extraction, per device index.
    pub init_speed_channel_map: Vec<(TypeIndex, Vec<String>)>,
}

impl SmartDevice2Support {
    pub fn new() -> (s: SmartDevice2Support)
        ensures
            s.init_speed_channel_map@.len() == 0,
    {
        SmartDevice2Support { init_speed_channel_map: Vec::new() }
    }

    /// The lighting modes this family offers.
    pub fn get_color_channel_modes(&self) -> (r: Vec<LightingMode>)
        ensures
            r@.len() == 27,
            r@[0].name@ == "off"@,
            r@[1].name@ == "fixed"@,
            r@[26].name@ == "wings"@,
    {
        let mut r: Vec<LightingMode> = Vec::new();
        r.push(color_mode("off", 0, 0, false, false));
        r.push(color_mode("fixed", 1, 1, false, false));
        r.push(color_mode("super-fixed", 1, 40, false, false));
        r.push(color_mode("fading", 1, 8, true, false));
        r.push(color_mode("spectrum-wave", 0, 0, true, true));
        r.push(color_mode("marquee-3", 1, 1, true, true));
        r.push(color_mode("marquee-4", 1, 1, true, true));
        r.push(color_mode("marquee-5", 1, 1, true, true));
        r.push(color_mode("marquee-6", 1, 1, true, true));
        r.push(color_mode("covering-marquee", 1, 8, true, true));
        r.push(color_mode("alternating-3", 2, 2, true, false));
        r.push(color_mode("alternating-4", 2, 2, true, false));
        r.push(color_mode("alternating-5", 2, 2, true, false));
        r.push(color_mode("alternating-6", 2, 2, true, false));
        r.push(color_mode("moving-alternating-3", 2, 2, true, true));
        r.push(color_mode("moving-alternating-4", 2, 2, true, true));
        r.push(color_mode("moving-alternating-5", 2, 2, true, true));
        r.push(color_mode("moving-alternating-6", 2, 2, true, true));
        r.push(color_mode("pulse", 1, 8, true, false));
        r.push(color_mode("breathing", 1, 8, true, false));
        r.push(color_mode("super-breathing", 1, 40, true, false));
        r.push(color_mode("candle", 1, 1, false, false));
        r.push(color_mode("starry-night", 1, 1, true, false));
        r.push(color_mode("rainbow-flow", 0, 0, true, true));
        r.push(color_mode("super-rainbow", 0, 0, true, true));
        r.push(color_mode("rainbow-pulse", 0, 0, true, true));
        r.push(color_mode("wings", 1, 1, true, false));
        r
    }

    /// The static catalog of one SmartDevice2 device: each reported fan
    /// channel runs 0..=100 fixed-only — their names are remembered so a
    /// fan at zero duty can still be reported — and each color channel
    /// carries the lighting catalog.
    pub fn extract_info(&mut self, device_response: &DeviceResponse) -> (info: DeviceInfo)
        ensures
            info.lighting_speeds@.len() == 5,
            info.driver_info.drv_type == DriverType::Liquidctl,
            info.driver_info.name matches Some(n) && n@ == "SmartDevice2"@,
            info.driver_info.version == device_response.liquidctl_version,
            info.channels@.len() == device_response.properties.speed_channels@.len()
                + device_response.properties.color_channels@.len(),
            forall|i: int|
                0 <= i < device_response.properties.speed_channels@.len() ==> {
                    let entry = #[trigger] info.channels@[i];
                    &&& entry.0@ == device_response.properties.speed_channels@[i]@
                    &&& entry.1.speed_options == Some(
                        SpeedOptions {
                            min_duty: 0,
                            max_duty: 100,
                            profiles_enabled: false,
                            fixed_enabled: true,
                            manual_profiles_enabled: false,
                        },
                    )
                },
            forall|i: int|
                0 <= i < device_response.properties.color_channels@.len() ==> {
                    let entry = #[trigger] info.channels@[
                        device_response.properties.speed_channels@.len() + i];
                    &&& entry.0@ == device_response.properties.color_channels@[i]@
                    &&& entry.1.lighting_modes@.len() == 27
                },
            exists|k: int|
                0 <= k < final(self).init_speed_channel_map@.len() && (#[trigger] final(self).init_speed_channel_map@[k]).0 == device_response.id && final(self).init_speed_channel_map@[k].1@.len()
                    == device_response.properties.speed_channels@.len(),
    {
        let mut init_speed_channel_names: Vec<String> = Vec::new();
        let mut channels: Vec<(String, ChannelInfo)> = Vec::new();
        let speed_names = &device_response.properties.speed_channels;
        let n = speed_names.len();
        let mut i: usize = 0;
        while i < n
            invariant
                i <= n,
                n == speed_names@.len(),
                channels@.len() == i,
                init_speed_channel_names@.len() == i,
                forall|a: int|
                    0 <= a < i ==> {
                        let entry = #[trigger] channels@[a];
                        &&& entry.0@ == speed_names@[a]@
                        &&& entry.1.speed_options == Some(
                            SpeedOptions {
                                min_duty: 0,
                                max_duty: 100,
                                profiles_enabled: false,
                                fixed_enabled: true,
                                manual_profiles_enabled: false,
                            },
                        )
                    },
            decreases n - i,
        {
            init_speed_channel_names.push(speed_names[i].clone());
            channels.push(
                (
                    speed_names[i].clone(),
                    ChannelInfo::with_speed_options(
                        SpeedOptions {
                            min_duty: 0,
                            max_duty: 100,
                            profiles_enabled: false,
                            fixed_enabled: true,
                            manual_profiles_enabled: false,
                        },
                    ),
                ),
            );
            i = i + 1;
        }
        let ghost map_before = self.init_speed_channel_map@;
        self.init_speed_channel_map.push((device_response.id, init_speed_channel_names));
        let ghost map_now = self.init_speed_channel_map@;
        proof {
            assert(map_now[map_before.len() as int].0 == device_response.id);
            assert(map_now[map_before.len() as int].1@.len() == n);
        }
        let color_names = &device_response.properties.color_channels;
        let m = color_names.len();
        let mut j: usize = 0;
        while j < m
            invariant
                j <= m,
                m == color_names@.len(),
                n == speed_names@.len(),
                channels@.len() == n + j,
                self.init_speed_channel_map@ == map_now,
                map_now[map_before.len() as int].0 == device_response.id,
                map_now[map_before.len() as int].1@.len() == n,
                map_before.len() < map_now.len(),
                forall|a: int|
                    0 <= a < n ==> {
                        let entry = #[trigger] channels@[a];
                        &&& entry.0@ == speed_names@[a]@
                        &&& entry.1.speed_options == Some(
                            SpeedOptions {
                                min_duty: 0,
                                max_duty: 100,
                                profiles_enabled: false,
                                fixed_enabled: true,
                                manual_profiles_enabled: false,
                            },
                        )
                    },
                forall|a: int|
                    0 <= a < j ==> {
                        let entry = #[trigger] channels@[n + a];
                        &&& entry.0@ == color_names@[a]@
                        &&& entry.1.lighting_modes@.len() == 27
                    },
            decreases m - j,
        {
            let modes = self.get_color_channel_modes();
            channels.push((color_names[j].clone(), ChannelInfo::with_lighting_modes(modes)));
            j = j + 1;
        }
        let mut lighting_speeds: Vec<String> = Vec::new();
        lighting_speeds.push("slowest".to_owned());
        lighting_speeds.push("slower".to_owned());
        lighting_speeds.push("normal".to_owned());
        lighting_speeds.push("faster".to_owned());
        lighting_speeds.push("fastest".to_owned());
        proof {
            let k = map_before.len() as int;
            assert(0 <= k < self.init_speed_channel_map@.len());
            assert(self.init_speed_channel_map@[k].0 == device_response.id);
            assert(self.init_speed_channel_map@[k].1@.len()
                == device_response.properties.speed_channels@.len());
        }
        DeviceInfo {
            channels,
            temps: Vec::new(),
            lighting_speeds,
            temp_min: 0,
            temp_max: 100,
            profile_max_length: 21,
            profile_min_length: 2,
            driver_info: DriverInfo {
                drv_type: DriverType::Liquidctl,
                name: Some("SmartDevice2".to_owned()),
                version: device_response.liquidctl_version.clone(),
                locations: collect_driver_locations(device_response),
            },
        }
    }
}

} // verus!
