//! The hwmon adapter's data model and decisions: channel classification,
//! uevent parsing, the laptop-driver fallback list, and duplicate-name
//! resolution. The sysfs reads themselves are the caller's.

use vstd::prelude::*;

use vstd::string::StringSliceAdditionalSpecFns;

use crate::text;

verus! {

/// What a hwmon channel measures or controls.
#[derive(Debug, Clone, Copy, PartialEq, Eq, Structural)]
pub enum HwmonChannelType {
    Temp,
    Fan,
    Load,
    Freq,
    PowerCap,
}

/// One classified hwmon channel.
#[derive(Debug)]
pub struct HwmonChannelInfo {
    pub hwmon_type: HwmonChannelType,
    pub number: u8,
    pub name: String,
    pub label: Option<String>,
}

/// One discovered hwmon driver node.
#[derive(Debug)]
pub struct HwmonDriverInfo {
    pub name: String,
    /// The node's sysfs path, as text.
    pub path: String,
    pub model: Option<String>,
    pub u_id: String,
    pub channels: Vec<HwmonChannelInfo>,
}

/// The PCI names resolved for a device.
#[derive(Debug, Clone)]
pub struct PciDeviceNames {
    pub vendor_name: Option<String>,
    pub device_name: Option<String>,
    pub subvendor_name: Option<String>,
    pub subdevice_name: Option<String>,
}

/// Laptop-class drivers that need an automatic-mode fallback on reset,
/// for safety: thinkpad, asus-nb-wmi and asus_fan.
pub fn device_needs_pwm_fallback(device_name: &String) -> (r: bool)
    ensures
        r == (device_name@ == "thinkpad"@ || device_name@ == "asus-nb-wmi"@ || device_name@
            == "asus_fan"@),
{
    *device_name == "thinkpad".to_owned() || *device_name == "asus-nb-wmi".to_owned()
        || *device_name == "asus_fan".to_owned()
}

/// The key-value pairs of a uevent text: one per line with an equals
/// sign, both sides trimmed.
pub open spec fn spec_uevent_pairs(lines: Seq<Seq<u8>>) -> Seq<(Seq<u8>, Seq<u8>)>
    decreases lines.len(),
{
    if lines.len() == 0 {
        Seq::empty()
    } else {
        let rest = spec_uevent_pairs(lines.drop_last());
        match text::spec_find(lines.last(), 61, 0) {
            Some(i) => rest.push(
                (
                    text::spec_trim(lines.last().take(i)),
                    text::spec_trim(lines.last().skip(i + 1)),
                ),
            ),
            None => rest,
        }
    }
}

/// Parses a uevent text into its key-value pairs.
pub fn parse_uevent(content: &Vec<u8>) -> (r: Vec<(Vec<u8>, Vec<u8>)>)
    ensures
        r@.map_values(|p: (Vec<u8>, Vec<u8>)| (p.0@, p.1@)) == spec_uevent_pairs(
            text::spec_lines(content@),
        ),
{
    let lines = text::split_lines(content.as_slice());
    let ghost lines_v = lines@.map_values(|l: Vec<u8>| l@);
    let mut r: Vec<(Vec<u8>, Vec<u8>)> = Vec::new();
    let n = lines.len();
    let mut i: usize = 0;
    proof {
        assert(lines_v.take(0) =~= Seq::<Seq<u8>>::empty());
        assert(r@.map_values(|p: (Vec<u8>, Vec<u8>)| (p.0@, p.1@)) =~= spec_uevent_pairs(
            lines_v.take(0),
        ));
    }
    while i < n
        invariant
            i <= n,
            n == lines@.len(),
            lines_v == lines@.map_values(|l: Vec<u8>| l@),
            r@.map_values(|p: (Vec<u8>, Vec<u8>)| (p.0@, p.1@)) == spec_uevent_pairs(
                lines_v.take(i as int),
            ),
        decreases n - i,
    {
        proof {
            assert(lines_v.take(i + 1).drop_last() =~= lines_v.take(i as int));
            assert(lines_v.take(i + 1).last() == lines_v[i as int]);
            assert(lines_v[i as int] == lines@[i as int]@);
        }
        match text::split_once_byte(lines[i].as_slice(), 61) {
            None => {},
            Some((k, v)) => {
                let ghost before = r@.map_values(|p: (Vec<u8>, Vec<u8>)| (p.0@, p.1@));
                let key = text::trim_bytes(k.as_slice());
                let value = text::trim_bytes(v.as_slice());
                r.push((key, value));
                proof {
                    assert(r@.map_values(|p: (Vec<u8>, Vec<u8>)| (p.0@, p.1@)) =~= before.push(
                        (
                            text::spec_trim(lines_v[i as int].take(
                                text::spec_find(lines_v[i as int], 61, 0)->0,
                            )),
                            text::spec_trim(lines_v[i as int].skip(
                                text::spec_find(lines_v[i as int], 61, 0)->0 + 1,
                            )),
                        ),
                    ));
                }
            },
        }
        i = i + 1;
    }
    proof {
        assert(lines_v.take(n as int) =~= lines_v);
    }
    r
}

/// The first value stored under a key.
pub open spec fn spec_pair_lookup(pairs: Seq<(Seq<u8>, Seq<u8>)>, key: Seq<u8>) -> Option<Seq<u8>>
    decreases pairs.len(),
{
    if pairs.len() == 0 {
        None
    } else if pairs[0].0 == key {
        Some(pairs[0].1)
    } else {
        spec_pair_lookup(pairs.drop_first(), key)
    }
}

/// Looks up the first value stored under a key.
pub fn pair_lookup<'a>(pairs: &'a Vec<(Vec<u8>, Vec<u8>)>, key: &[u8]) -> (r: Option<&'a Vec<u8>>)
    ensures
        match r {
            Some(v) => spec_pair_lookup(
                pairs@.map_values(|p: (Vec<u8>, Vec<u8>)| (p.0@, p.1@)),
                key@,
            ) == Some(v@),
            None => spec_pair_lookup(
                pairs@.map_values(|p: (Vec<u8>, Vec<u8>)| (p.0@, p.1@)),
                key@,
            ) is None,
        },
{
    let ghost pv = pairs@.map_values(|p: (Vec<u8>, Vec<u8>)| (p.0@, p.1@));
    let n = pairs.len();
    let mut i: usize = 0;
    proof {
        assert(pv.skip(0) =~= pv);
    }
    while i < n
        invariant
            i <= n,
            n == pairs@.len(),
            pv == pairs@.map_values(|p: (Vec<u8>, Vec<u8>)| (p.0@, p.1@)),
            spec_pair_lookup(pv, key@) == spec_pair_lookup(pv.skip(i as int), key@),
        decreases n - i,
    {
        proof {
            assert(pv.skip(i as int)[0] == pv[i as int]);
            assert(pv.skip(i as int).drop_first() =~= pv.skip(i + 1));
        }
        if text::bytes_eq(pairs[i].0.as_slice(), key) {
            return Some(&pairs[i].1);
        }
        i = i + 1;
    }
    None
}

/// The alternative name for a driver whose name collides: the uevent's
/// device name, else the name with the minor number appended, else the
/// model, else the name unchanged.
pub fn get_alternative_device_name(
    uevent_pairs: &Vec<(Vec<u8>, Vec<u8>)>,
    driver_name: &String,
    model: &Option<String>,
) -> (r: Vec<u8>)
    ensures
        ({
            let pv = uevent_pairs@.map_values(|p: (Vec<u8>, Vec<u8>)| (p.0@, p.1@));
            let devname = spec_pair_lookup(pv, "DEVNAME".spec_bytes());
            let minor = spec_pair_lookup(pv, "MINOR".spec_bytes());
            match devname {
                Some(v) => r@ == v,
                None => match minor {
                    Some(m) => r@ == vstd::utf8::encode_utf8(driver_name@) + m,
                    None => match model {
                        Some(ref mo) => r@ == vstd::utf8::encode_utf8(mo@),
                        None => r@ == vstd::utf8::encode_utf8(driver_name@),
                    },
                },
            }
        }),
{
    let key_devname = "DEVNAME";
    let key_minor = "MINOR";
    if let Some(v) = pair_lookup(uevent_pairs, key_devname.as_bytes()) {
        return v.clone();
    }
    if let Some(m) = pair_lookup(uevent_pairs, key_minor.as_bytes()) {
        let mut out: Vec<u8> = Vec::new();
        let name_bytes = driver_name.as_str().as_bytes();
        let mut i: usize = 0;
        while i < name_bytes.len()
            invariant
                i <= name_bytes@.len(),
                out@ =~= name_bytes@.take(i as int),
            decreases name_bytes@.len() - i,
        {
            out.push(name_bytes[i]);
            i = i + 1;
        }
        proof {
            assert(out@ =~= name_bytes@);
        }
        let mut j: usize = 0;
        let ghost base = out@;
        while j < m.len()
            invariant
                j <= m@.len(),
                out@ =~= base + m@.take(j as int),
            decreases m@.len() - j,
        {
            out.push(m[j]);
            j = j + 1;
        }
        proof {
            assert(out@ =~= name_bytes@ + m@);
        }
        return out;
    }
    let source: &String = match model {
        Some(mo) => mo,
        None => driver_name,
    };
    let bytes = source.as_str().as_bytes();
    let mut out: Vec<u8> = Vec::new();
    let mut i: usize = 0;
    while i < bytes.len()
        invariant
            i <= bytes@.len(),
            out@ =~= bytes@.take(i as int),
        decreases bytes@.len() - i,
    {
        out.push(bytes[i]);
        i = i + 1;
    }
    proof {
        assert(out@ =~= bytes@);
    }
    out
}

/// Whether some other driver shares this one's name.
pub open spec fn spec_name_collides(drivers: Seq<HwmonDriverInfo>, i: int) -> bool {
    exists|j: int| 0 <= j < drivers.len() && j != i && drivers[j].name@ == drivers[i].name@
}

/// Which drivers' names collide with another driver's, by position: those
/// are the ones to rename from their uevent details.
pub fn find_duplicate_device_names(hwmon_drivers: &Vec<HwmonDriverInfo>) -> (r: Vec<bool>)
    ensures
        r@.len() == hwmon_drivers@.len(),
        forall|i: int|
            0 <= i < hwmon_drivers@.len() ==> #[trigger] r@[i] == spec_name_collides(
                hwmon_drivers@,
                i,
            ),
{
    let n = hwmon_drivers.len();
    let mut r: Vec<bool> = Vec::new();
    let mut i: usize = 0;
    while i < n
        invariant
            i <= n,
            n == hwmon_drivers@.len(),
            r@.len() == i,
            forall|a: int|
                0 <= a < i ==> #[trigger] r@[a] == spec_name_collides(hwmon_drivers@, a),
        decreases n - i,
    {
        let mut dup = false;
        let mut j: usize = 0;
        while j < n
            invariant
                j <= n,
                i < n,
                n == hwmon_drivers@.len(),
                dup == exists|b: int|
                    0 <= b < j && b != i && (#[trigger] hwmon_drivers@[b].name)@
                        == hwmon_drivers@[i as int].name@,
            decreases n - j,
        {
            if j != i && hwmon_drivers[j].name == hwmon_drivers[i].name {
                dup = true;
            }
            j = j + 1;
        }
        r.push(dup);
        i = i + 1;
    }
    r
}

} // verus!
