//! The USB-cooler adapter: models the devices answered by the liquidctl
//! helper, derives collision-free identifiers, and makes the decisions —
//! pump modes, screen requests, temp-sensor indexes — whose I/O the caller
//! performs.

use vstd::prelude::*;

use crate::case::{lower_of, title_of};
use crate::device::{BaseDriver, Device, Status, TempInfo, TypeIndex, UID};
use crate::device::valid_poll_rate_ms;
use crate::error::CCError;
use crate::setting::LcdSettings;

verus! {

/// The capabilities the helper reports for one device.
#[derive(Debug, Clone)]
pub struct DeviceProperties {
    pub speed_channels: Vec<String>,
    pub color_channels: Vec<String>,
    pub supports_cooling: Option<bool>,
    pub supports_cooling_profiles: Option<bool>,
    pub supports_lighting: Option<bool>,
    pub led_count: Option<u8>,
    pub lcd_resolution: Option<(u16, u16)>,
}

impl DeviceProperties {
    pub fn empty() -> (p: DeviceProperties)
        ensures
            p.speed_channels@.len() == 0,
            p.color_channels@.len() == 0,
            p.led_count is None,
    {
        DeviceProperties {
            speed_channels: Vec::new(),
            color_channels: Vec::new(),
            supports_cooling: None,
            supports_cooling_profiles: None,
            supports_lighting: None,
            led_count: None,
            lcd_resolution: None,
        }
    }
}

/// One device as the helper enumerates it.
#[derive(Debug, Clone)]
pub struct DeviceResponse {
    pub id: TypeIndex,
    pub description: String,
    pub device_type: String,
    pub serial_number: Option<String>,
    pub properties: DeviceProperties,
    pub liquidctl_version: Option<String>,
    pub hid_address: Option<String>,
    pub hwmon_address: Option<String>,
}

/// The serial a device is judged by: its reported one, or empty.
pub open spec fn spec_serial_of(d: &DeviceResponse) -> Seq<char> {
    match d.serial_number {
        Some(ref s) => s@,
        None => Seq::empty(),
    }
}

/// Whether some other response shares this one's serial.
pub open spec fn spec_dup_serial(devs: Seq<DeviceResponse>, i: int) -> bool {
    exists|j: int| 0 <= j < devs.len() && j != i && spec_serial_of(&devs[j]) == spec_serial_of(&devs[i])
}

/// Whether some other response both shares this one's serial with a third
/// party and shares this one's description.
pub open spec fn spec_dup_name(devs: Seq<DeviceResponse>, i: int) -> bool {
    spec_dup_serial(devs, i) && exists|j: int|
        0 <= j < devs.len() && j != i && spec_dup_serial(devs, j) && devs[j].description@
            == devs[i].description@
}

/// The decimal rendering of a number.
pub open spec fn spec_dec_digits(n: int) -> Seq<char>
    recommends
        n >= 0,
    decreases n,
{
    let d = (48 + n % 10) as u8 as char;
    if n < 10 {
        seq![d]
    } else {
        spec_dec_digits(n / 10).push(d)
    }
}

/// The identifier chosen for one response: its serial where that is
/// globally unique; serial plus description where only the serial
/// collides; description plus device index where both collide.
pub open spec fn spec_unique_identifier(devs: Seq<DeviceResponse>, i: int) -> Seq<char> {
    if spec_dup_name(devs, i) {
        devs[i].description@ + spec_dec_digits(devs[i].id as int)
    } else if spec_dup_serial(devs, i) {
        spec_serial_of(&devs[i]) + devs[i].description@
    } else {
        spec_serial_of(&devs[i])
    }
}

/// Renders a number in decimal.
pub fn dec_string(n: u8) -> (r: String)
    ensures
        r@ == spec_dec_digits(n as int),
    decreases n,
{
    let d: &str = digit_str(48 + n % 10);
    if n < 10 {
        proof {
            assert(d@ =~= spec_dec_digits(n as int));
        }
        d.to_owned()
    } else {
        proof {
            assert(n / 10 < n) by (nonlinear_arith)
                requires
                    n >= 10,
            ;
        }
        let prefix = dec_string(n / 10);
        let r = prefix.concat(d);
        proof {
            assert(r@ =~= spec_dec_digits((n / 10) as int).push((48 + n % 10) as char));
        }
        r
    }
}

/// One ASCII digit as a string slice.
fn digit_str(b: u8) -> (r: &'static str)
    requires
        48 <= b <= 57,
    ensures
        r@ =~= seq![b as char],
{
    proof {
        reveal_strlit("0");
        reveal_strlit("1");
        reveal_strlit("2");
        reveal_strlit("3");
        reveal_strlit("4");
        reveal_strlit("5");
        reveal_strlit("6");
        reveal_strlit("7");
        reveal_strlit("8");
        reveal_strlit("9");
    }
    if b == 48 {
        "0"
    } else if b == 49 {
        "1"
    } else if b == 50 {
        "2"
    } else if b == 51 {
        "3"
    } else if b == 52 {
        "4"
    } else if b == 53 {
        "5"
    } else if b == 54 {
        "6"
    } else if b == 55 {
        "7"
    } else if b == 56 {
        "8"
    } else {
        "9"
    }
}

/// The metadata the identifier choice is made from.
#[derive(Debug)]
pub struct DeviceIdMetadata {
    pub serial_number: String,
    pub name: String,
    pub device_index: TypeIndex,
}

/// Whether some other entry shares this one's serial.
pub open spec fn spec_meta_dup_serial(metas: Seq<DeviceIdMetadata>, i: int) -> bool {
    exists|j: int|
        0 <= j < metas.len() && j != i && metas[j].serial_number@ == metas[i].serial_number@
}

/// Which entries' serials collide with another entry's, by position.
pub fn find_duplicate_serial_numbers(metas: &Vec<DeviceIdMetadata>) -> (r: Vec<bool>)
    ensures
        r@.len() == metas@.len(),
        forall|i: int| 0 <= i < metas@.len() ==> #[trigger] r@[i] == spec_meta_dup_serial(metas@, i),
{
    let n = metas.len();
    let mut r: Vec<bool> = Vec::new();
    let mut i: usize = 0;
    while i < n
        invariant
            i <= n,
            n == metas@.len(),
            r@.len() == i,
            forall|a: int| 0 <= a < i ==> #[trigger] r@[a] == spec_meta_dup_serial(metas@, a),
        decreases n - i,
    {
        let dup = meta_has_dup_serial(metas, i);
        r.push(dup);
        i = i + 1;
    }
    r
}

fn meta_has_dup_serial(metas: &Vec<DeviceIdMetadata>, i: usize) -> (r: bool)
    requires
        i < metas@.len(),
    ensures
        r == spec_meta_dup_serial(metas@, i as int),
{
    let n = metas.len();
    let mut j: usize = 0;
    while j < n
        invariant
            j <= n,
            i < n,
            n == metas@.len(),
            forall|b: int|
                0 <= b < j && b != i ==> (#[trigger] metas@[b].serial_number)@
                    != metas@[i as int].serial_number@,
        decreases n - j,
    {
        if j != i && metas[j].serial_number == metas[i].serial_number {
            return true;
        }
        j = j + 1;
    }
    false
}

/// Whether some other entry with a colliding serial shares this one's
/// name.
pub open spec fn spec_meta_dup_name(metas: Seq<DeviceIdMetadata>, i: int) -> bool {
    spec_meta_dup_serial(metas, i) && exists|j: int|
        0 <= j < metas.len() && j != i && spec_meta_dup_serial(metas, j) && metas[j].name@
            == metas[i].name@
}

/// Which entries, among those with colliding serials, also share their
/// name with another such entry, by position.
pub fn find_duplicate_names(metas: &Vec<DeviceIdMetadata>) -> (r: Vec<bool>)
    ensures
        r@.len() == metas@.len(),
        forall|i: int| 0 <= i < metas@.len() ==> #[trigger] r@[i] == spec_meta_dup_name(metas@, i),
{
    let n = metas.len();
    let mut r: Vec<bool> = Vec::new();
    let mut i: usize = 0;
    while i < n
        invariant
            i <= n,
            n == metas@.len(),
            r@.len() == i,
            forall|a: int| 0 <= a < i ==> #[trigger] r@[a] == spec_meta_dup_name(metas@, a),
        decreases n - i,
    {
        let self_dup = meta_has_dup_serial(metas, i);
        let mut name_dup = false;
        if self_dup {
            let mut j: usize = 0;
            while j < n
                invariant
                    j <= n,
                    i < n,
                    n == metas@.len(),
                    name_dup == exists|b: int|
                        0 <= b < j && b != i && spec_meta_dup_serial(metas@, b) && metas@[b].name@
                            == metas@[i as int].name@,
                decreases n - j,
            {
                if j != i && metas[j].name == metas[i].name {
                    let other_dup = meta_has_dup_serial(metas, j);
                    if other_dup {
                        name_dup = true;
                    }
                }
                j = j + 1;
            }
        }
        let is_dup_name = self_dup && name_dup;
        proof {
            assert(is_dup_name == spec_meta_dup_name(metas@, i as int));
        }
        r.push(is_dup_name);
        i = i + 1;
    }
    r
}

/// Derives a collision-free identifier for every enumerated device:
/// serials when unique, serial plus description on a serial collision,
/// description plus device index when descriptions collide too.
pub fn get_unique_identifiers(devices_response: &Vec<DeviceResponse>) -> (r: Vec<(
    TypeIndex,
    String,
)>)
    ensures
        r@.len() == devices_response@.len(),
        forall|i: int|
            0 <= i < r@.len() ==> (#[trigger] r@[i]).0 == devices_response@[i].id && r@[i].1@
                == spec_unique_identifier(devices_response@, i),
{
    let n = devices_response.len();
    let mut r: Vec<(TypeIndex, String)> = Vec::new();
    let mut i: usize = 0;
    while i < n
        invariant
            i <= n,
            n == devices_response@.len(),
            r@.len() == i,
            forall|a: int|
                0 <= a < i ==> (#[trigger] r@[a]).0 == devices_response@[a].id && r@[a].1@
                    == spec_unique_identifier(devices_response@, a),
        decreases n - i,
    {
        let serial: String = match &devices_response[i].serial_number {
            Some(s) => s.clone(),
            None => String::new(),
        };
        let dup_serial = response_has_dup_serial(devices_response, i);
        let mut dup_name = false;
        if dup_serial {
            let mut j: usize = 0;
            while j < n
                invariant
                    j <= n,
                    i < n,
                    n == devices_response@.len(),
                    dup_name == exists|b: int|
                        0 <= b < j && b != i && spec_dup_serial(devices_response@, b)
                            && devices_response@[b].description@ == devices_response@[i as int].description@,
                decreases n - j,
            {
                if j != i && devices_response[j].description == devices_response[i].description {
                    if response_has_dup_serial(devices_response, j) {
                        dup_name = true;
                    }
                }
                j = j + 1;
            }
        }
        let identifier: String = if dup_serial && dup_name {
            let digits = dec_string(devices_response[i].id);
            let base = devices_response[i].description.clone();
            base.concat(digits.as_str())
        } else if dup_serial {
            serial.concat(devices_response[i].description.as_str())
        } else {
            serial
        };
        proof {
            assert((dup_serial && dup_name) == spec_dup_name(devices_response@, i as int));
        }
        r.push((devices_response[i].id, identifier));
        i = i + 1;
    }
    r
}

fn response_has_dup_serial(devs: &Vec<DeviceResponse>, i: usize) -> (r: bool)
    requires
        i < devs@.len(),
    ensures
        r == spec_dup_serial(devs@, i as int),
{
    let serial_i: &Option<String> = &devs[i].serial_number;
    let n = devs.len();
    let mut j: usize = 0;
    while j < n
        invariant
            j <= n,
            i < n,
            n == devs@.len(),
            forall|b: int|
                0 <= b < j && b != i ==> spec_serial_of(&devs@[b]) != spec_serial_of(
                    &devs@[i as int],
                ),
        decreases n - j,
    {
        if j != i {
            let eq = match (&devs[j].serial_number, &devs[i].serial_number) {
                (Some(a), Some(b)) => *a == *b,
                (None, None) => true,
                (Some(a), None) => a.as_str().is_empty(),
                (None, Some(b)) => b.as_str().is_empty(),
            };
            proof {
                if devs@[j as int].serial_number is Some && devs@[j as int].serial_number->0@.len()
                    == 0 {
                    assert(devs@[j as int].serial_number->0@ =~= Seq::<char>::empty());
                }
                if devs@[i as int].serial_number is Some && devs@[i as int].serial_number->0@.len()
                    == 0 {
                    assert(devs@[i as int].serial_number->0@ =~= Seq::<char>::empty());
                }
                assert(eq == (spec_serial_of(&devs@[j as int]) == spec_serial_of(
                    &devs@[i as int],
                )));
            }
            if eq {
                return true;
            }
        }
        j = j + 1;
    }
    false
}


/// Maps the helper's driver-type string to a supported driver family;
/// unsupported families are skipped by the caller.
pub fn map_driver_type(device: &DeviceResponse) -> (r: Option<BaseDriver>)
    ensures
        r == spec_driver_type(device.device_type@),
{
    proof {
        reveal_strlit("Modern690Lc");
        reveal_strlit("Legacy690Lc");
        reveal_strlit("Hydro690Lc");
        reveal_strlit("HydroPlatinum");
        reveal_strlit("HydroPro");
        reveal_strlit("KrakenZ3");
        reveal_strlit("SmartDevice2");
    }
    let t = &device.device_type;
    if *t == "Modern690Lc".to_owned() {
        Some(BaseDriver::Modern690Lc)
    } else if *t == "Legacy690Lc".to_owned() {
        Some(BaseDriver::Legacy690Lc)
    } else if *t == "Hydro690Lc".to_owned() {
        Some(BaseDriver::Hydro690Lc)
    } else if *t == "HydroPlatinum".to_owned() {
        Some(BaseDriver::HydroPlatinum)
    } else if *t == "HydroPro".to_owned() {
        Some(BaseDriver::HydroPro)
    } else if *t == "KrakenZ3".to_owned() {
        Some(BaseDriver::KrakenZ3)
    } else if *t == "SmartDevice2".to_owned() {
        Some(BaseDriver::SmartDevice2)
    } else {
        None
    }
}

/// The driver family a type string names, among the supported ones.
pub open spec fn spec_driver_type(t: Seq<char>) -> Option<BaseDriver> {
    if t == "Modern690Lc"@ {
        Some(BaseDriver::Modern690Lc)
    } else if t == "Legacy690Lc"@ {
        Some(BaseDriver::Legacy690Lc)
    } else if t == "Hydro690Lc"@ {
        Some(BaseDriver::Hydro690Lc)
    } else if t == "HydroPlatinum"@ {
        Some(BaseDriver::HydroPlatinum)
    } else if t == "HydroPro"@ {
        Some(BaseDriver::HydroPro)
    } else if t == "KrakenZ3"@ {
        Some(BaseDriver::KrakenZ3)
    } else if t == "SmartDevice2"@ {
        Some(BaseDriver::SmartDevice2)
    } else {
        None
    }
}

/// One key-value pair of a raw helper status.
pub type LCStatus = Vec<(String, String)>;

/// Lower-cases every status key, so lookups are case-insensitive.
pub fn create_status_map(lc_statuses: &LCStatus) -> (r: Vec<(String, String)>)
    ensures
        r@.len() == lc_statuses@.len(),
        forall|i: int|
            0 <= i < r@.len() ==> (#[trigger] r@[i]).0@ == lower_of(lc_statuses@[i].0@)
                && r@[i].1@ == lc_statuses@[i].1@,
{
    let mut r: Vec<(String, String)> = Vec::new();
    let n = lc_statuses.len();
    let mut i: usize = 0;
    while i < n
        invariant
            i <= n,
            n == lc_statuses@.len(),
            r@.len() == i,
            forall|a: int|
                0 <= a < i ==> (#[trigger] r@[a]).0@ == lower_of(lc_statuses@[a].0@) && r@[a].1@
                    == lc_statuses@[a].1@,
        decreases n - i,
    {
        let key = crate::case::to_lowercase(lc_statuses[i].0.as_str());
        let value = lc_statuses[i].1.clone();
        r.push((key, value));
        i = i + 1;
    }
    r
}

/// The discrete pump mode some driver families need in place of a
/// continuous pump duty; `None` where the duty can be sent as-is.
/// HydroPlatinum pumps run quiet below 56, extreme above 75, balanced
/// between; HydroPro pumps run quiet below 34, performance above 66,
/// balanced between.
pub fn pump_mode_for(driver_type: BaseDriver, channel_name: &String, fixed_speed: u8) -> (r:
    Option<String>)
    ensures
        driver_type == BaseDriver::HydroPlatinum && channel_name@ == "pump"@ ==> (r matches Some(m)
            && m@ == (if fixed_speed < 56 {
            "quiet"@
        } else if fixed_speed > 75 {
            "extreme"@
        } else {
            "balanced"@
        })),
        driver_type == BaseDriver::HydroPro && channel_name@ == "pump"@ ==> (r matches Some(m)
            && m@ == (if fixed_speed < 34 {
            "quiet"@
        } else if fixed_speed > 66 {
            "performance"@
        } else {
            "balanced"@
        })),
        !((driver_type == BaseDriver::HydroPlatinum || driver_type == BaseDriver::HydroPro)
            && channel_name@ == "pump"@) ==> r is None,
{
    let is_pump = *channel_name == "pump".to_owned();
    match driver_type {
        BaseDriver::HydroPlatinum => {
            if is_pump {
                if fixed_speed < 56 {
                    Some("quiet".to_owned())
                } else if fixed_speed > 75 {
                    Some("extreme".to_owned())
                } else {
                    Some("balanced".to_owned())
                }
            } else {
                None
            }
        },
        BaseDriver::HydroPro => {
            if is_pump {
                if fixed_speed < 34 {
                    Some("quiet".to_owned())
                } else if fixed_speed > 66 {
                    Some("performance".to_owned())
                } else {
                    Some("balanced".to_owned())
                }
            } else {
                None
            }
        },
        _ => None,
    }
}

/// The trailing decimal digits of a temp name, if any: the helper's
/// numeric temp-sensor index.
pub open spec fn spec_trailing_digits(bs: Seq<u8>) -> Seq<u8>
    decreases bs.len(),
{
    if bs.len() == 0 || !crate::text::spec_is_digit(bs.last()) {
        Seq::empty()
    } else {
        spec_trailing_digits(bs.drop_last()).push(bs.last())
    }
}

/// Extracts the temp-sensor index from the trailing digits of a temp
/// name: `None` when the name does not end in a digit, an error when the
/// digits overflow a `u8`.
pub fn temp_sensor_number_of(temp_name_bytes: &Vec<u8>) -> (r: Result<
    Option<u8>,
    crate::text::ParseIntErrorKind,
>)
    ensures
        spec_trailing_digits(temp_name_bytes@).len() == 0 ==> r == Ok::<
            Option<u8>,
            crate::text::ParseIntErrorKind,
        >(None::<u8>),
        spec_trailing_digits(temp_name_bytes@).len() > 0 ==> ({
            match crate::text::spec_parse_digits(spec_trailing_digits(temp_name_bytes@), 0, 255) {
                Ok(v) => r == Ok::<Option<u8>, crate::text::ParseIntErrorKind>(
                    Some(v as u8),
                ),
                Err(e) => r == Err::<Option<u8>, crate::text::ParseIntErrorKind>(e),
            }
        }),
{
    let n = temp_name_bytes.len();
    let mut start: usize = n;
    proof {
        assert(temp_name_bytes@.take(n as int) =~= temp_name_bytes@);
        assert(temp_name_bytes@.subrange(n as int, n as int) =~= Seq::<u8>::empty());
        assert(spec_trailing_digits(temp_name_bytes@) == spec_trailing_digits(
            temp_name_bytes@.take(n as int),
        ) + temp_name_bytes@.subrange(n as int, n as int));
    }
    while start > 0 && 48 <= temp_name_bytes[start - 1] && temp_name_bytes[start - 1] <= 57
        invariant
            start <= n,
            n == temp_name_bytes@.len(),
            spec_trailing_digits(temp_name_bytes@) == spec_trailing_digits(
                temp_name_bytes@.take(start as int),
            ) + temp_name_bytes@.subrange(start as int, n as int),
            forall|a: int|
                start <= a < n ==> crate::text::spec_is_digit(#[trigger] temp_name_bytes@[a]),
        decreases start,
    {
        proof {
            let cur = temp_name_bytes@.take(start as int);
            assert(cur.last() == temp_name_bytes@[start - 1]);
            assert(cur.drop_last() =~= temp_name_bytes@.take(start - 1));
            assert(spec_trailing_digits(cur) =~= spec_trailing_digits(cur.drop_last()).push(
                cur.last(),
            ));
            assert(spec_trailing_digits(cur.drop_last()) + temp_name_bytes@.subrange(
                start - 1,
                n as int,
            ) =~= spec_trailing_digits(cur.drop_last()).push(cur.last()) + temp_name_bytes@.subrange(
                start as int,
                n as int,
            ));
        }
        start = start - 1;
    }
    proof {
        let cur = temp_name_bytes@.take(start as int);
        if start > 0 {
            assert(cur.last() == temp_name_bytes@[start - 1]);
        }
        assert(spec_trailing_digits(cur) =~= Seq::<u8>::empty());
        assert(spec_trailing_digits(temp_name_bytes@) =~= temp_name_bytes@.subrange(
            start as int,
            n as int,
        ));
    }
    if start == n {
        return Ok(None);
    }
    let mut digits: Vec<u8> = Vec::new();
    let mut i: usize = start;
    while i < n
        invariant
            start <= i <= n,
            n == temp_name_bytes@.len(),
            digits@ =~= temp_name_bytes@.subrange(start as int, i as int),
        decreases n - i,
    {
        digits.push(temp_name_bytes[i]);
        i = i + 1;
    }
    proof {
        assert(digits@ =~= temp_name_bytes@.subrange(start as int, n as int));
    }
    match crate::liquidctl::parse_digits_u8(&digits) {
        Ok(v) => Ok(Some(v)),
        Err(e) => Err(e),
    }
}

/// Parses a run of digits into a `u8`.
fn parse_digits_u8(ds: &Vec<u8>) -> (r: Result<u8, crate::text::ParseIntErrorKind>)
    requires
        ds@.len() >= 1,
        forall|a: int| 0 <= a < ds@.len() ==> crate::text::spec_is_digit(#[trigger] ds@[a]),
    ensures
        match r {
            Ok(v) => crate::text::spec_parse_digits(ds@, 0, 255) == Ok::<
                int,
                crate::text::ParseIntErrorKind,
            >(v as int),
            Err(e) => crate::text::spec_parse_digits(ds@, 0, 255) == Err::<
                int,
                crate::text::ParseIntErrorKind,
            >(e),
        },
{
    proof {
        assert(ds@[0] != 45 && ds@[0] != 43);
    }
    match crate::text::parse_uint_bytes(ds.as_slice(), 255) {
        Ok(v) => Ok(v as u8),
        Err(e) => Err(e),
    }
}

/// One request of the screen-update plan.
#[derive(Debug)]
pub struct ScreenRequest {
    pub mode: String,
    pub value: Option<String>,
}

/// Whether the UTF-8 bytes contain ".gif".
pub open spec fn spec_contains_gif(bs: Seq<u8>) -> bool {
    exists|i: int|
        0 <= i && i + 4 <= bs.len() && #[trigger] bs[i] == 46 && bs[i + 1] == 103 && bs[i + 2]
            == 105 && bs[i + 3] == 102
}

/// How many requests one LCD setting expands to.
pub open spec fn spec_screen_request_count(lcd: &LcdSettings) -> int {
    (if lcd.brightness is Some {
        1int
    } else {
        0int
    }) + (if lcd.orientation is Some {
        1int
    } else {
        0int
    }) + (if lcd.mode@ == "image"@ && lcd.image_file_processed is Some {
        1int
    } else if lcd.mode@ == "liquid"@ {
        1int
    } else {
        0int
    })
}

/// The ordered screen requests one LCD setting expands to: brightness and
/// orientation first where present, then the image (as a gif when the
/// processed path names one, else static) or the liquid mode.
pub fn screen_requests_for(lcd: &LcdSettings) -> (r: Vec<ScreenRequest>)
    ensures
        r@.len() == spec_screen_request_count(lcd),
        lcd.mode@ == "liquid"@ ==> (r@.last().mode@ == "liquid"@ && r@.last().value is None),
        lcd.mode@ == "image"@ && lcd.image_file_processed is Some ==> ({
            let f = lcd.image_file_processed->0;
            &&& r@.last().mode@ == (if spec_contains_gif(vstd::utf8::encode_utf8(f@)) {
                "gif"@
            } else {
                "static"@
            })
            &&& r@.last().value is Some
            &&& r@.last().value->0@ == f@
        }),
        lcd.brightness is Some ==> r@[0].mode@ == "brightness"@ && r@[0].value is Some
            && r@[0].value->0@ == spec_dec_digits(lcd.brightness->0 as int),
{
    proof {
        reveal_strlit("image");
        reveal_strlit("liquid");
        assert("image"@.len() == 5);
        assert("liquid"@.len() == 6);
        assert("image"@ != "liquid"@);
    }
    let mut r: Vec<ScreenRequest> = Vec::new();
    if let Some(brightness) = lcd.brightness {
        r.push(
            ScreenRequest { mode: "brightness".to_owned(), value: Some(dec_string(brightness)) },
        );
    }
    if let Some(orientation) = lcd.orientation {
        r.push(
            ScreenRequest { mode: "orientation".to_owned(), value: Some(dec_string_u16(orientation)) },
        );
    }
    if lcd.mode == "image".to_owned() {
        if let Some(image_file) = &lcd.image_file_processed {
            let mode: String = if contains_gif(image_file) {
                "gif".to_owned()
            } else {
                "static".to_owned()
            };
            r.push(ScreenRequest { mode, value: Some(image_file.clone()) });
        }
    } else if lcd.mode == "liquid".to_owned() {
        r.push(ScreenRequest { mode: "liquid".to_owned(), value: None });
    }
    r
}

/// Renders a 16-bit number in decimal.
pub fn dec_string_u16(n: u16) -> (r: String)
    ensures
        r@ == spec_dec_digits(n as int),
    decreases n,
{
    let d: &str = digit_str((48 + n % 10) as u8);
    if n < 10 {
        proof {
            assert(d@ =~= spec_dec_digits(n as int));
        }
        d.to_owned()
    } else {
        proof {
            assert(n / 10 < n) by (nonlinear_arith)
                requires
                    n >= 10,
            ;
        }
        let prefix = dec_string_u16(n / 10);
        let r = prefix.concat(d);
        proof {
            assert(r@ =~= spec_dec_digits((n / 10) as int).push(((48 + n % 10) as u8) as char));
        }
        r
    }
}

/// Whether the path names a gif, judged over its UTF-8 bytes.
fn contains_gif(s: &String) -> (r: bool)
    ensures
        r == spec_contains_gif(vstd::utf8::encode_utf8(s@)),
{
    let bs = s.as_str().as_bytes();
    let n = bs.len();
    if n < 4 {
        return false;
    }
    let mut i: usize = 0;
    while i <= n - 4
        invariant
            4 <= n,
            i <= n,
            n == bs@.len(),
            bs@ == vstd::utf8::encode_utf8(s@),
            forall|a: int|
                0 <= a < i ==> !(#[trigger] bs@[a] == 46 && bs@[a + 1] == 103 && bs@[a + 2] == 105
                    && bs@[a + 3] == 102),
        decreases n - i,
    {
        if bs[i] == 46 && bs[i + 1] == 103 && bs[i + 2] == 105 && bs[i + 3] == 102 {
            return true;
        }
        i = i + 1;
    }
    false
}


/// The identity of one managed device, cached for apply calls.
#[derive(Debug)]
pub struct CachedDeviceData {
    pub type_index: TypeIndex,
    pub uid: UID,
    pub driver_type: BaseDriver,
}

/// What the engine decides for a possible legacy Asetek 690LC.
#[derive(Debug, Clone, Copy, PartialEq, Eq, Structural)]
pub enum Legacy690Action {
    /// The user flagged the device as legacy: ask the helper to swap it.
    RequestHelperSwap,
    /// No user answer yet: keep the device and mark it unknown.
    MarkUnknown,
    /// Not a Modern690Lc, or the user said it is modern: nothing to do.
    NoChange,
}

/// The legacy-690 decision: only a Modern690Lc can be a disguised legacy
/// device; the user's stored answer decides, and a missing answer is
/// preserved as "unknown" rather than guessed.
pub fn check_for_legacy_690(driver_type: BaseDriver, is_legacy690: Option<bool>) -> (r:
    Legacy690Action)
    ensures
        driver_type != BaseDriver::Modern690Lc ==> r == Legacy690Action::NoChange,
        driver_type == BaseDriver::Modern690Lc && is_legacy690 == Some(true) ==> r
            == Legacy690Action::RequestHelperSwap,
        driver_type == BaseDriver::Modern690Lc && is_legacy690 == Some(false) ==> r
            == Legacy690Action::NoChange,
        driver_type == BaseDriver::Modern690Lc && is_legacy690 is None ==> r
            == Legacy690Action::MarkUnknown,
{
    if driver_type == BaseDriver::Modern690Lc {
        match is_legacy690 {
            Some(true) => Legacy690Action::RequestHelperSwap,
            Some(false) => Legacy690Action::NoChange,
            None => Legacy690Action::MarkUnknown,
        }
    } else {
        Legacy690Action::NoChange
    }
}

/// Every driver location of a device list, in device order.
pub open spec fn spec_all_locations(devs: Seq<Device>) -> Seq<Seq<char>>
    decreases devs.len(),
{
    if devs.len() == 0 {
        Seq::empty()
    } else {
        spec_all_locations(devs.drop_last()) + devs.last().info.driver_info.locations@.map_values(
            |l: String| l@,
        )
    }
}

/// The repository of devices managed through the liquidctl helper. The
/// helper I/O itself is the caller's; this holds the device records and
/// the per-device decisions.
pub struct LiquidctlRepo {
    pub devices: Vec<Device>,
    pub poll_rate_ms: u64,
}

impl LiquidctlRepo {
    /// Every managed device carries its liquidctl driver information.
    pub open spec fn wf(&self) -> bool {
        forall|i: int| 0 <= i < self.devices@.len() ==> (#[trigger] self.devices@[i]).lc_info is Some
    }

    pub fn new(poll_rate_ms: u64) -> (r: LiquidctlRepo)
        requires
            valid_poll_rate_ms(poll_rate_ms),
        ensures
            r.devices@.len() == 0,
            r.poll_rate_ms == poll_rate_ms,
            r.wf(),
    {
        LiquidctlRepo { devices: Vec::new(), poll_rate_ms }
    }

    /// Every driver location of every managed device.
    pub fn get_all_driver_locations(&self) -> (r: Vec<String>)
        ensures
            r@.map_values(|l: String| l@) == spec_all_locations(self.devices@),
    {
        let mut r: Vec<String> = Vec::new();
        let n = self.devices.len();
        let mut i: usize = 0;
        proof {
            assert(self.devices@.take(0) =~= Seq::<Device>::empty());
            assert(r@.map_values(|l: String| l@) =~= spec_all_locations(self.devices@.take(0)));
        }
        while i < n
            invariant
                i <= n,
                n == self.devices@.len(),
                r@.map_values(|l: String| l@) == spec_all_locations(self.devices@.take(i as int)),
            decreases n - i,
        {
            proof {
                assert(self.devices@.take(i + 1).drop_last() =~= self.devices@.take(i as int));
                assert(self.devices@.take(i + 1).last() == self.devices@[i as int]);
            }
            let locations = &self.devices[i].info.driver_info.locations;
            let m = locations.len();
            let mut j: usize = 0;
            proof {
                assert(r@.map_values(|l: String| l@) =~= spec_all_locations(
                    self.devices@.take(i as int),
                ) + locations@.map_values(|l: String| l@).take(0));
            }
            while j < m
                invariant
                    j <= m,
                    i < n,
                    n == self.devices@.len(),
                    m == self.devices@[i as int].info.driver_info.locations@.len(),
                    locations == &self.devices@[i as int].info.driver_info.locations,
                    r@.map_values(|l: String| l@) == spec_all_locations(
                        self.devices@.take(i as int),
                    ) + locations@.map_values(|l: String| l@).take(j as int),
                decreases m - j,
            {
                let ghost before = r@.map_values(|l: String| l@);
                r.push(locations[j].clone());
                proof {
                    assert(r@.map_values(|l: String| l@) =~= before.push(locations@[j as int]@));
                    assert(locations@.map_values(|l: String| l@).take(j + 1)
                        =~= locations@.map_values(|l: String| l@).take(j as int).push(
                        locations@[j as int]@,
                    ));
                }
                j = j + 1;
            }
            proof {
                assert(locations@.map_values(|l: String| l@).take(m as int)
                    =~= locations@.map_values(|l: String| l@));
            }
            i = i + 1;
        }
        proof {
            assert(self.devices@.take(n as int) =~= self.devices@);
        }
        r
    }

    /// Restarts every device's history as a one-snapshot ring holding its
    /// current status, sized for the poll rate. To be called once at
    /// startup, after the first statuses arrived.
    pub fn initialize_all_device_status_histories_with_current_status(&mut self) -> (r: Result<
        (),
        CCError,
    >)
        requires
            valid_poll_rate_ms(old(self).poll_rate_ms),
            forall|i: int|
                0 <= i < old(self).devices@.len() ==> (#[trigger] old(
                    self,
                ).devices@[i]).status_history@.len() >= 1,
        ensures
            r is Ok,
            final(self).poll_rate_ms == old(self).poll_rate_ms,
            final(self).devices@.len() == old(self).devices@.len(),
            forall|i: int|
                0 <= i < final(self).devices@.len() ==> {
                    let d0 = old(self).devices@[i];
                    let d1 = #[trigger] final(self).devices@[i];
                    &&& d1.uid == d0.uid
                    &&& d1.name == d0.name
                    &&& d1.d_type == d0.d_type
                    &&& d1.type_index == d0.type_index
                    &&& d1.lc_info == d0.lc_info
                    &&& d1.info == d0.info
                    &&& d1.status_history@.len() == 1
                    &&& d1.status_history@[0]@ == d0.status_history@.last()@
                    &&& d1.status_history_max == crate::device::spec_history_capacity(
                        old(self).poll_rate_ms,
                    )
                },
    {
        let n = self.devices.len();
        let poll = self.poll_rate_ms;
        let mut i: usize = 0;
        while i < n
            invariant
                i <= n,
                n == self.devices@.len(),
                poll == old(self).poll_rate_ms,
                self.poll_rate_ms == old(self).poll_rate_ms,
                valid_poll_rate_ms(poll),
                forall|a: int|
                    i <= a < n ==> #[trigger] self.devices@[a] == old(self).devices@[a],
                forall|a: int|
                    0 <= a < n ==> (#[trigger] old(self).devices@[a]).status_history@.len() >= 1,
                forall|a: int|
                    0 <= a < i ==> {
                        let d0 = old(self).devices@[a];
                        let d1 = #[trigger] self.devices@[a];
                        &&& d1.uid == d0.uid
                        &&& d1.name == d0.name
                        &&& d1.d_type == d0.d_type
                        &&& d1.type_index == d0.type_index
                        &&& d1.lc_info == d0.lc_info
                        &&& d1.info == d0.info
                        &&& d1.status_history@.len() == 1
                        &&& d1.status_history@[0]@ == d0.status_history@.last()@
                        &&& d1.status_history_max == crate::device::spec_history_capacity(poll)
                    },
            decreases n - i,
        {
            let mut device = self.devices.remove(i);
            let recent = match device.status_current() {
                Some(s) => s,
                None => {
                    proof {
                        assert(false);
                    }
                    Status::empty()
                },
            };
            device.initialize_status_history_with(recent, poll);
            self.devices.insert(i, device);
            i = i + 1;
        }
        Ok(())
    }

    /// The cached identity for an apply call; an unknown uid is the
    /// caller's mistake.
    pub fn cache_device_data(&self, device_uid: &UID) -> (r: Result<CachedDeviceData, CCError>)
        requires
            self.wf(),
        ensures
            match r {
                Ok(data) => exists|i: int|
                    0 <= i < self.devices@.len() && (#[trigger] self.devices@[i]).uid@ == device_uid@
                        && data.type_index == self.devices@[i].type_index && data.uid@ == device_uid@
                        && Some(data.driver_type) == (match self.devices@[i].lc_info {
                        Some(ref info) => Some(info.driver_type),
                        None => None,
                    }),
                Err(e) => e.is_not_found() && forall|i: int|
                    0 <= i < self.devices@.len() ==> (#[trigger] self.devices@[i]).uid@
                        != device_uid@,
            },
    {
        let n = self.devices.len();
        let mut i: usize = 0;
        while i < n
            invariant
                i <= n,
                n == self.devices@.len(),
                self.wf(),
                forall|a: int| 0 <= a < i ==> (#[trigger] self.devices@[a]).uid@ != device_uid@,
            decreases n - i,
        {
            if self.devices[i].uid == *device_uid {
                let driver_type = match &self.devices[i].lc_info {
                    Some(info) => info.driver_type,
                    None => {
                        proof {
                            assert(false);
                        }
                        BaseDriver::Modern690Lc
                    },
                };
                return Ok(
                    CachedDeviceData {
                        type_index: self.devices[i].type_index,
                        uid: self.devices[i].uid.clone(),
                        driver_type,
                    },
                );
            }
            i = i + 1;
        }
        Err(CCError::NotFound { msg: "Device UID not found".to_owned() })
    }
}


/// Rebuilds one device's temp catalog from a mapped status: each observed
/// temp, title-cased, numbered in order.
fn set_temp_infos_from_status(device: &mut Device, status: &Status)
    requires
        old(device).status_history@.len() >= 0,
        status.temps@.len() <= 255,
    ensures
        final(device).uid == old(device).uid,
        final(device).name == old(device).name,
        final(device).d_type == old(device).d_type,
        final(device).type_index == old(device).type_index,
        final(device).lc_info == old(device).lc_info,
        final(device).status_history == old(device).status_history,
        final(device).status_history_max == old(device).status_history_max,
        final(device).info.channels == old(device).info.channels,
        final(device).info.lighting_speeds == old(device).info.lighting_speeds,
        final(device).info.temp_min == old(device).info.temp_min,
        final(device).info.temp_max == old(device).info.temp_max,
        final(device).info.profile_max_length == old(device).info.profile_max_length,
        final(device).info.profile_min_length == old(device).info.profile_min_length,
        final(device).info.driver_info == old(device).info.driver_info,
        final(device).info.temps@.len() == status.temps@.len(),
        forall|i: int|
            0 <= i < status.temps@.len() ==> {
                let entry = #[trigger] final(device).info.temps@[i];
                &&& entry.0@ == status.temps@[i]@.name
                &&& entry.1.label@ == title_of(status.temps@[i]@.name)
                &&& entry.1.number == i + 1
            },
{
    let n = status.temps.len();
    let mut temp_infos: Vec<(String, TempInfo)> = Vec::new();
    let mut i: usize = 0;
    while i < n
        invariant
            i <= n,
            n == status.temps@.len(),
            n <= 255,
            temp_infos@.len() == i,
            forall|a: int|
                0 <= a < i ==> {
                    let entry = #[trigger] temp_infos@[a];
                    &&& entry.0@ == status.temps@[a]@.name
                    &&& entry.1.label@ == title_of(status.temps@[a]@.name)
                    &&& entry.1.number == a + 1
                },
        decreases n - i,
    {
        let name = status.temps[i].name.clone();
        let label = crate::case::to_title_case(status.temps[i].name.as_str());
        temp_infos.push((name, TempInfo { label, number: (i as u8) + 1 }));
        i = i + 1;
    }
    device.info.temps = temp_infos;
}

/// The first mapped status supplied for a device index.
pub open spec fn spec_status_for(statuses: Seq<(TypeIndex, Status)>, idx: TypeIndex) -> Option<
    int,
>
    decreases statuses.len(),
{
    if statuses.len() == 0 {
        None
    } else if statuses[0].0 == idx {
        Some(0)
    } else {
        match spec_status_for(statuses.drop_first(), idx) {
            Some(i) => Some(i + 1),
            None => None,
        }
    }
}

impl LiquidctlRepo {
    /// Rebuilds every device's temp catalog from the tick's mapped
    /// statuses: each observed temp, title-cased, numbered in order. A
    /// device without a supplied status keeps its catalog.
    pub fn update_temp_infos(&mut self, statuses: &Vec<(TypeIndex, Status)>)
        requires
            forall|i: int| 0 <= i < statuses@.len() ==> (#[trigger] statuses@[i]).1.temps@.len()
                <= 255,
        ensures
            final(self).poll_rate_ms == old(self).poll_rate_ms,
            final(self).devices@.len() == old(self).devices@.len(),
            forall|i: int|
                0 <= i < final(self).devices@.len() ==> {
                    let d0 = old(self).devices@[i];
                    let d1 = #[trigger] final(self).devices@[i];
                    &&& d1.uid == d0.uid
                    &&& d1.name == d0.name
                    &&& d1.type_index == d0.type_index
                    &&& d1.lc_info == d0.lc_info
                    &&& d1.status_history == d0.status_history
                    &&& (spec_status_for(statuses@, d0.type_index) is None ==> d1 == d0)
                    &&& (spec_status_for(statuses@, d0.type_index) matches Some(s) ==> {
                        let st = statuses@[s].1;
                        &&& d1.info.temps@.len() == st.temps@.len()
                        &&& forall|j: int|
                            0 <= j < st.temps@.len() ==> {
                                let entry = #[trigger] d1.info.temps@[j];
                                &&& entry.0@ == st.temps@[j]@.name
                                &&& entry.1.label@ == title_of(st.temps@[j]@.name)
                                &&& entry.1.number == j + 1
                            }
                    })
                },
    {
        let n = self.devices.len();
        let mut i: usize = 0;
        while i < n
            invariant
                i <= n,
                n == self.devices@.len(),
                self.poll_rate_ms == old(self).poll_rate_ms,
                forall|a: int|
                    0 <= a < statuses@.len() ==> (#[trigger] statuses@[a]).1.temps@.len() <= 255,
                forall|a: int|
                    i <= a < n ==> #[trigger] self.devices@[a] == old(self).devices@[a],
                forall|a: int|
                    0 <= a < i ==> {
                        let d0 = old(self).devices@[a];
                        let d1 = #[trigger] self.devices@[a];
                        &&& d1.uid == d0.uid
                        &&& d1.name == d0.name
                        &&& d1.type_index == d0.type_index
                        &&& d1.lc_info == d0.lc_info
                        &&& d1.status_history == d0.status_history
                        &&& (spec_status_for(statuses@, d0.type_index) is None ==> d1 == d0)
                        &&& (spec_status_for(statuses@, d0.type_index) matches Some(s) ==> {
                            let st = statuses@[s].1;
                            &&& d1.info.temps@.len() == st.temps@.len()
                            &&& forall|j: int|
                                0 <= j < st.temps@.len() ==> {
                                    let entry = #[trigger] d1.info.temps@[j];
                                    &&& entry.0@ == st.temps@[j]@.name
                                    &&& entry.1.label@ == title_of(st.temps@[j]@.name)
                                    &&& entry.1.number == j + 1
                                }
                        })
                    },
            decreases n - i,
        {
            let idx = self.devices[i].type_index;
            match find_status_for(statuses, idx) {
                None => {},
                Some(s) => {
                    let mut device = self.devices.remove(i);
                    set_temp_infos_from_status(&mut device, &statuses[s].1);
                    self.devices.insert(i, device);
                },
            }
            i = i + 1;
        }
    }
}

/// Finds the first supplied status for a device index.
fn find_status_for(statuses: &Vec<(TypeIndex, Status)>, idx: TypeIndex) -> (r: Option<usize>)
    ensures
        match r {
            Some(s) => spec_status_for(statuses@, idx) == Some(s as int) && s < statuses@.len()
                && statuses@[s as int].0 == idx,
            None => spec_status_for(statuses@, idx) is None,
        },
{
    let n = statuses.len();
    let mut i: usize = 0;
    while i < n
        invariant
            i <= n,
            n == statuses@.len(),
            forall|a: int| 0 <= a < i ==> (#[trigger] statuses@[a]).0 != idx,
        decreases n - i,
    {
        if statuses[i].0 == idx {
            proof {
                lemma_status_for_first(statuses@, idx, i as int);
            }
            return Some(i);
        }
        i = i + 1;
    }
    proof {
        lemma_status_for_none(statuses@, idx);
    }
    None
}

/// A first match at `i` with no earlier match pins the lookup.
proof fn lemma_status_for_first(statuses: Seq<(TypeIndex, Status)>, idx: TypeIndex, i: int)
    requires
        0 <= i < statuses.len(),
        statuses[i].0 == idx,
        forall|a: int| 0 <= a < i ==> (#[trigger] statuses[a]).0 != idx,
    ensures
        spec_status_for(statuses, idx) == Some(i),
    decreases i,
{
    if i > 0 {
        assert(statuses.drop_first()[i - 1].0 == idx);
        assert(forall|a: int|
            0 <= a < i - 1 ==> (#[trigger] statuses.drop_first()[a]).0 != idx);
        lemma_status_for_first(statuses.drop_first(), idx, i - 1);
    }
}

/// No match anywhere means no lookup result.
proof fn lemma_status_for_none(statuses: Seq<(TypeIndex, Status)>, idx: TypeIndex)
    requires
        forall|a: int| 0 <= a < statuses.len() ==> (#[trigger] statuses[a]).0 != idx,
    ensures
        spec_status_for(statuses, idx) is None,
    decreases statuses.len(),
{
    if statuses.len() > 0 {
        assert(forall|a: int|
            0 <= a < statuses.drop_first().len() ==> (#[trigger] statuses.drop_first()[a]).0
                != idx);
        lemma_status_for_none(statuses.drop_first(), idx);
    }
}

} // verus!
