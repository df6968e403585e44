//! Profile, function and custom-sensor settings.
//!
//! Temperatures are carried as centidegrees Celsius (hundredths of a degree,
//! signed), so `2005` means 20.05 C. Poll rates are carried in milliseconds.

use vstd::prelude::*;

use crate::error::CCError;

verus! {

/// Centidegrees Celsius: hundredths of a degree.
pub type CentiTemp = i64;

/// A profile's unique identifier.
pub type ProfileUID = String;

/// The temperature-shaping function families.
#[derive(Debug, Clone, Copy, PartialEq, Eq, Structural)]
pub enum FunctionType {
    Identity,
    Standard,
    ExponentialMovingAvg,
}

/// A temperature source: a device and one of its temp sensors.
#[derive(Debug)]
pub struct TempSource {
    pub device_uid: String,
    pub temp_name: String,
}

/// The ghost image of a `TempSource`.
pub struct TempSourceV {
    pub device_uid: Seq<char>,
    pub temp_name: Seq<char>,
}

impl View for TempSource {
    type V = TempSourceV;

    open spec fn view(&self) -> TempSourceV {
        TempSourceV { device_uid: self.device_uid@, temp_name: self.temp_name@ }
    }
}

impl Clone for TempSource {
    fn clone(&self) -> (res: Self)
        ensures
            res@ == self@,
    {
        TempSource { device_uid: self.device_uid.clone(), temp_name: self.temp_name.clone() }
    }
}

/// A temperature-shaping function and its duty-change clamps.
#[derive(Debug, Clone)]
pub struct Function {
    pub uid: String,
    pub f_type: FunctionType,
    /// Seconds a change must persist before it propagates (Standard only).
    pub response_delay: Option<u8>,
    /// Hysteresis half-width in centidegrees (Standard only).
    pub deviance: Option<CentiTemp>,
    /// Suppress upward hysteresis delay (Standard only).
    pub only_downward: Option<bool>,
    /// Smoothing window (ExponentialMovingAvg only).
    pub sample_window: Option<u8>,
    /// Smallest duty change that is applied, in percent points (1..=99).
    pub duty_minimum: u8,
    /// Largest duty change applied at once, in percent points (2..=100).
    pub duty_maximum: u8,
}

impl Function {
    /// Whether the duty clamps lie in their legal ranges.
    pub open spec fn duty_bounds_valid(&self) -> bool {
        &&& 1 <= self.duty_minimum <= 99
        &&& 2 <= self.duty_maximum <= 100
        &&& self.duty_minimum < self.duty_maximum
    }
}

/// Rejects a function whose duty clamps are out of range.
/// `duty_minimum = 1` with `duty_maximum = 100` is legal; a minimum at or
/// above the maximum is not.
pub fn validate_function(function: &Function) -> (r: Result<(), CCError>)
    ensures
        r is Ok <==> function.duty_bounds_valid(),
        r is Err ==> r->Err_0.is_user_error(),
{
    if function.duty_minimum < 1 {
        Err(CCError::UserError { msg: "duty_minimum must be greater than 0".to_owned() })
    } else if function.duty_minimum > 99 {
        Err(CCError::UserError { msg: "duty_minimum must be less than 100".to_owned() })
    } else if function.duty_maximum < 2 {
        Err(CCError::UserError { msg: "duty_maximum must be greater than 1".to_owned() })
    } else if function.duty_maximum > 100 {
        Err(CCError::UserError { msg: "duty_maximum must be less than 101".to_owned() })
    } else if function.duty_minimum >= function.duty_maximum {
        Err(CCError::UserError { msg: "duty_minimum must be less than duty_maximum".to_owned() })
    } else {
        Ok(())
    }
}

/// How a Mix custom sensor combines its sources.
#[derive(Debug, Clone, Copy, PartialEq, Eq, Structural)]
pub enum CustomSensorMixFunctionType {
    Min,
    Max,
    Delta,
    Avg,
    WeightedAvg,
}

/// Whether a custom sensor mixes other sensors or reads a file.
#[derive(Debug, Clone, Copy, PartialEq, Eq, Structural)]
pub enum CustomSensorType {
    Mix,
    File,
}

/// One weighted source of a Mix custom sensor.
#[derive(Debug)]
pub struct CustomTempSourceData {
    pub temp_source: TempSource,
    pub weight: u8,
}

/// The ghost image of a `CustomTempSourceData`.
pub struct CustomTempSourceDataV {
    pub temp_source: TempSourceV,
    pub weight: u8,
}

impl View for CustomTempSourceData {
    type V = CustomTempSourceDataV;

    open spec fn view(&self) -> CustomTempSourceDataV {
        CustomTempSourceDataV { temp_source: self.temp_source@, weight: self.weight }
    }
}

impl Clone for CustomTempSourceData {
    fn clone(&self) -> (res: Self)
        ensures
            res@ == self@,
    {
        CustomTempSourceData { temp_source: self.temp_source.clone(), weight: self.weight }
    }
}

/// A user-defined synthetic temperature sensor.
#[derive(Debug)]
pub struct CustomSensor {
    pub id: String,
    pub cs_type: CustomSensorType,
    pub mix_function: CustomSensorMixFunctionType,
    pub sources: Vec<CustomTempSourceData>,
    /// For File sensors: the path of the file that holds milli-degrees.
    pub file_path: Option<String>,
}

/// The ghost image of a `CustomSensor`.
pub struct CustomSensorV {
    pub id: Seq<char>,
    pub cs_type: CustomSensorType,
    pub mix_function: CustomSensorMixFunctionType,
    pub sources: Seq<CustomTempSourceDataV>,
    pub file_path: Option<Seq<char>>,
}

impl View for CustomSensor {
    type V = CustomSensorV;

    open spec fn view(&self) -> CustomSensorV {
        CustomSensorV {
            id: self.id@,
            cs_type: self.cs_type,
            mix_function: self.mix_function,
            sources: self.sources@.map_values(|s: CustomTempSourceData| s@),
            file_path: match self.file_path {
                Some(ref p) => Some(p@),
                None => None,
            },
        }
    }
}

impl Clone for CustomSensor {
    fn clone(&self) -> (res: Self)
        ensures
            res@ == self@,
    {
        let sources = self.sources.clone();
        proof {
            assert(sources@.map_values(|s: CustomTempSourceData| s@) =~= self.sources@.map_values(
                |s: CustomTempSourceData| s@,
            ));
        }
        CustomSensor {
            id: self.id.clone(),
            cs_type: self.cs_type,
            mix_function: self.mix_function,
            sources,
            file_path: match &self.file_path {
                Some(p) => Some(p.clone()),
                None => None,
            },
        }
    }
}

/// Lighting settings forwarded to a device channel.
#[derive(Debug, Clone)]
pub struct LightingSettings {
    pub mode: String,
    pub speed: Option<String>,
    pub backward: Option<bool>,
    pub colors: Vec<(u8, u8, u8)>,
}

/// LCD screen settings forwarded to a device channel.
#[derive(Debug, Clone)]
pub struct LcdSettings {
    pub mode: String,
    pub brightness: Option<u8>,
    pub orientation: Option<u16>,
    pub image_file_processed: Option<String>,
}

} // verus!
