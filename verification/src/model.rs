//! The telemetry data model: the raw wire message, the closed set of
//! typed event payloads, and the decoder that maps one to the other or
//! rejects the message.

use vstd::prelude::*;

use crate::parse::{
    check_float_text, ci_eq, is_float_text, parse_bool, parse_i64, parse_u8, spec_parse_bool,
    spec_parse_i64, spec_parse_u8, str_eq, str_eq_ci,
};

verus! {

/// Why decoding a raw message failed.
#[derive(Debug, Clone, PartialEq, Eq)]
pub enum DecodeError {
    /// An integer-valued field did not parse as a decimal integer.
    ParseInt,
    /// A float-valued field did not parse as a floating-point literal.
    ParseFloat,
    /// A boolean-valued field was neither `true` nor `false`.
    ParseBool,
    /// An enumerated field matched none of its keywords.
    ParseEnum,
    /// A timestamp field did not parse in its declared format.
    ParseTimestamp,
    /// The `(source, name)` pair maps to no known payload shape.
    UnknownType { source: String, name: String },
}

/// The raw telemetry message as the transport delivers it.
#[derive(Debug, Clone, PartialEq, Eq)]
pub struct DTO {
    pub source: String,
    pub name: String,
    pub display_name: String,
    pub value: String,
    pub unit: String,
    pub device_id: u32,
    pub hub_id: u32,
    pub installed_app_id: u32,
    pub description_text: String,
}

/// A temperature unit tag.  Deliberately matched exactly against the
/// canonical tags `°F` and `°C`: the hub emits them machine-set in
/// this one form, so no case folding is applied.
#[derive(Debug, Clone, Copy, PartialEq, Eq, Structural)]
pub enum TempUnit {
    F,
    C,
}

/// A power unit tag.  Deliberately matched exactly against the
/// canonical tag `W`, which the hub emits machine-set in this one
/// form; only the pressure tags, seen in mixed case, are folded.
#[derive(Debug, Clone, Copy, PartialEq, Eq, Structural)]
pub enum PowerUnit {
    W,
}

/// A presence reading, matched case-insensitively.
#[derive(Debug, Clone, Copy, PartialEq, Eq, Structural)]
pub enum Presence {
    Present,
    NotPresent,
}

/// A device connectivity reading, matched case-insensitively.
#[derive(Debug, Clone, Copy, PartialEq, Eq, Structural)]
pub enum DeviceStatus {
    Online,
    Offline,
}

/// A pressure unit tag, matched case-insensitively.
#[derive(Debug, Clone, Copy, PartialEq, Eq, Structural)]
#[allow(non_camel_case_types)]
pub enum PressureUnit {
    kPa,
    PSI,
}

/// A thermostat operating state, matched case-insensitively.
#[derive(Debug, Clone, Copy, PartialEq, Eq, Structural)]
pub enum ThermostatOperatingState {
    Idle,
    Cooling,
    Heating,
}

/// A switch state, matched case-insensitively.
#[derive(Debug, Clone, Copy, PartialEq, Eq, Structural)]
pub enum SwitchState {
    On,
    Off,
}

/// A UTC instant: seconds since the epoch, plus subsecond nanoseconds.
#[derive(Debug, Clone, Copy, PartialEq, Eq, Structural)]
pub struct UtcInstant {
    pub secs: i64,
    pub nanos: u32,
}

/// A zone-less calendar timestamp, carried as the epoch seconds of its
/// calendar fields.
#[derive(Debug, Clone, Copy, PartialEq, Eq, Structural)]
pub struct NaiveInstant {
    pub secs: i64,
}

/// A floating-point scalar, carried as its validated decimal text so
/// the persisted record preserves the reading exactly as sent.
#[derive(Debug, Clone, PartialEq, Eq)]
pub struct FloatText {
    pub text: String,
}

impl FloatText {
    /// The held text is a well-formed floating-point literal.
    pub open spec fn wf(self) -> bool {
        is_float_text(self.text@)
    }
}

/// The closed set of payload shapes a decoded event can carry.
#[derive(Debug, Clone, PartialEq, Eq)]
pub enum EventPayload {
    DeviceBattery { percent: u8 },
    DeviceCoolingSetpoint { value: FloatText, unit: TempUnit },
    DeviceHumidity { rh: FloatText },
    DeviceLastCheckin(NaiveInstant),
    DeviceLastCheckinEpoch(UtcInstant),
    DevicePower { value: FloatText, unit: PowerUnit },
    DevicePresence(Presence),
    DevicePressure { pressure: FloatText, unit: PressureUnit },
    DeviceStatus(DeviceStatus),
    DeviceSwitch { state: SwitchState },
    DeviceTemperature { value: FloatText, unit: TempUnit },
    DeviceThermostatOperatingState(ThermostatOperatingState),
    DeviceThermostatSetpoint { value: FloatText, unit: TempUnit },
    LocationSunrise(bool),
    LocationSunriseTime(UtcInstant),
    LocationSunset(bool),
    LocationSunsetTime(UtcInstant),
}

/// A decoded, persistable telemetry event.
#[derive(Debug, Clone, PartialEq, Eq)]
pub struct Event {
    /// Capture time, assigned by the decoder's clock, not by the
    /// source.
    pub date: UtcInstant,
    pub device_name: String,
    pub device_id: u32,
    pub hub_id: u32,
    pub payload: EventPayload,
}

/// Relies on chrono::Utc::now: the clock reading at the call, as epoch
/// seconds and subsecond nanoseconds (chrono keeps the nanosecond
/// field below two billion, its leap-second form included).
#[verifier::external_body]
fn now_utc() -> (r: UtcInstant)
    ensures
        r.nanos < 2_000_000_000,
{
    let n = chrono::Utc::now();
    UtcInstant { secs: n.timestamp(), nanos: n.timestamp_subsec_nanos() }
}

/// What chrono's fixed-format `%Y-%m-%d %H:%M:%S` parse yields on a
/// text, as epoch seconds: a function of the text alone.
pub uninterp spec fn checkin_parse(s: Seq<char>) -> Option<i64>;

/// Relies on chrono::NaiveDateTime::parse_from_str with the fixed
/// format `%Y-%m-%d %H:%M:%S`, converted to epoch seconds.
#[verifier::external_body]
fn parse_checkin(s: &str) -> (r: Option<i64>)
    ensures
        r == checkin_parse(s@),
{
    match chrono::NaiveDateTime::parse_from_str(s, "%Y-%m-%d %H:%M:%S") {
        Ok(n) => Some(n.and_utc().timestamp()),
        Err(_) => None,
    }
}

/// What chrono's `FromStr` for `DateTime<Utc>` yields on a text, as
/// epoch seconds and subsecond nanoseconds: a function of the text
/// alone.
pub uninterp spec fn utc_text_parse(s: Seq<char>) -> Option<(i64, u32)>;

/// Relies on chrono's `FromStr` for `DateTime<Utc>`, converted to
/// epoch seconds and subsecond nanoseconds.
#[verifier::external_body]
fn parse_utc_text(s: &str) -> (r: Option<(i64, u32)>)
    ensures
        r == utc_text_parse(s@),
{
    match s.parse::<chrono::DateTime<chrono::Utc>>() {
        Ok(d) => Some((d.timestamp(), d.timestamp_subsec_nanos())),
        Err(_) => None,
    }
}

/// What parsing a temperature unit tag yields.
pub open spec fn spec_parse_temp_unit(u: Seq<char>) -> Option<TempUnit> {
    if u == "°F"@ {
        Some(TempUnit::F)
    } else if u == "°C"@ {
        Some(TempUnit::C)
    } else {
        None
    }
}

fn parse_temp_unit(u: &str) -> (r: Option<TempUnit>)
    ensures
        r == spec_parse_temp_unit(u@),
{
    if str_eq(u, "°F") {
        Some(TempUnit::F)
    } else if str_eq(u, "°C") {
        Some(TempUnit::C)
    } else {
        None
    }
}

/// What parsing a power unit tag yields.
pub open spec fn spec_parse_power_unit(u: Seq<char>) -> Option<PowerUnit> {
    if u == "W"@ {
        Some(PowerUnit::W)
    } else {
        None
    }
}

fn parse_power_unit(u: &str) -> (r: Option<PowerUnit>)
    ensures
        r == spec_parse_power_unit(u@),
{
    if str_eq(u, "W") {
        Some(PowerUnit::W)
    } else {
        None
    }
}

/// What parsing a presence reading yields.
pub open spec fn spec_parse_presence(v: Seq<char>) -> Option<Presence> {
    if ci_eq(v, "Present"@) {
        Some(Presence::Present)
    } else if ci_eq(v, "NotPresent"@) {
        Some(Presence::NotPresent)
    } else {
        None
    }
}

fn parse_presence(v: &str) -> (r: Option<Presence>)
    ensures
        r == spec_parse_presence(v@),
{
    if str_eq_ci(v, "Present") {
        Some(Presence::Present)
    } else if str_eq_ci(v, "NotPresent") {
        Some(Presence::NotPresent)
    } else {
        None
    }
}

/// What parsing a device connectivity reading yields.
pub open spec fn spec_parse_device_status(v: Seq<char>) -> Option<DeviceStatus> {
    if ci_eq(v, "Online"@) {
        Some(DeviceStatus::Online)
    } else if ci_eq(v, "Offline"@) {
        Some(DeviceStatus::Offline)
    } else {
        None
    }
}

fn parse_device_status(v: &str) -> (r: Option<DeviceStatus>)
    ensures
        r == spec_parse_device_status(v@),
{
    if str_eq_ci(v, "Online") {
        Some(DeviceStatus::Online)
    } else if str_eq_ci(v, "Offline") {
        Some(DeviceStatus::Offline)
    } else {
        None
    }
}

/// What parsing a pressure unit tag yields.
pub open spec fn spec_parse_pressure_unit(u: Seq<char>) -> Option<PressureUnit> {
    if ci_eq(u, "kPa"@) {
        Some(PressureUnit::kPa)
    } else if ci_eq(u, "PSI"@) {
        Some(PressureUnit::PSI)
    } else {
        None
    }
}

fn parse_pressure_unit(u: &str) -> (r: Option<PressureUnit>)
    ensures
        r == spec_parse_pressure_unit(u@),
{
    if str_eq_ci(u, "kPa") {
        Some(PressureUnit::kPa)
    } else if str_eq_ci(u, "PSI") {
        Some(PressureUnit::PSI)
    } else {
        None
    }
}

/// What parsing a thermostat operating state yields.
pub open spec fn spec_parse_operating_state(v: Seq<char>) -> Option<ThermostatOperatingState> {
    if ci_eq(v, "Idle"@) {
        Some(ThermostatOperatingState::Idle)
    } else if ci_eq(v, "Cooling"@) {
        Some(ThermostatOperatingState::Cooling)
    } else if ci_eq(v, "Heating"@) {
        Some(ThermostatOperatingState::Heating)
    } else {
        None
    }
}

fn parse_operating_state(v: &str) -> (r: Option<ThermostatOperatingState>)
    ensures
        r == spec_parse_operating_state(v@),
{
    if str_eq_ci(v, "Idle") {
        Some(ThermostatOperatingState::Idle)
    } else if str_eq_ci(v, "Cooling") {
        Some(ThermostatOperatingState::Cooling)
    } else if str_eq_ci(v, "Heating") {
        Some(ThermostatOperatingState::Heating)
    } else {
        None
    }
}

/// What parsing a switch state yields.
pub open spec fn spec_parse_switch(v: Seq<char>) -> Option<SwitchState> {
    if ci_eq(v, "On"@) {
        Some(SwitchState::On)
    } else if ci_eq(v, "Off"@) {
        Some(SwitchState::Off)
    } else {
        None
    }
}

fn parse_switch(v: &str) -> (r: Option<SwitchState>)
    ensures
        r == spec_parse_switch(v@),
{
    if str_eq_ci(v, "On") {
        Some(SwitchState::On)
    } else if str_eq_ci(v, "Off") {
        Some(SwitchState::Off)
    } else {
        None
    }
}

/// The decoding table: which payload a raw message maps to, or which
/// error rejects it.  Dispatch is keyed by the `(source, name)` pair;
/// a known pair whose field data fails to parse is rejected whole, and
/// an unknown pair is rejected carrying the offending identifiers.
pub open spec fn spec_decode_payload(dto: DTO) -> Result<EventPayload, DecodeError> {
    if dto.source@ == "DEVICE"@ && dto.name@ == "battery"@ {
        match spec_parse_u8(dto.value@) {
            Some(p) => Ok(EventPayload::DeviceBattery { percent: p }),
            None => Err(DecodeError::ParseInt),
        }
    } else if dto.source@ == "DEVICE"@ && dto.name@ == "coolingSetpoint"@ {
        if !is_float_text(dto.value@) {
            Err(DecodeError::ParseFloat)
        } else {
            match spec_parse_temp_unit(dto.unit@) {
                Some(u) => Ok(
                    EventPayload::DeviceCoolingSetpoint {
                        value: FloatText { text: dto.value },
                        unit: u,
                    },
                ),
                None => Err(DecodeError::ParseEnum),
            }
        }
    } else if dto.source@ == "DEVICE"@ && dto.name@ == "humidity"@ {
        if is_float_text(dto.value@) {
            Ok(EventPayload::DeviceHumidity { rh: FloatText { text: dto.value } })
        } else {
            Err(DecodeError::ParseFloat)
        }
    } else if dto.source@ == "DEVICE"@ && dto.name@ == "lastCheckin"@ {
        match checkin_parse(dto.value@) {
            Some(secs) => Ok(EventPayload::DeviceLastCheckin(NaiveInstant { secs })),
            None => Err(DecodeError::ParseTimestamp),
        }
    } else if dto.source@ == "DEVICE"@ && dto.name@ == "lastCheckinEpoch"@ {
        match spec_parse_i64(dto.value@) {
            Some(secs) => Ok(
                EventPayload::DeviceLastCheckinEpoch(UtcInstant { secs, nanos: 0 }),
            ),
            None => Err(DecodeError::ParseInt),
        }
    } else if dto.source@ == "DEVICE"@ && dto.name@ == "power"@ {
        if !is_float_text(dto.value@) {
            Err(DecodeError::ParseFloat)
        } else {
            match spec_parse_power_unit(dto.unit@) {
                Some(u) => Ok(
                    EventPayload::DevicePower { value: FloatText { text: dto.value }, unit: u },
                ),
                None => Err(DecodeError::ParseEnum),
            }
        }
    } else if dto.source@ == "DEVICE"@ && dto.name@ == "presence"@ {
        match spec_parse_presence(dto.value@) {
            Some(p) => Ok(EventPayload::DevicePresence(p)),
            None => Err(DecodeError::ParseEnum),
        }
    } else if dto.source@ == "DEVICE"@ && dto.name@ == "pressure"@ {
        if !is_float_text(dto.value@) {
            Err(DecodeError::ParseFloat)
        } else {
            match spec_parse_pressure_unit(dto.unit@) {
                Some(u) => Ok(
                    EventPayload::DevicePressure {
                        pressure: FloatText { text: dto.value },
                        unit: u,
                    },
                ),
                None => Err(DecodeError::ParseEnum),
            }
        }
    } else if dto.source@ == "DEVICE"@ && dto.name@ == "status"@ {
        match spec_parse_device_status(dto.value@) {
            Some(st) => Ok(EventPayload::DeviceStatus(st)),
            None => Err(DecodeError::ParseEnum),
        }
    } else if dto.source@ == "DEVICE"@ && dto.name@ == "switch"@ {
        match spec_parse_switch(dto.value@) {
            Some(st) => Ok(EventPayload::DeviceSwitch { state: st }),
            None => Err(DecodeError::ParseEnum),
        }
    } else if dto.source@ == "DEVICE"@ && dto.name@ == "temperature"@ {
        if !is_float_text(dto.value@) {
            Err(DecodeError::ParseFloat)
        } else {
            match spec_parse_temp_unit(dto.unit@) {
                Some(u) => Ok(
                    EventPayload::DeviceTemperature {
                        value: FloatText { text: dto.value },
                        unit: u,
                    },
                ),
                None => Err(DecodeError::ParseEnum),
            }
        }
    } else if dto.source@ == "DEVICE"@ && dto.name@ == "thermostatOperatingState"@ {
        match spec_parse_operating_state(dto.value@) {
            Some(st) => Ok(EventPayload::DeviceThermostatOperatingState(st)),
            None => Err(DecodeError::ParseEnum),
        }
    } else if dto.source@ == "DEVICE"@ && dto.name@ == "thermostatSetpoint"@ {
        if !is_float_text(dto.value@) {
            Err(DecodeError::ParseFloat)
        } else {
            match spec_parse_temp_unit(dto.unit@) {
                Some(u) => Ok(
                    EventPayload::DeviceThermostatSetpoint {
                        value: FloatText { text: dto.value },
                        unit: u,
                    },
                ),
                None => Err(DecodeError::ParseEnum),
            }
        }
    } else if dto.source@ == "LOCATION"@ && dto.name@ == "sunrise"@ {
        match spec_parse_bool(dto.value@) {
            Some(b) => Ok(EventPayload::LocationSunrise(b)),
            None => Err(DecodeError::ParseBool),
        }
    } else if dto.source@ == "LOCATION"@ && dto.name@ == "sunriseTime"@ {
        match utc_text_parse(dto.value@) {
            Some(sn) => Ok(EventPayload::LocationSunriseTime(UtcInstant { secs: sn.0, nanos: sn.1 })),
            None => Err(DecodeError::ParseTimestamp),
        }
    } else if dto.source@ == "LOCATION"@ && dto.name@ == "sunset"@ {
        match spec_parse_bool(dto.value@) {
            Some(b) => Ok(EventPayload::LocationSunset(b)),
            None => Err(DecodeError::ParseBool),
        }
    } else if dto.source@ == "LOCATION"@ && dto.name@ == "sunsetTime"@ {
        match utc_text_parse(dto.value@) {
            Some(sn) => Ok(EventPayload::LocationSunsetTime(UtcInstant { secs: sn.0, nanos: sn.1 })),
            None => Err(DecodeError::ParseTimestamp),
        }
    } else {
        Err(DecodeError::UnknownType { source: dto.source, name: dto.name })
    }
}

fn decode_payload(dto: DTO) -> (r: Result<EventPayload, DecodeError>)
    ensures
        r == spec_decode_payload(dto),
{
    let is_device = str_eq(dto.source.as_str(), "DEVICE");
    let is_location = str_eq(dto.source.as_str(), "LOCATION");
    if is_device && str_eq(dto.name.as_str(), "battery") {
        match parse_u8(dto.value.as_str()) {
            Some(p) => Ok(EventPayload::DeviceBattery { percent: p }),
            None => Err(DecodeError::ParseInt),
        }
    } else if is_device && str_eq(dto.name.as_str(), "coolingSetpoint") {
        if !check_float_text(dto.value.as_str()) {
            Err(DecodeError::ParseFloat)
        } else {
            match parse_temp_unit(dto.unit.as_str()) {
                Some(u) => Ok(
                    EventPayload::DeviceCoolingSetpoint {
                        value: FloatText { text: dto.value },
                        unit: u,
                    },
                ),
                None => Err(DecodeError::ParseEnum),
            }
        }
    } else if is_device && str_eq(dto.name.as_str(), "humidity") {
        if check_float_text(dto.value.as_str()) {
            Ok(EventPayload::DeviceHumidity { rh: FloatText { text: dto.value } })
        } else {
            Err(DecodeError::ParseFloat)
        }
    } else if is_device && str_eq(dto.name.as_str(), "lastCheckin") {
        match parse_checkin(dto.value.as_str()) {
            Some(secs) => Ok(EventPayload::DeviceLastCheckin(NaiveInstant { secs })),
            None => Err(DecodeError::ParseTimestamp),
        }
    } else if is_device && str_eq(dto.name.as_str(), "lastCheckinEpoch") {
        match parse_i64(dto.value.as_str()) {
            Some(secs) => Ok(
                EventPayload::DeviceLastCheckinEpoch(UtcInstant { secs, nanos: 0 }),
            ),
            None => Err(DecodeError::ParseInt),
        }
    } else if is_device && str_eq(dto.name.as_str(), "power") {
        if !check_float_text(dto.value.as_str()) {
            Err(DecodeError::ParseFloat)
        } else {
            match parse_power_unit(dto.unit.as_str()) {
                Some(u) => Ok(
                    EventPayload::DevicePower { value: FloatText { text: dto.value }, unit: u },
                ),
                None => Err(DecodeError::ParseEnum),
            }
        }
    } else if is_device && str_eq(dto.name.as_str(), "presence") {
        match parse_presence(dto.value.as_str()) {
            Some(p) => Ok(EventPayload::DevicePresence(p)),
            None => Err(DecodeError::ParseEnum),
        }
    } else if is_device && str_eq(dto.name.as_str(), "pressure") {
        if !check_float_text(dto.value.as_str()) {
            Err(DecodeError::ParseFloat)
        } else {
            match parse_pressure_unit(dto.unit.as_str()) {
                Some(u) => Ok(
                    EventPayload::DevicePressure {
                        pressure: FloatText { text: dto.value },
                        unit: u,
                    },
                ),
                None => Err(DecodeError::ParseEnum),
            }
        }
    } else if is_device && str_eq(dto.name.as_str(), "status") {
        match parse_device_status(dto.value.as_str()) {
            Some(st) => Ok(EventPayload::DeviceStatus(st)),
            None => Err(DecodeError::ParseEnum),
        }
    } else if is_device && str_eq(dto.name.as_str(), "switch") {
        match parse_switch(dto.value.as_str()) {
            Some(st) => Ok(EventPayload::DeviceSwitch { state: st }),
            None => Err(DecodeError::ParseEnum),
        }
    } else if is_device && str_eq(dto.name.as_str(), "temperature") {
        if !check_float_text(dto.value.as_str()) {
            Err(DecodeError::ParseFloat)
        } else {
            match parse_temp_unit(dto.unit.as_str()) {
                Some(u) => Ok(
                    EventPayload::DeviceTemperature {
                        value: FloatText { text: dto.value },
                        unit: u,
                    },
                ),
                None => Err(DecodeError::ParseEnum),
            }
        }
    } else if is_device && str_eq(dto.name.as_str(), "thermostatOperatingState") {
        match parse_operating_state(dto.value.as_str()) {
            Some(st) => Ok(EventPayload::DeviceThermostatOperatingState(st)),
            None => Err(DecodeError::ParseEnum),
        }
    } else if is_device && str_eq(dto.name.as_str(), "thermostatSetpoint") {
        if !check_float_text(dto.value.as_str()) {
            Err(DecodeError::ParseFloat)
        } else {
            match parse_temp_unit(dto.unit.as_str()) {
                Some(u) => Ok(
                    EventPayload::DeviceThermostatSetpoint {
                        value: FloatText { text: dto.value },
                        unit: u,
                    },
                ),
                None => Err(DecodeError::ParseEnum),
            }
        }
    } else if is_location && str_eq(dto.name.as_str(), "sunrise") {
        match parse_bool(dto.value.as_str()) {
            Some(b) => Ok(EventPayload::LocationSunrise(b)),
            None => Err(DecodeError::ParseBool),
        }
    } else if is_location && str_eq(dto.name.as_str(), "sunriseTime") {
        match parse_utc_text(dto.value.as_str()) {
            Some(sn) => Ok(
                EventPayload::LocationSunriseTime(UtcInstant { secs: sn.0, nanos: sn.1 }),
            ),
            None => Err(DecodeError::ParseTimestamp),
        }
    } else if is_location && str_eq(dto.name.as_str(), "sunset") {
        match parse_bool(dto.value.as_str()) {
            Some(b) => Ok(EventPayload::LocationSunset(b)),
            None => Err(DecodeError::ParseBool),
        }
    } else if is_location && str_eq(dto.name.as_str(), "sunsetTime") {
        match parse_utc_text(dto.value.as_str()) {
            Some(sn) => Ok(
                EventPayload::LocationSunsetTime(UtcInstant { secs: sn.0, nanos: sn.1 }),
            ),
            None => Err(DecodeError::ParseTimestamp),
        }
    } else {
        Err(DecodeError::UnknownType { source: dto.source, name: dto.name })
    }
}

impl Event {
    /// Decode a raw message into a typed event, or reject it.  On
    /// success the payload, device name and identifiers are determined
    /// by the message; the capture timestamp is read from the clock at
    /// decode time.  On failure the error is exactly what the decoding
    /// table assigns, and nothing else of the message survives.
    pub fn from_dto(dto: DTO) -> (r: Result<Event, DecodeError>)
        ensures
            r is Ok <==> spec_decode_payload(dto) is Ok,
            r matches Ok(ev) ==> {
                &&& spec_decode_payload(dto) matches Ok(p) && ev.payload == p
                &&& ev.device_name@ == dto.display_name@
                &&& ev.device_id == dto.device_id
                &&& ev.hub_id == dto.hub_id
                &&& ev.date.nanos < 2_000_000_000
            },
            r matches Err(e) ==> spec_decode_payload(dto) matches Err(e2) && e == e2,
    {
        let display_name = dto.display_name.clone();
        let device_id = dto.device_id;
        let hub_id = dto.hub_id;
        match decode_payload(dto) {
            Ok(payload) => Ok(
                Event {
                    date: now_utc(),
                    device_name: display_name,
                    device_id,
                    hub_id,
                    payload,
                },
            ),
            Err(e) => Err(e),
        }
    }
}

} // verus!
