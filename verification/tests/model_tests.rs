use telemetry_log::model::{
    DecodeError, DeviceStatus, Event, EventPayload, NaiveInstant, Presence, PressureUnit,
    SwitchState, TempUnit, ThermostatOperatingState, UtcInstant, DTO,
};

fn dto(source: &str, name: &str, value: &str, unit: &str) -> DTO {
    DTO {
        source: source.to_string(),
        name: name.to_string(),
        display_name: "Test Device".to_string(),
        value: value.to_string(),
        unit: unit.to_string(),
        device_id: 11,
        hub_id: 22,
        installed_app_id: 33,
        description_text: "desc".to_string(),
    }
}

#[test]
fn switch_on_decodes() {
    let ev = Event::from_dto(dto("DEVICE", "switch", "on", "")).unwrap();
    assert_eq!(
        ev.payload,
        EventPayload::DeviceSwitch {
            state: SwitchState::On
        }
    );
    assert_eq!(ev.device_name, "Test Device");
    assert_eq!(ev.device_id, 11);
    assert_eq!(ev.hub_id, 22);
}

#[test]
fn switch_bad_value_is_a_parse_error() {
    let err = Event::from_dto(dto("DEVICE", "switch", "maybe", "")).unwrap_err();
    assert_eq!(err, DecodeError::ParseEnum);
}

#[test]
fn unknown_name_is_rejected_with_identifiers() {
    let err = Event::from_dto(dto("DEVICE", "unknownAttribute", "on", "")).unwrap_err();
    assert_eq!(
        err,
        DecodeError::UnknownType {
            source: "DEVICE".to_string(),
            name: "unknownAttribute".to_string()
        }
    );
}

#[test]
fn unknown_source_is_rejected() {
    let err = Event::from_dto(dto("HUB", "switch", "on", "")).unwrap_err();
    assert!(matches!(err, DecodeError::UnknownType { .. }));
}

#[test]
fn battery_percent_parses() {
    let ev = Event::from_dto(dto("DEVICE", "battery", "42", "")).unwrap();
    assert_eq!(ev.payload, EventPayload::DeviceBattery { percent: 42 });
}

#[test]
fn battery_out_of_range_is_parse_int() {
    let err = Event::from_dto(dto("DEVICE", "battery", "256", "")).unwrap_err();
    assert_eq!(err, DecodeError::ParseInt);
}

#[test]
fn temperature_with_unit() {
    let ev = Event::from_dto(dto("DEVICE", "temperature", "72.5", "°F")).unwrap();
    match ev.payload {
        EventPayload::DeviceTemperature { value, unit } => {
            assert_eq!(value.text, "72.5");
            assert_eq!(unit, TempUnit::F);
        }
        other => panic!("wrong payload {:?}", other),
    }
}

#[test]
fn temperature_bad_value_is_parse_float() {
    let err = Event::from_dto(dto("DEVICE", "temperature", "warm", "°C")).unwrap_err();
    assert_eq!(err, DecodeError::ParseFloat);
}

#[test]
fn temperature_bad_unit_is_parse_enum() {
    let err = Event::from_dto(dto("DEVICE", "temperature", "72.5", "F")).unwrap_err();
    assert_eq!(err, DecodeError::ParseEnum);
}

#[test]
fn humidity_keeps_literal_text() {
    let ev = Event::from_dto(dto("DEVICE", "humidity", "007.250", "")).unwrap();
    match ev.payload {
        EventPayload::DeviceHumidity { rh } => assert_eq!(rh.text, "007.250"),
        other => panic!("wrong payload {:?}", other),
    }
}

#[test]
fn cooling_setpoint_with_unit() {
    let ev = Event::from_dto(dto("DEVICE", "coolingSetpoint", "21", "°C")).unwrap();
    match ev.payload {
        EventPayload::DeviceCoolingSetpoint { value, unit } => {
            assert_eq!(value.text, "21");
            assert_eq!(unit, TempUnit::C);
        }
        other => panic!("wrong payload {:?}", other),
    }
}

#[test]
fn thermostat_setpoint_with_unit() {
    let ev = Event::from_dto(dto("DEVICE", "thermostatSetpoint", "68.0", "°F")).unwrap();
    assert!(matches!(
        ev.payload,
        EventPayload::DeviceThermostatSetpoint { .. }
    ));
}

#[test]
fn power_unit_is_exact() {
    let ev = Event::from_dto(dto("DEVICE", "power", "5.5", "W")).unwrap();
    assert!(matches!(ev.payload, EventPayload::DevicePower { .. }));
    let err = Event::from_dto(dto("DEVICE", "power", "5.5", "w")).unwrap_err();
    assert_eq!(err, DecodeError::ParseEnum);
}

#[test]
fn pressure_unit_is_case_insensitive() {
    let ev = Event::from_dto(dto("DEVICE", "pressure", "101.3", "kpa")).unwrap();
    match ev.payload {
        EventPayload::DevicePressure { pressure, unit } => {
            assert_eq!(pressure.text, "101.3");
            assert_eq!(unit, PressureUnit::kPa);
        }
        other => panic!("wrong payload {:?}", other),
    }
    let ev = Event::from_dto(dto("DEVICE", "pressure", "14.7", "psi")).unwrap();
    assert!(matches!(
        ev.payload,
        EventPayload::DevicePressure {
            unit: PressureUnit::PSI,
            ..
        }
    ));
}

#[test]
fn presence_is_case_insensitive() {
    let ev = Event::from_dto(dto("DEVICE", "presence", "PRESENT", "")).unwrap();
    assert_eq!(ev.payload, EventPayload::DevicePresence(Presence::Present));
    let ev = Event::from_dto(dto("DEVICE", "presence", "notpresent", "")).unwrap();
    assert_eq!(
        ev.payload,
        EventPayload::DevicePresence(Presence::NotPresent)
    );
}

#[test]
fn status_decodes() {
    let ev = Event::from_dto(dto("DEVICE", "status", "online", "")).unwrap();
    assert_eq!(ev.payload, EventPayload::DeviceStatus(DeviceStatus::Online));
    let err = Event::from_dto(dto("DEVICE", "status", "sleepy", "")).unwrap_err();
    assert_eq!(err, DecodeError::ParseEnum);
}

#[test]
fn operating_state_decodes() {
    let ev = Event::from_dto(dto("DEVICE", "thermostatOperatingState", "cooling", "")).unwrap();
    assert_eq!(
        ev.payload,
        EventPayload::DeviceThermostatOperatingState(ThermostatOperatingState::Cooling)
    );
}

#[test]
fn last_checkin_epoch_parses_integer_seconds() {
    let ev = Event::from_dto(dto("DEVICE", "lastCheckinEpoch", "1600000000", "")).unwrap();
    assert_eq!(
        ev.payload,
        EventPayload::DeviceLastCheckinEpoch(UtcInstant {
            secs: 1600000000,
            nanos: 0
        })
    );
    let err = Event::from_dto(dto("DEVICE", "lastCheckinEpoch", "soon", "")).unwrap_err();
    assert_eq!(err, DecodeError::ParseInt);
}

#[test]
fn last_checkin_parses_fixed_format() {
    let ev = Event::from_dto(dto("DEVICE", "lastCheckin", "2020-01-02 03:04:05", "")).unwrap();
    let expected = chrono::NaiveDateTime::parse_from_str("2020-01-02 03:04:05", "%Y-%m-%d %H:%M:%S")
        .unwrap()
        .and_utc()
        .timestamp();
    assert_eq!(
        ev.payload,
        EventPayload::DeviceLastCheckin(NaiveInstant { secs: expected })
    );
    assert_eq!(expected, 1577934245);
}

#[test]
fn last_checkin_rejects_bad_format() {
    let err = Event::from_dto(dto("DEVICE", "lastCheckin", "2020-02-30 03:04:05", "")).unwrap_err();
    assert_eq!(err, DecodeError::ParseTimestamp);
}

#[test]
fn sunrise_and_sunset_are_booleans() {
    let ev = Event::from_dto(dto("LOCATION", "sunrise", "true", "")).unwrap();
    assert_eq!(ev.payload, EventPayload::LocationSunrise(true));
    let ev = Event::from_dto(dto("LOCATION", "sunset", "false", "")).unwrap();
    assert_eq!(ev.payload, EventPayload::LocationSunset(false));
    let err = Event::from_dto(dto("LOCATION", "sunrise", "TRUE", "")).unwrap_err();
    assert_eq!(err, DecodeError::ParseBool);
}

#[test]
fn sunrise_time_parses_utc_text() {
    let text = "2020-09-13T12:26:40Z";
    let ev = Event::from_dto(dto("LOCATION", "sunriseTime", text, "")).unwrap();
    let expected: chrono::DateTime<chrono::Utc> = text.parse().unwrap();
    assert_eq!(
        ev.payload,
        EventPayload::LocationSunriseTime(UtcInstant {
            secs: expected.timestamp(),
            nanos: expected.timestamp_subsec_nanos()
        })
    );
    assert_eq!(expected.timestamp(), 1600000000);
}

#[test]
fn sunset_time_rejects_bad_text() {
    let err = Event::from_dto(dto("LOCATION", "sunsetTime", "yesterday", "")).unwrap_err();
    assert_eq!(err, DecodeError::ParseTimestamp);
}

#[test]
fn observed_at_is_decode_time() {
    let before = chrono::Utc::now().timestamp();
    let ev = Event::from_dto(dto("DEVICE", "switch", "off", "")).unwrap();
    let after = chrono::Utc::now().timestamp();
    assert!(before <= ev.date.secs && ev.date.secs <= after);
}
