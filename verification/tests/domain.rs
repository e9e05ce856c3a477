use powerstats::android_os_powerstatsservice::{
    PowerMonitor, PowerMonitorReadings, PowerMonitorType, ReceiveError,
    ReceivePowerMonitorReadings, ReceiveSupportedPowerMonitors, KEY_ENERGY, KEY_MONITORS,
    KEY_TIMESTAMPS,
};
use powerstats::bundle::{Bundle, CreatorRegistry, ParcelableCreator, VAL_LONGARRAY, VAL_PARCELABLEARRAY};
use powerstats::cursor::Cursor;
use powerstats::{
    consumer_of_monitor, energy_consumers_from_monitors, energy_meters_from_monitors,
    meter_of_monitor, meter_readings_from, parse_i32, EnergyConsumer, EnergyConsumerReading,
    EnergyConsumerType, EnergyMeter, EnergyMeterReading,
};

fn push_i32(b: &mut Vec<u8>, v: i32) {
    b.extend_from_slice(&v.to_le_bytes());
}

fn push_u32(b: &mut Vec<u8>, v: u32) {
    b.extend_from_slice(&v.to_le_bytes());
}

fn push_i64(b: &mut Vec<u8>, v: i64) {
    b.extend_from_slice(&v.to_le_bytes());
}

fn push_plain_string(b: &mut Vec<u8>, s: &str) {
    let bytes = s.as_bytes();
    push_i32(b, bytes.len() as i32);
    b.extend_from_slice(bytes);
    while b.len() % 4 != 0 {
        b.push(0);
    }
}

fn push_string8(b: &mut Vec<u8>, s: &str) {
    let bytes = s.as_bytes();
    push_u32(b, bytes.len() as u32);
    b.extend_from_slice(bytes);
    b.push(0);
    while b.len() % 4 != 0 {
        b.push(0);
    }
}

fn monitor(index: i32, kind: PowerMonitorType, name: &str) -> PowerMonitor {
    PowerMonitor { index, kind, name: name.to_owned() }
}

#[test]
fn parse_i32_grammar() {
    assert_eq!(parse_i32("0"), Some(0));
    assert_eq!(parse_i32("42"), Some(42));
    assert_eq!(parse_i32("+7"), Some(7));
    assert_eq!(parse_i32("-13"), Some(-13));
    assert_eq!(parse_i32("2147483647"), Some(i32::MAX));
    assert_eq!(parse_i32("-2147483648"), Some(i32::MIN));
    assert_eq!(parse_i32("2147483648"), None);
    assert_eq!(parse_i32("-2147483649"), None);
    assert_eq!(parse_i32("99999999999999999999"), None);
    assert_eq!(parse_i32(""), None);
    assert_eq!(parse_i32("+"), None);
    assert_eq!(parse_i32("-"), None);
    assert_eq!(parse_i32("4x"), None);
    assert_eq!(parse_i32("--1"), None);
    assert_eq!(parse_i32(" 5"), None);
}

#[test]
fn consumer_type_names() {
    assert_eq!(
        EnergyConsumerType::from_name(&"OTHER".to_owned()),
        Some(EnergyConsumerType::Other)
    );
    assert_eq!(
        EnergyConsumerType::from_name(&"CPU".to_owned()),
        Some(EnergyConsumerType::CpuCluster)
    );
    assert_eq!(
        EnergyConsumerType::from_name(&"WIFI".to_owned()),
        Some(EnergyConsumerType::Wifi)
    );
    assert_eq!(
        EnergyConsumerType::from_name(&"MOBILE_RADIO".to_owned()),
        Some(EnergyConsumerType::MobileRadio)
    );
    assert_eq!(EnergyConsumerType::from_name(&"GPU".to_owned()), None);
    assert_eq!("CAMERA".parse(), Ok(EnergyConsumerType::Camera));
    assert_eq!("gpu".parse::<EnergyConsumerType>(), Err(()));
}

#[test]
fn meter_from_monitor_name() {
    let m = monitor(3, PowerMonitorType::Measurement, "[rail0]:GPU");
    assert_eq!(
        meter_of_monitor(&m),
        Some(EnergyMeter {
            id: 3,
            name: "rail0".to_owned(),
            subsystem: "GPU".to_owned(),
        })
    );
    assert_eq!(
        meter_of_monitor(&monitor(1, PowerMonitorType::Measurement, "rail0:GPU")),
        None
    );
    assert_eq!(
        meter_of_monitor(&monitor(1, PowerMonitorType::Measurement, "[rail0]GPU")),
        None
    );
}

#[test]
fn consumer_from_monitor_name() {
    assert_eq!(
        consumer_of_monitor(&monitor(5, PowerMonitorType::Consumer, "CPU/2")),
        Some(EnergyConsumer {
            id: 5,
            name: "CPU".to_owned(),
            ordinal: 2,
            kind: EnergyConsumerType::CpuCluster,
        })
    );
    assert_eq!(
        consumer_of_monitor(&monitor(6, PowerMonitorType::Consumer, "GPU")),
        Some(EnergyConsumer {
            id: 6,
            name: "GPU".to_owned(),
            ordinal: 0,
            kind: EnergyConsumerType::Other,
        })
    );
    assert_eq!(
        consumer_of_monitor(&monitor(7, PowerMonitorType::Consumer, "CPU/x")),
        None
    );
}

#[test]
fn meters_filter_measurement_monitors() {
    let monitors = vec![
        monitor(0, PowerMonitorType::Consumer, "GPU"),
        monitor(1, PowerMonitorType::Measurement, "[rail0]:GPU"),
        monitor(2, PowerMonitorType::Measurement, "[rail1]:CPU"),
    ];
    let meters = energy_meters_from_monitors(&monitors).unwrap();
    assert_eq!(
        meters,
        vec![
            EnergyMeter { id: 1, name: "rail0".to_owned(), subsystem: "GPU".to_owned() },
            EnergyMeter { id: 2, name: "rail1".to_owned(), subsystem: "CPU".to_owned() },
        ]
    );
    let malformed = vec![monitor(1, PowerMonitorType::Measurement, "rail0")];
    assert_eq!(energy_meters_from_monitors(&malformed), None);
}

#[test]
fn consumers_filter_consumer_monitors() {
    let monitors = vec![
        monitor(0, PowerMonitorType::Consumer, "CPU/1"),
        monitor(1, PowerMonitorType::Measurement, "[rail0]:GPU"),
        monitor(2, PowerMonitorType::Consumer, "GPU"),
    ];
    let consumers = energy_consumers_from_monitors(&monitors).unwrap();
    assert_eq!(
        consumers,
        vec![
            EnergyConsumer {
                id: 0,
                name: "CPU".to_owned(),
                ordinal: 1,
                kind: EnergyConsumerType::CpuCluster,
            },
            EnergyConsumer {
                id: 2,
                name: "GPU".to_owned(),
                ordinal: 0,
                kind: EnergyConsumerType::Other,
            },
        ]
    );
}

#[test]
fn readings_zip_to_shorter_list() {
    let readings = PowerMonitorReadings {
        timestamps_ms: vec![10, 20],
        energy_uws: vec![100],
    };
    let got = meter_readings_from(&readings).unwrap();
    assert_eq!(
        got,
        vec![EnergyMeterReading { timestamp: 10, duration: None, energy_uws: 100 }]
    );
    let negative = PowerMonitorReadings {
        timestamps_ms: vec![10, -1],
        energy_uws: vec![100, 200],
    };
    assert_eq!(meter_readings_from(&negative), None);
}

#[test]
fn reading_conversions() {
    assert_eq!(
        EnergyMeterReading::from_measurement(5, 7, -3),
        Some(EnergyMeterReading { timestamp: 5, duration: Some(7), energy_uws: -3 })
    );
    assert_eq!(EnergyMeterReading::from_measurement(-5, 7, 3), None);
    let consumer = EnergyConsumerReading::from_result(5, 9, vec![]).unwrap();
    assert_eq!(consumer.timestamp, 5);
    assert_eq!(consumer.energy_uws, 9);
    assert!(consumer.attribution.is_empty());
    assert_eq!(EnergyConsumerReading::from_result(-1, 9, vec![]), None);
    let from_meter = EnergyConsumerReading::from_meter_reading(EnergyMeterReading {
        timestamp: 8,
        duration: None,
        energy_uws: 2,
    });
    assert_eq!(from_meter.timestamp, 8);
    assert_eq!(from_meter.energy_uws, 2);
    assert!(from_meter.attribution.is_empty());
}

/// A container with one polymorphic-record-array entry of power monitors.
fn monitors_bundle(names_kinds: &[(i32, PowerMonitorType, &str)]) -> Bundle {
    let mut buf = Vec::new();
    push_i32(&mut buf, 1); // presence
    push_i32(&mut buf, 1); // non-zero length; not validated further
    push_i32(&mut buf, 0x4C444E42); // magic
    push_i32(&mut buf, 1); // one entry
    push_plain_string(&mut buf, KEY_MONITORS);
    let mut payload = Vec::new();
    push_i32(&mut payload, names_kinds.len() as i32);
    for (index, kind, name) in names_kinds {
        push_plain_string(&mut payload, "android.os.PowerMonitor");
        push_i32(&mut payload, *index);
        push_i32(
            &mut payload,
            match kind {
                PowerMonitorType::Consumer => 0,
                PowerMonitorType::Measurement => 1,
            },
        );
        push_string8(&mut payload, name);
    }
    push_i32(&mut buf, VAL_PARCELABLEARRAY);
    push_i32(&mut buf, payload.len() as i32);
    buf.extend_from_slice(&payload);
    let (_, registry) = ReceiveSupportedPowerMonitors::new();
    let mut cur = Cursor::new(buf);
    Bundle::deserialize(&mut cur, &registry).unwrap()
}

#[test]
fn receive_supported_monitors_delivery() {
    let bundle = monitors_bundle(&[
        (0, PowerMonitorType::Consumer, "GPU"),
        (1, PowerMonitorType::Measurement, "[rail0]:GPU"),
    ]);
    let (receiver, _) = ReceiveSupportedPowerMonitors::new();
    let monitors = receiver.send(0, &bundle).unwrap();
    assert_eq!(
        monitors,
        vec![
            monitor(0, PowerMonitorType::Consumer, "GPU"),
            monitor(1, PowerMonitorType::Measurement, "[rail0]:GPU"),
        ]
    );
    assert_eq!(receiver.send(1, &bundle), Err(ReceiveError::BadCode(1)));
}

#[test]
fn receive_supported_monitors_missing_or_wrong() {
    let (receiver, registry) = ReceiveSupportedPowerMonitors::new();
    // empty container: no monitors key at all
    let mut buf = Vec::new();
    push_i32(&mut buf, 1);
    push_i32(&mut buf, 0);
    let mut cur = Cursor::new(buf);
    let empty = Bundle::deserialize(&mut cur, &registry).unwrap();
    assert_eq!(receiver.send(0, &empty), Err(ReceiveError::MissingKey));
    // a long array under the monitors key: wrong kind
    let mut buf = Vec::new();
    push_i32(&mut buf, 1);
    push_i32(&mut buf, 1);
    push_i32(&mut buf, 0);
    push_i32(&mut buf, 1);
    push_plain_string(&mut buf, KEY_MONITORS);
    push_i32(&mut buf, VAL_LONGARRAY);
    push_i32(&mut buf, 1);
    push_i64(&mut buf, 4);
    let mut cur = Cursor::new(buf);
    let wrong = Bundle::deserialize(&mut cur, &registry).unwrap();
    assert_eq!(receiver.send(0, &wrong), Err(ReceiveError::WrongKind));
}

#[test]
fn receive_readings_delivery() {
    let registry = CreatorRegistry::new();
    let mut buf = Vec::new();
    push_i32(&mut buf, 1);
    push_i32(&mut buf, 1);
    push_i32(&mut buf, 0x4C444E44);
    push_i32(&mut buf, 2);
    push_plain_string(&mut buf, KEY_TIMESTAMPS);
    push_i32(&mut buf, VAL_LONGARRAY);
    push_i32(&mut buf, 2);
    push_i64(&mut buf, 10);
    push_i64(&mut buf, 20);
    push_plain_string(&mut buf, KEY_ENERGY);
    push_i32(&mut buf, VAL_LONGARRAY);
    push_i32(&mut buf, 2);
    push_i64(&mut buf, 100);
    push_i64(&mut buf, 200);
    let mut cur = Cursor::new(buf);
    let bundle = Bundle::deserialize(&mut cur, &registry).unwrap();
    let receiver = ReceivePowerMonitorReadings::new();
    let readings = receiver.send(0, &bundle).unwrap();
    assert_eq!(readings.timestamps_ms, vec![10, 20]);
    assert_eq!(readings.energy_uws, vec![100, 200]);
    assert_eq!(receiver.send(3, &bundle), Err(ReceiveError::BadCode(3)));
    let meter_readings = meter_readings_from(&readings).unwrap();
    assert_eq!(
        meter_readings,
        vec![
            EnergyMeterReading { timestamp: 10, duration: None, energy_uws: 100 },
            EnergyMeterReading { timestamp: 20, duration: None, energy_uws: 200 },
        ]
    );
}

#[test]
fn opaque_creator_is_distinct_registration() {
    let (_, mut registry) = ReceiveSupportedPowerMonitors::new();
    // a later registration under the same name replaces the monitor decoder
    powerstats::bundle::register_creator(
        &mut registry,
        "android.os.PowerMonitor".to_owned(),
        ParcelableCreator::Opaque { words: 1 },
    );
    assert_eq!(
        registry.lookup(&"android.os.PowerMonitor".to_owned()),
        Some(ParcelableCreator::Opaque { words: 1 })
    );
}
