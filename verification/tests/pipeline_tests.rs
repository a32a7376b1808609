use ruuvi_collector::collector::{
    collection_complete, poll_sleep_secs, remaining_secs, Measurements, ScanPair,
    COLLECTION_INTERVAL_SECS,
};
use ruuvi_collector::config::SensorConfig;
use ruuvi_collector::database::{prepare_connection, retry_begin, store_step, StoreStep};
use ruuvi_collector::utils::duration_to_seconds;

fn payload_with_counter(movement_counter: u8) -> Vec<u8> {
    let mut p = vec![
        0x05, 0x12, 0xFC, 0x53, 0x94, 0xC3, 0x7C, 0x00, 0x04, 0xFF, 0xFC, 0x04, 0x0C, 0xAC, 0x36,
        0x00, 0x00, 0xCD, 0xCB, 0xB8, 0x33, 0x4C, 0x88, 0x4F,
    ];
    p[15] = movement_counter;
    p
}

#[test]
fn scan_pairs_are_filtered_and_accumulated() {
    let config = SensorConfig::new("AA=Kitchen", String::new()).unwrap();
    let mut m = Measurements::new();
    let pairs = vec![
        ScanPair { address: String::from("AA"), payload: payload_with_counter(1) },
        // Unregistered device: silently ignored.
        ScanPair { address: String::from("BB"), payload: payload_with_counter(2) },
        // Registered device, malformed payload: dropped.
        ScanPair { address: String::from("AA"), payload: vec![0x05, 0x00] },
    ];
    m.process_scan(&config, &pairs);
    assert_eq!(m.device_count(), 1);
    assert_eq!(m.series[0].sensor_id, "AA");
    assert_eq!(m.series[0].readings.len(), 1);
    assert_eq!(m.series[0].readings[0].movement_counter, 1);
}

#[test]
fn poll_timing_follows_the_window() {
    assert!(!collection_complete(0));
    assert!(!collection_complete(COLLECTION_INTERVAL_SECS - 1));
    assert!(collection_complete(COLLECTION_INTERVAL_SECS));
    assert_eq!(remaining_secs(0), 1800);
    assert_eq!(remaining_secs(1795), 5);
    assert_eq!(remaining_secs(2000), 0);
    // Poll spacing less scan time is 10 seconds, capped by what is left.
    assert_eq!(poll_sleep_secs(0), 10);
    assert_eq!(poll_sleep_secs(1795), 5);
    assert_eq!(poll_sleep_secs(1800), 0);
}

#[test]
fn duration_seconds_reinterprets_sign() {
    assert_eq!(duration_to_seconds(90), 90);
    assert_eq!(duration_to_seconds(0), 0);
    assert_eq!(duration_to_seconds(-1), u64::MAX);
}

#[test]
fn one_window_end_to_end() {
    // One registered device, three scan passes with valid payloads.
    let config = SensorConfig::new(
        "DE:AD:BE:EF:00:01=Greenhouse",
        String::from("postgres://u@h/db?sslrootcert=/ca.pem"),
    )
    .unwrap();
    let device = String::from("DE:AD:BE:EF:00:01");
    let mut m = Measurements::new();
    for counter in [10u8, 11, 13] {
        let pairs = vec![ScanPair { address: device.clone(), payload: payload_with_counter(counter) }];
        m.process_scan(&config, &pairs);
    }
    assert!(collection_complete(1800));
    let averages = ruuvi_collector::utils::calculate_averages(&m, &config, 1_700_000_000);
    // Exactly one record, with all three samples.
    assert_eq!(averages.len(), 1);
    let entry = &averages[0];
    assert_eq!(entry.sensor_id, device);
    assert_eq!(entry.data.samples, 3);
    assert_eq!(entry.data.name, "Greenhouse");
    assert_eq!(entry.data.movement_counter, 3);
    assert_eq!(entry.data.temperature, 2430);
    // Two storage calls, one per channel, each with its own retry budget.
    for _channel in 0..2 {
        let plan = prepare_connection(&config.database_url).unwrap();
        assert_eq!(plan.sslrootcert, "/ca.pem");
        assert_eq!(plan.clean_url, "postgres://u@h/db");
        let mut st = retry_begin();
        assert_eq!(store_step(&mut st, true), StoreStep::Done);
        assert_eq!(st.attempts_used, 1);
    }
}
