use ruuvi_collector::collector::Measurements;
use ruuvi_collector::config::SensorConfig;
use ruuvi_collector::models::RuuviData;
use ruuvi_collector::utils::{average_readings, calculate_averages};

fn reading(temperature: i32, movement_counter: u8) -> RuuviData {
    RuuviData {
        temperature,
        humidity: 5000,
        pressure: 100000,
        acceleration_x: 10,
        acceleration_y: -10,
        acceleration_z: 1000,
        movement_counter,
    }
}

#[test]
fn temperature_mean_rounds_to_two_decimals() {
    // 20.00, 20.50 and 21.00 C average to 20.50 C.
    let readings = vec![reading(2000, 0), reading(2050, 0), reading(2100, 0)];
    let avg = average_readings(&readings, String::from("Kitchen"), 1_700_000_000);
    assert_eq!(avg.temperature, 2050);
    assert_eq!(avg.samples, 3);
    assert_eq!(avg.name, "Kitchen");
    assert_eq!(avg.time, 1_700_000_000);
}

#[test]
fn mean_rounds_half_away_from_zero() {
    // (0 + 1) / 2 rounds up to 1; (0 - 1) / 2 rounds down to -1.
    let up = vec![reading(0, 0), reading(1, 0)];
    assert_eq!(average_readings(&up, String::new(), 0).temperature, 1);
    let down = vec![reading(0, 0), reading(-1, 0)];
    assert_eq!(average_readings(&down, String::new(), 0).temperature, -1);
}

#[test]
fn movement_delta_wraps_in_eight_bits() {
    // Counters 250 then 10: the delta is (10 - 250) mod 256 = 16.
    let readings = vec![reading(2000, 250), reading(2000, 77), reading(2000, 10)];
    let avg = average_readings(&readings, String::new(), 0);
    assert_eq!(avg.movement_counter, 16);
}

#[test]
fn movement_delta_uses_endpoint_samples_only() {
    let readings = vec![reading(2000, 5), reading(2000, 200), reading(2000, 8)];
    let avg = average_readings(&readings, String::new(), 0);
    assert_eq!(avg.movement_counter, 3);
}

#[test]
fn empty_series_yields_no_record() {
    let config = SensorConfig::new("AA=Kitchen,BB=Cellar", String::new()).unwrap();
    let mut m = Measurements::new();
    let aa = String::from("AA");
    m.push_reading(&aa, reading(2000, 0));
    // Drain BB's series so the device stands in the map without readings.
    m.push_reading(&String::from("BB"), reading(2100, 0));
    m.series[1].readings.clear();
    let averages = calculate_averages(&m, &config, 0);
    assert_eq!(averages.len(), 1);
    assert_eq!(averages[0].sensor_id, "AA");
}

#[test]
fn empty_map_yields_no_records() {
    let config = SensorConfig::new("AA=Kitchen", String::new()).unwrap();
    let m = Measurements::new();
    assert!(calculate_averages(&m, &config, 0).is_empty());
}

#[test]
fn unregistered_device_gets_placeholder_name() {
    let config = SensorConfig::new("AA=Kitchen", String::new()).unwrap();
    let mut m = Measurements::new();
    m.push_reading(&String::from("ZZ"), reading(2000, 0));
    let averages = calculate_averages(&m, &config, 0);
    assert_eq!(averages.len(), 1);
    assert_eq!(averages[0].data.name, "Unknown");
}

#[test]
fn all_metrics_are_averaged() {
    let a = RuuviData {
        temperature: 100,
        humidity: 4000,
        pressure: 99000,
        acceleration_x: 5,
        acceleration_y: -5,
        acceleration_z: 995,
        movement_counter: 1,
    };
    let b = RuuviData {
        temperature: 200,
        humidity: 5000,
        pressure: 100000,
        acceleration_x: 10,
        acceleration_y: -16,
        acceleration_z: 1005,
        movement_counter: 4,
    };
    let avg = average_readings(&vec![a, b], String::from("x"), 7);
    assert_eq!(avg.temperature, 150);
    assert_eq!(avg.humidity, 4500);
    assert_eq!(avg.pressure, 99500);
    assert_eq!(avg.acceleration_x, 8); // 7.5 rounds away from zero
    assert_eq!(avg.acceleration_y, -11); // -10.5 rounds away from zero
    assert_eq!(avg.acceleration_z, 1000);
    assert_eq!(avg.movement_counter, 3);
    assert_eq!(avg.samples, 2);
}
