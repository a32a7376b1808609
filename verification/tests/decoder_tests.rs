use ruuvi_collector::decoder::decode_ruuvi_data;

/// The reference format-5 advertisement: 24.30 C, 53.49 %, 1000.44 hPa,
/// acceleration (0.004, -0.004, 1.036) g, movement counter 66.
fn reference_payload() -> Vec<u8> {
    vec![
        0x05, 0x12, 0xFC, 0x53, 0x94, 0xC3, 0x7C, 0x00, 0x04, 0xFF, 0xFC, 0x04, 0x0C, 0xAC, 0x36,
        0x42, 0x00, 0xCD, 0xCB, 0xB8, 0x33, 0x4C, 0x88, 0x4F,
    ]
}

#[test]
fn decodes_reference_payload() {
    let r = decode_ruuvi_data(&reference_payload()).expect("well-formed payload must decode");
    assert_eq!(r.temperature, 2430);
    assert_eq!(r.humidity, 5349);
    assert_eq!(r.pressure, 100044);
    assert_eq!(r.acceleration_x, 4);
    assert_eq!(r.acceleration_y, -4);
    assert_eq!(r.acceleration_z, 1036);
    assert_eq!(r.movement_counter, 66);
}

#[test]
fn decodes_negative_temperature() {
    let mut p = reference_payload();
    // Raw temperature -1 is -0.005 C; at two decimals that is -0.01 C.
    p[1] = 0xFF;
    p[2] = 0xFF;
    let r = decode_ruuvi_data(&p).unwrap();
    assert_eq!(r.temperature, -1);
}

#[test]
fn decodes_minimum_temperature() {
    let mut p = reference_payload();
    // Raw temperature -32767 is -163.835 C; halves round away from zero.
    p[1] = 0x80;
    p[2] = 0x01;
    let r = decode_ruuvi_data(&p).unwrap();
    assert_eq!(r.temperature, -16384);
}

#[test]
fn humidity_at_cap() {
    let mut p = reference_payload();
    // Raw humidity 40000 is exactly 100 percent.
    p[3] = 0x9C;
    p[4] = 0x40;
    let r = decode_ruuvi_data(&p).unwrap();
    assert_eq!(r.humidity, 10000);
}

#[test]
fn humidity_above_cap_is_clamped() {
    let mut p = reference_payload();
    // Raw humidity 65535 would be 163.8 percent; it is clamped to 100.
    p[3] = 0xFF;
    p[4] = 0xFF;
    let r = decode_ruuvi_data(&p).unwrap();
    assert_eq!(r.humidity, 10000);
}

#[test]
fn pressure_offset_cases() {
    let mut p = reference_payload();
    // Raw pressure 0 is the 50000 Pa offset alone: 500.00 hPa.
    p[5] = 0x00;
    p[6] = 0x00;
    assert_eq!(decode_ruuvi_data(&p).unwrap().pressure, 50000);
    // Raw pressure 65535 is 115535 Pa: 1155.35 hPa.
    p[5] = 0xFF;
    p[6] = 0xFF;
    assert_eq!(decode_ruuvi_data(&p).unwrap().pressure, 115535);
}

#[test]
fn rejects_wrong_length() {
    let mut p = reference_payload();
    p.pop();
    assert!(decode_ruuvi_data(&p).is_none());
    p.push(0x4F);
    p.push(0x00);
    assert!(decode_ruuvi_data(&p).is_none());
}

#[test]
fn rejects_wrong_format_byte() {
    let mut p = reference_payload();
    p[0] = 3;
    assert!(decode_ruuvi_data(&p).is_none());
}

#[test]
fn rejects_empty_payload() {
    assert!(decode_ruuvi_data(&[]).is_none());
}
