use strix::hwinfo::{hwinfo_view_fits, read_hwinfo_readings};

const OFFSET: usize = 64;
const SIZE: usize = 320;

fn put_u32(m: &mut [u8], off: usize, v: u32) {
    m[off..off + 4].copy_from_slice(&v.to_le_bytes());
}

fn put_f64(m: &mut [u8], off: usize, v: f64) {
    m[off..off + 8].copy_from_slice(&v.to_le_bytes());
}

fn put_str(m: &mut [u8], off: usize, s: &str) {
    m[off..off + s.len()].copy_from_slice(s.as_bytes());
}

/// A shared-memory image with `types.len()` records.
fn image(types: &[u32]) -> Vec<u8> {
    let mut m = vec![0u8; OFFSET + SIZE * types.len()];
    put_u32(&mut m, 36, OFFSET as u32);
    put_u32(&mut m, 40, SIZE as u32);
    put_u32(&mut m, 44, types.len() as u32);
    for (i, t) in types.iter().enumerate() {
        put_u32(&mut m, OFFSET + i * SIZE, *t);
    }
    m
}

#[test]
fn reads_temperature_records_in_order() {
    let mut m = image(&[1, 2, 1]);
    let r0 = OFFSET;
    put_str(&mut m, r0 + 12, "CPU Package");
    put_str(&mut m, r0 + 140, "My CPU");
    put_f64(&mut m, r0 + 288, 55.5);
    put_f64(&mut m, r0 + 296, 40.0);
    put_f64(&mut m, r0 + 304, 80.25);
    let r2 = OFFSET + 2 * SIZE;
    put_str(&mut m, r2 + 12, "GPU Hot Spot");
    put_f64(&mut m, r2 + 288, 61.0);
    assert!(hwinfo_view_fits(&m));
    let readings = read_hwinfo_readings(&m);
    assert_eq!(readings.len(), 2);
    assert_eq!(readings[0].label, "My CPU");
    assert_eq!(f64::from_bits(readings[0].value_bits), 55.5);
    assert_eq!(f64::from_bits(readings[0].min_bits), 40.0);
    assert_eq!(f64::from_bits(readings[0].max_bits), 80.25);
    assert_eq!(readings[1].label, "GPU Hot Spot");
    assert_eq!(f64::from_bits(readings[1].value_bits), 61.0);
}

#[test]
fn label_stops_at_nul_and_at_limit() {
    let mut m = image(&[1]);
    let long = "x".repeat(128);
    put_str(&mut m, OFFSET + 140, &long);
    let r = read_hwinfo_readings(&m);
    assert_eq!(r[0].label, long);
}

#[test]
fn invalid_utf8_label_is_replaced() {
    let mut m = image(&[1]);
    m[OFFSET + 12] = b'T';
    m[OFFSET + 13] = 0xff;
    let r = read_hwinfo_readings(&m);
    assert_eq!(r[0].label, "T\u{FFFD}");
}

#[test]
fn implausible_geometry_yields_nothing() {
    let mut m = image(&[1]);
    put_u32(&mut m, 40, 100);
    assert!(hwinfo_view_fits(&m));
    assert!(read_hwinfo_readings(&m).is_empty());
    put_u32(&mut m, 40, SIZE as u32);
    put_u32(&mut m, 44, 100_000);
    assert!(hwinfo_view_fits(&m));
    assert!(read_hwinfo_readings(&m).is_empty());
}

#[test]
fn truncated_view_does_not_fit() {
    let m = image(&[1]);
    assert!(!hwinfo_view_fits(&m[..OFFSET + 300]));
    assert!(!hwinfo_view_fits(&m[..20]));
    // a non-temperature record needs only its type field
    let n = image(&[2]);
    assert!(hwinfo_view_fits(&n[..OFFSET + 4]));
}
