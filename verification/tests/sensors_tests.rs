use strix::sensors::{
    acpi_zone_label, combine_temperatures, nvidia_row, parse_nvidia_output, pick_cpu_temp,
    split_lines, SensorTag,
};

fn tag(label: &str, kind: &str) -> SensorTag {
    SensorTag { label: label.to_string(), kind: kind.to_string() }
}

#[test]
fn package_sensor_preferred() {
    let s = vec![tag("CPU Core #1", "temp"), tag("GPU", "temp"), tag("CPU PACKAGE", "temp")];
    assert_eq!(pick_cpu_temp(&s), Some(2));
}

#[test]
fn cpu_sensor_as_fallback() {
    let s = vec![tag("GPU Core", "temp"), tag("Package fan", "fan"), tag("cpu die", "temp")];
    assert_eq!(pick_cpu_temp(&s), Some(2));
    assert_eq!(pick_cpu_temp(&vec![tag("GPU", "temp"), tag("CPU fan", "fan")]), None);
    assert_eq!(pick_cpu_temp(&Vec::new()), None);
}

#[test]
fn helper_readings_win() {
    let (avail, s) = combine_temperatures(vec![1], false, vec![2], vec![3], vec![4]);
    assert!(avail);
    assert_eq!(s, vec![1]);
}

#[test]
fn fallback_sources_in_order() {
    let (avail, s) = combine_temperatures(Vec::new(), false, vec![2], vec![3], vec![4, 5]);
    assert!(avail);
    assert_eq!(s, vec![2, 3, 4, 5]);
    let (avail, s) = combine_temperatures::<u8>(Vec::new(), true, Vec::new(), Vec::new(), Vec::new());
    assert!(avail);
    assert!(s.is_empty());
    let (avail, _) = combine_temperatures::<u8>(Vec::new(), false, vec![9], Vec::new(), Vec::new());
    assert!(!avail);
}

#[test]
fn lines_agree_with_std() {
    for t in ["a\r\nb\n\nc", "x\n", "y\r", "", "\n", "\r\n\r\n", "one", "a\rb\nc\r"] {
        let expected: Vec<String> = t.lines().map(|l| l.to_string()).collect();
        assert_eq!(split_lines(t), expected, "text {:?}", t);
    }
}

#[test]
fn nvidia_lines() {
    let row = nvidia_row("NVIDIA GeForce RTX 3060, 47").unwrap();
    assert_eq!(row.label, "GPU: NVIDIA GeForce RTX 3060");
    assert_eq!(row.temp_text, "47");
    let row = nvidia_row(" A , 50 , extra").unwrap();
    assert_eq!(row.label, "GPU: A");
    assert_eq!(row.temp_text, "50");
    assert!(nvidia_row("no fields here").is_none());
    let rows = parse_nvidia_output("GPU0, 40\r\nbroken\nGPU1, 41\n");
    assert_eq!(rows.len(), 2);
    assert_eq!(rows[0].label, "GPU: GPU0");
    assert_eq!(rows[1].temp_text, "41");
}

#[test]
fn acpi_labels() {
    assert_eq!(acpi_zone_label("ACPI\\ThermalZone\\TZ00_0"), "CPU/ACPI: TZ00_0");
    assert_eq!(acpi_zone_label("TZ01"), "CPU/ACPI: TZ01");
}
