use framework_service::parser::{parse_charge_limit, parse_power, parse_thermal, parse_versions};

#[test]
fn parse_thermal_basic() {
    let s = "  F75303_Local:   45 C\n  F75303_CPU:     55 C\n  APU:          62 C\n  Fan Speed:  3171 RPM\n";
    let t = parse_thermal(s);
    assert_eq!(t.temps.get("APU"), Some(62));
    assert_eq!(t.temps.get("F75303_CPU"), Some(55));
    assert_eq!(t.rpms, vec![3171]);
}

#[test]
fn parse_power_verbose_sample() {
    let s = r#"
Charger Status
  AC is:            connected
  Charger Voltage:  17800mV
  Charger Current:  3568mA
  Chg Input Current:4400mA
  Battery SoC:      52%
Battery Status
  AC is:            connected
  Battery is:       connected
  Battery LFCC:     5182 mAh (Last Full Charge Capacity)
  Battery Capacity: 2685 mAh
  Charge level:     51%
  Manufacturer:     NVT
  Model Number:     FRANDBA
  Serial Number:    0204
  Battery Type:     LION
  Present Voltage:  16.591 V
  Present Rate:     3221 mA
  Design Capacity:  5491 mAh
  Design Voltage:   15.480 V
  Cycle Count:      58
  Battery charging
        "#;
    let p = parse_power(s);
    assert_eq!(p.ac_present, Some(true));
    assert_eq!(p.battery_present, Some(true));
    assert_eq!(p.last_full_charge_capacity_mah, Some(5182));
    assert_eq!(p.remaining_capacity_mah, Some(2685));
    assert_eq!(p.percentage, Some(51));
    assert_eq!(p.soc_pct, Some(52));
    assert_eq!(p.present_voltage_mv, Some(16591));
    assert_eq!(p.present_rate_ma, Some(3221));
    assert_eq!(p.charger_voltage_mv, Some(17800));
    assert_eq!(p.charger_current_ma, Some(3568));
    assert_eq!(p.charge_input_current_ma, Some(4400));
    assert_eq!(p.design_capacity_mah, Some(5491));
    assert_eq!(p.design_voltage_mv, Some(15480));
    assert_eq!(p.cycle_count, Some(58));
    assert_eq!(p.charging, Some(true));
}

#[test]
fn parse_power_no_battery_sample() {
    let s = r#"
Charger Status
  AC is:            connected
  Charger Voltage:  20000mV
  Charger Current:  5000mA
Battery Status
  AC is:            connected
  Battery is:       not connected
        "#;
    let p = parse_power(s);
    assert_eq!(p.ac_present, Some(true));
    assert_eq!(p.battery_present, Some(false));
    assert_eq!(p.percentage, None);
    assert_eq!(p.design_capacity_mah, None);
}

#[test]
fn charge_limit_reads_minimum_and_maximum() {
    let c = parse_charge_limit("Minimum 20%, Maximum 80%\n");
    assert_eq!(c.charge_limit_min_pct, Some(20));
    assert_eq!(c.charge_limit_max_pct, Some(80));
}

#[test]
fn charge_limit_falls_back_to_digit_pieces() {
    let c = parse_charge_limit("Minimum 20, Maximum 80");
    assert_eq!(c.charge_limit_min_pct, Some(20));
    assert_eq!(c.charge_limit_max_pct, Some(80));
    // an empty piece between two separators counts as all digits and reads as nothing
    let d = parse_charge_limit("charge minimum: 15");
    assert_eq!(d.charge_limit_min_pct, None);
}

#[test]
fn charge_limit_on_separate_lines() {
    let c = parse_charge_limit("Minimum 0%\nMaximum 60%\n");
    assert_eq!(c.charge_limit_min_pct, Some(0));
    assert_eq!(c.charge_limit_max_pct, Some(60));
}

#[test]
fn charge_limit_out_of_range_is_ignored() {
    let c = parse_charge_limit("Maximum 300%");
    assert_eq!(c.charge_limit_max_pct, None);
    assert_eq!(c.charge_limit_min_pct, None);
}

#[test]
fn versions_by_section() {
    let s = "Mainboard Hardware\n  Type:           Laptop 13 (AMD Ryzen 7040 Series)\n  Revision:       MassProduction\nUEFI BIOS\n  Version:        03.05\n  Release Date:   03/29/2024\nEC Firmware\n\tBuild version:  lilac-3.0.3-413f018 2024-03-28\n  Current image:  RO\n";
    let v = parse_versions(s);
    assert_eq!(v.mainboard_type.as_deref(), Some("Laptop 13 (AMD Ryzen 7040 Series)"));
    assert_eq!(v.mainboard_revision.as_deref(), Some("MassProduction"));
    assert_eq!(v.uefi_version.as_deref(), Some("03.05"));
    assert_eq!(v.uefi_release_date.as_deref(), Some("03/29/2024"));
    assert_eq!(v.ec_build_version.as_deref(), Some("lilac-3.0.3-413f018 2024-03-28"));
    assert_eq!(v.ec_current_image.as_deref(), Some("RO"));
}

#[test]
fn versions_of_empty_text() {
    let v = parse_versions("");
    assert_eq!(v.mainboard_type, None);
    assert_eq!(v.ec_current_image, None);
}

#[test]
fn thermal_later_reading_wins_and_zero_rpm_skipped() {
    let t = parse_thermal("APU: 50 C\nAPU: -3 C\nFan Speed: 0 RPM\nFan Speed: 1200 RPM\nbogus line\n");
    assert_eq!(t.temps.get("APU"), Some(-3));
    assert_eq!(t.temps.len(), 1);
    assert_eq!(t.rpms, vec![1200]);
}

#[test]
fn power_voltage_in_thousandths() {
    let p = parse_power("Present Voltage: 12.5 V\nDesign Voltage: 7 V\n");
    assert_eq!(p.present_voltage_mv, Some(12500));
    assert_eq!(p.design_voltage_mv, Some(7000));
    let q = parse_power("Present Voltage: 1.2.3 V\n");
    assert_eq!(q.present_voltage_mv, None);
}

#[test]
fn power_discharging_and_not_connected() {
    let p = parse_power("AC is: not connected\r\nbattery DISCHARGING\r\n");
    assert_eq!(p.ac_present, Some(false));
    assert_eq!(p.discharging, Some(true));
    assert_eq!(p.charging, None);
}

#[test]
fn blank_lines_change_nothing() {
    let a = parse_power("AC is: connected\n");
    let b = parse_power("\n   \nAC is: connected\n\t\n\n");
    assert_eq!(a, b);
    let t = parse_thermal("\n \nAPU: 40 C\n\n");
    assert_eq!(t.temps.get("APU"), Some(40));
    assert_eq!(parse_charge_limit("  \n"), parse_charge_limit(""));
}

#[test]
fn unread_power_line_changes_nothing() {
    let s = "  AC is:            connected\n  Battery is:       connected\n  Charge level:     51%\n";
    for l in ["  Manufacturer:     NVT", "  Model Number:     FRANDBA", "", "  Battery Type:     LION\r"] {
        let joined = format!("{}\n{}", s, l);
        assert_eq!(parse_power(&joined), parse_power(s), "{:?}", l);
    }
}

#[test]
fn thermal_read_in_two_parts() {
    let a = "  F75303_Local:   45 C\n  APU:   62 C\n  Fan Speed:  3171 RPM";
    let b = "  APU:   64 C\n  F75303_CPU:     55 C\n  Fan Speed:  2000 RPM\n";
    let joined = parse_thermal(&format!("{}\n{}", a, b));
    let (pa, pb) = (parse_thermal(a), parse_thermal(b));
    let mut rpms = pa.rpms.clone();
    rpms.extend(pb.rpms.iter().copied());
    assert_eq!(joined.rpms, rpms);
    assert_eq!(joined.rpms, vec![3171, 2000]);
    assert_eq!(joined.temps.get("APU"), Some(64));
    assert_eq!(joined.temps.get("F75303_Local"), Some(45));
    assert_eq!(joined.temps.get("F75303_CPU"), Some(55));
    assert_eq!(joined.temps.len(), 3);
}

#[test]
fn charge_limit_without_a_number_after_its_word_reads_the_whole_line() {
    let c = parse_charge_limit("5% minimum");
    assert_eq!(c.charge_limit_min_pct, Some(5));
    let d = parse_charge_limit("maximum: n/a, 70%");
    assert_eq!(d.charge_limit_max_pct, Some(70));
    let e = parse_charge_limit("charge limit (minimum 20)");
    assert_eq!(e.charge_limit_min_pct, Some(20));
}
