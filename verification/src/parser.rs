//! Readers of the text that `framework_tool` prints: `--power -vv`,
//! `--thermal`, `--charge-limit` and `--versions`.
use vstd::prelude::*;
use crate::text::{
    chars_of, contains, decimal_millis, eq_ignore_ascii_case, find, first_shaped, lines, lower,
    parse_u32, slice_chars, spec_contains, spec_decimal_millis, spec_find, spec_first_shaped,
    spec_has_shape, spec_lines, spec_lower, spec_matches_at, spec_parse_unsigned, spec_starts_with,
    spec_tokens, spec_trim, spec_trim_end_char, spec_trim_end_pat, starts_with, tokens, trim,
    trim_end_char, trim_end_pat, views, TokenShape, parse_i32, rfind_char, split_once,
    spec_parse_i32, spec_rfind_char, spec_split_once, string_of, alnum_pieces, parse_u8,
    spec_alnum_pieces, chars_eq, index_of, index_of_from, closed_lines, lemma_lines_of_joined,
    lemma_lines_of_single, lemma_trim_strip_cr, open_line_start, strip_cr, is_digit,
    is_ascii_digit, decimal, lemma_decimal_value, lemma_parse_i32_decimal, lemma_tokens_padded,
    lemma_index_of_first, lemma_trim_plain, is_ws, lemma_trim_nonempty, lemma_tokens_single,
    lemma_parse_unsigned_decimal, lemma_index_of_none, lemma_find_first, find_from,
    first_shaped_from, skip_ws, trim_end_index, lower_char, strip_char_end, strip_pat_end,
    spec_ends_with, lemma_tokens_two, lemma_tokens_after_space, lemma_colon_pattern_absent,
    lemma_parse_i32_negative_decimal, lemma_rindex_none,
};
use crate::temp_map::TempMap;

verus! {

// ---------------------------------------------------------------------------
// Labelled readings
// ---------------------------------------------------------------------------

/// What a labelled field of a line yields.
#[derive(Clone, Copy, PartialEq, Eq, Debug)]
pub enum LabelRead {
    /// The label does not occur in the line.
    Absent,
    /// The label occurs, but no token of the expected shape follows it.
    NoToken,
    /// The first token of the expected shape after the label, read as a
    /// number (`None` where it does not read as one).
    Value(Option<u32>),
}

/// A number known to fit, as a `u32`.
pub open spec fn opt_u32(o: Option<nat>) -> Option<u32> {
    match o {
        Some(v) => Some(v as u32),
        None => None,
    }
}

/// The number that a token of the given shape stands for.
pub open spec fn spec_token_value(t: Seq<char>, shape: TokenShape) -> Option<u32> {
    match shape {
        TokenShape::Digits => opt_u32(spec_parse_unsigned(t, u32::MAX as nat)),
        TokenShape::PercentSuffixed => opt_u32(
            spec_parse_unsigned(spec_trim_end_char(t, '%'), u32::MAX as nat),
        ),
        TokenShape::DigitsPercent => opt_u32(
            spec_parse_unsigned(spec_trim_end_char(t, '%'), u32::MAX as nat),
        ),
        TokenShape::Decimal => opt_u32(spec_decimal_millis(t)),
        TokenShape::MilliVolts => opt_u32(
            spec_parse_unsigned(spec_trim_end_pat(t, "mV"@), u32::MAX as nat),
        ),
        TokenShape::MilliAmps => opt_u32(
            spec_parse_unsigned(spec_trim_end_pat(t, "mA"@), u32::MAX as nat),
        ),
    }
}

/// The text of `l` after the first occurrence of `label`.
pub open spec fn after_label(l: Seq<char>, label: Seq<char>) -> Option<Seq<char>> {
    match spec_find(l, label) {
        Some(p) => Some(l.skip(p + label.len())),
        None => None,
    }
}

/// The reading of `label` in `l`: the first whitespace-separated token of
/// the given shape after the label, read as a number.
pub open spec fn spec_label_read(l: Seq<char>, label: Seq<char>, shape: TokenShape) -> LabelRead {
    match after_label(l, label) {
        None => LabelRead::Absent,
        Some(rest) => match spec_first_shaped(spec_tokens(rest), shape) {
            None => LabelRead::NoToken,
            Some(t) => LabelRead::Value(spec_token_value(t, shape)),
        },
    }
}

/// A field that a reading replaces: a token that was found sets it, to
/// `None` where it does not read as a number.
pub open spec fn replaced_by(old: Option<u32>, r: LabelRead) -> Option<u32> {
    match r {
        LabelRead::Value(v) => v,
        _ => old,
    }
}

/// A field that only a number read sets.
pub open spec fn set_by(old: Option<u32>, r: LabelRead) -> Option<u32> {
    match r {
        LabelRead::Value(Some(v)) => Some(v),
        _ => old,
    }
}

fn token_value(t: &Vec<char>, shape: TokenShape) -> (r: Option<u32>)
    requires
        spec_has_shape(t@, shape),
    ensures
        r == spec_token_value(t@, shape),
{
    match shape {
        TokenShape::Digits => parse_u32(t),
        TokenShape::PercentSuffixed => parse_u32(&trim_end_char(t, '%')),
        TokenShape::DigitsPercent => parse_u32(&trim_end_char(t, '%')),
        TokenShape::Decimal => decimal_millis(t),
        TokenShape::MilliVolts => parse_u32(&trim_end_pat(t, &chars_of("mV"))),
        TokenShape::MilliAmps => parse_u32(&trim_end_pat(t, &chars_of("mA"))),
    }
}

/// The text after the first occurrence of `label`, copied.
pub fn read_after_label(l: &Vec<char>, label: &str) -> (r: Option<Vec<char>>)
    ensures
        match r {
            Some(rest) => after_label(l@, label@) == Some(rest@),
            None => after_label(l@, label@) is None,
        },
{
    let pat = chars_of(label);
    match find(l, &pat) {
        None => None,
        Some(p) => {
            let n = l.len();
            assert(spec_matches_at(l@, p as int, pat@));
            let rest = slice_chars(l, p + pat.len(), n);
            assert(rest@ =~= l@.skip(p + pat@.len()));
            Some(rest)
        },
    }
}

/// The reading of `label` in `l`.
pub fn label_read(l: &Vec<char>, label: &str, shape: TokenShape) -> (r: LabelRead)
    ensures
        r == spec_label_read(l@, label@, shape),
{
    match read_after_label(l, label) {
        None => LabelRead::Absent,
        Some(rest) => {
            let toks = tokens(&rest);
            match first_shaped(&toks, shape) {
                None => LabelRead::NoToken,
                Some(t) => LabelRead::Value(token_value(&t, shape)),
            }
        },
    }
}

fn replace_field(old: Option<u32>, r: LabelRead) -> (v: Option<u32>)
    ensures
        v == replaced_by(old, r),
{
    match r {
        LabelRead::Value(v) => v,
        _ => old,
    }
}

fn set_field(old: Option<u32>, r: LabelRead) -> (v: Option<u32>)
    ensures
        v == set_by(old, r),
{
    match r {
        LabelRead::Value(Some(v)) => Some(v),
        _ => old,
    }
}

fn is_absent(r: LabelRead) -> (b: bool)
    ensures
        b == (r is Absent),
{
    match r {
        LabelRead::Absent => true,
        _ => false,
    }
}

// ---------------------------------------------------------------------------
// framework_tool --power -vv
// ---------------------------------------------------------------------------

/// Power and battery state as `framework_tool --power -vv` reports it.
#[derive(Debug, Clone, Copy, PartialEq, Eq, Default)]
pub struct PowerBatteryInfo {
    pub ac_present: Option<bool>,
    pub battery_present: Option<bool>,
    pub last_full_charge_capacity_mah: Option<u32>,
    pub remaining_capacity_mah: Option<u32>,
    pub percentage: Option<u32>,
    pub soc_pct: Option<u32>,
    pub present_voltage_mv: Option<u32>,
    pub present_rate_ma: Option<u32>,
    pub charger_voltage_mv: Option<u32>,
    pub charger_current_ma: Option<u32>,
    pub charge_input_current_ma: Option<u32>,
    pub design_capacity_mah: Option<u32>,
    pub design_voltage_mv: Option<u32>,
    pub cycle_count: Option<u32>,
    pub charging: Option<bool>,
    pub discharging: Option<bool>,
}

/// Nothing reported.
pub open spec fn no_power_info() -> PowerBatteryInfo {
    PowerBatteryInfo {
        ac_present: None,
        battery_present: None,
        last_full_charge_capacity_mah: None,
        remaining_capacity_mah: None,
        percentage: None,
        soc_pct: None,
        present_voltage_mv: None,
        present_rate_ma: None,
        charger_voltage_mv: None,
        charger_current_ma: None,
        charge_input_current_ma: None,
        design_capacity_mah: None,
        design_voltage_mv: None,
        cycle_count: None,
        charging: None,
        discharging: None,
    }
}

/// An `AC is:` or `Battery is:` line says "connected" and not "not connected",
/// in any letter case.
pub open spec fn reports_connected(l: Seq<char>) -> bool {
    spec_contains(spec_lower(l), "connected"@) && !spec_contains(spec_lower(l), "not connected"@)
}

/// What one line of `--power -vv` output changes: the first rule whose
/// label the trimmed line holds applies, and the others are not tried.
pub open spec fn power_line(st: PowerBatteryInfo, raw: Seq<char>) -> PowerBatteryInfo {
    let l = spec_trim(raw);
    let lfcc = spec_label_read(l, "Battery LFCC:"@, TokenShape::Digits);
    let capacity = spec_label_read(l, "Battery Capacity:"@, TokenShape::Digits);
    let level = spec_label_read(l, "Charge level:"@, TokenShape::DigitsPercent);
    let soc = spec_label_read(l, "Battery SoC:"@, TokenShape::DigitsPercent);
    let present_voltage = spec_label_read(l, "Present Voltage:"@, TokenShape::Decimal);
    let charger_voltage = spec_label_read(l, "Charger Voltage:"@, TokenShape::MilliVolts);
    let present_rate = spec_label_read(l, "Present Rate:"@, TokenShape::Digits);
    let charger_current = spec_label_read(l, "Charger Current:"@, TokenShape::MilliAmps);
    let input_current = spec_label_read(l, "Chg Input Current:"@, TokenShape::MilliAmps);
    let design_capacity = spec_label_read(l, "Design Capacity:"@, TokenShape::Digits);
    let design_voltage = spec_label_read(l, "Design Voltage:"@, TokenShape::Decimal);
    if spec_starts_with(l, "AC is:"@) {
        PowerBatteryInfo { ac_present: Some(reports_connected(l)), ..st }
    } else if spec_starts_with(l, "Battery is:"@) {
        PowerBatteryInfo { battery_present: Some(reports_connected(l)), ..st }
    } else if !(lfcc is Absent) {
        PowerBatteryInfo {
            last_full_charge_capacity_mah: replaced_by(st.last_full_charge_capacity_mah, lfcc),
            ..st
        }
    } else if !(capacity is Absent) {
        PowerBatteryInfo {
            remaining_capacity_mah: replaced_by(st.remaining_capacity_mah, capacity),
            ..st
        }
    } else if !(level is Absent) {
        PowerBatteryInfo { percentage: replaced_by(st.percentage, level), ..st }
    } else if !(soc is Absent) {
        PowerBatteryInfo { soc_pct: replaced_by(st.soc_pct, soc), ..st }
    } else if !(present_voltage is Absent) {
        PowerBatteryInfo { present_voltage_mv: set_by(st.present_voltage_mv, present_voltage), ..st }
    } else if !(charger_voltage is Absent) {
        PowerBatteryInfo {
            charger_voltage_mv: replaced_by(st.charger_voltage_mv, charger_voltage),
            ..st
        }
    } else if !(present_rate is Absent) {
        PowerBatteryInfo { present_rate_ma: replaced_by(st.present_rate_ma, present_rate), ..st }
    } else if !(charger_current is Absent) {
        PowerBatteryInfo {
            charger_current_ma: replaced_by(st.charger_current_ma, charger_current),
            ..st
        }
    } else if !(input_current is Absent) {
        PowerBatteryInfo {
            charge_input_current_ma: replaced_by(st.charge_input_current_ma, input_current),
            ..st
        }
    } else if !(design_capacity is Absent) {
        PowerBatteryInfo {
            design_capacity_mah: replaced_by(st.design_capacity_mah, design_capacity),
            ..st
        }
    } else if !(design_voltage is Absent) {
        PowerBatteryInfo { design_voltage_mv: set_by(st.design_voltage_mv, design_voltage), ..st }
    } else if spec_starts_with(l, "Cycle Count:"@) {
        PowerBatteryInfo {
            cycle_count: match spec_first_shaped(spec_tokens(l), TokenShape::Digits) {
                Some(t) => spec_token_value(t, TokenShape::Digits),
                None => st.cycle_count,
            },
            ..st
        }
    } else if spec_lower(l) == spec_lower("Battery charging"@) {
        PowerBatteryInfo { charging: Some(true), ..st }
    } else if spec_lower(l) == spec_lower("Battery discharging"@) {
        PowerBatteryInfo { discharging: Some(true), ..st }
    } else {
        st
    }
}

/// The report after the given lines, read in order.
pub open spec fn power_from_lines(ls: Seq<Seq<char>>) -> PowerBatteryInfo
    decreases ls.len(),
{
    if ls.len() == 0 {
        no_power_info()
    } else {
        power_line(power_from_lines(ls.drop_last()), ls.last())
    }
}

/// What `framework_tool --power -vv` output reports.
pub open spec fn spec_parse_power(text: Seq<char>) -> PowerBatteryInfo {
    power_from_lines(spec_lines(text))
}

fn line_reports_connected(l: &Vec<char>) -> (r: bool)
    ensures
        r == reports_connected(l@),
{
    let low = lower(l);
    contains(&low, &chars_of("connected")) && !contains(&low, &chars_of("not connected"))
}

fn apply_power_line(st: PowerBatteryInfo, raw: &Vec<char>) -> (r: PowerBatteryInfo)
    ensures
        r == power_line(st, raw@),
{
    let l = trim(raw);
    if starts_with(&l, &chars_of("AC is:")) {
        return PowerBatteryInfo { ac_present: Some(line_reports_connected(&l)), ..st };
    }
    if starts_with(&l, &chars_of("Battery is:")) {
        return PowerBatteryInfo { battery_present: Some(line_reports_connected(&l)), ..st };
    }
    let r = label_read(&l, "Battery LFCC:", TokenShape::Digits);
    if !is_absent(r) {
        return PowerBatteryInfo {
            last_full_charge_capacity_mah: replace_field(st.last_full_charge_capacity_mah, r),
            ..st
        };
    }
    let r = label_read(&l, "Battery Capacity:", TokenShape::Digits);
    if !is_absent(r) {
        return PowerBatteryInfo {
            remaining_capacity_mah: replace_field(st.remaining_capacity_mah, r),
            ..st
        };
    }
    let r = label_read(&l, "Charge level:", TokenShape::DigitsPercent);
    if !is_absent(r) {
        return PowerBatteryInfo { percentage: replace_field(st.percentage, r), ..st };
    }
    let r = label_read(&l, "Battery SoC:", TokenShape::DigitsPercent);
    if !is_absent(r) {
        return PowerBatteryInfo { soc_pct: replace_field(st.soc_pct, r), ..st };
    }
    let r = label_read(&l, "Present Voltage:", TokenShape::Decimal);
    if !is_absent(r) {
        return PowerBatteryInfo { present_voltage_mv: set_field(st.present_voltage_mv, r), ..st };
    }
    let r = label_read(&l, "Charger Voltage:", TokenShape::MilliVolts);
    if !is_absent(r) {
        return PowerBatteryInfo { charger_voltage_mv: replace_field(st.charger_voltage_mv, r), ..st };
    }
    let r = label_read(&l, "Present Rate:", TokenShape::Digits);
    if !is_absent(r) {
        return PowerBatteryInfo { present_rate_ma: replace_field(st.present_rate_ma, r), ..st };
    }
    let r = label_read(&l, "Charger Current:", TokenShape::MilliAmps);
    if !is_absent(r) {
        return PowerBatteryInfo { charger_current_ma: replace_field(st.charger_current_ma, r), ..st };
    }
    let r = label_read(&l, "Chg Input Current:", TokenShape::MilliAmps);
    if !is_absent(r) {
        return PowerBatteryInfo {
            charge_input_current_ma: replace_field(st.charge_input_current_ma, r),
            ..st
        };
    }
    let r = label_read(&l, "Design Capacity:", TokenShape::Digits);
    if !is_absent(r) {
        return PowerBatteryInfo {
            design_capacity_mah: replace_field(st.design_capacity_mah, r),
            ..st
        };
    }
    let r = label_read(&l, "Design Voltage:", TokenShape::Decimal);
    if !is_absent(r) {
        return PowerBatteryInfo { design_voltage_mv: set_field(st.design_voltage_mv, r), ..st };
    }
    if starts_with(&l, &chars_of("Cycle Count:")) {
        let toks = tokens(&l);
        let count = match first_shaped(&toks, TokenShape::Digits) {
            Some(t) => token_value(&t, TokenShape::Digits),
            None => st.cycle_count,
        };
        return PowerBatteryInfo { cycle_count: count, ..st };
    }
    if eq_ignore_ascii_case(&l, &chars_of("Battery charging")) {
        return PowerBatteryInfo { charging: Some(true), ..st };
    }
    if eq_ignore_ascii_case(&l, &chars_of("Battery discharging")) {
        return PowerBatteryInfo { discharging: Some(true), ..st };
    }
    st
}

/// Reads the output of `framework_tool --power -vv`. Each line is trimmed;
/// a field that several lines report keeps the last reading.
/// Voltages printed in volts (`16.591 V`) are kept in millivolts, truncated.
pub fn parse_power(stdout: &str) -> (r: PowerBatteryInfo)
    ensures
        r == spec_parse_power(stdout@),
{
    let text = chars_of(stdout);
    let ls = lines(&text);
    let ghost lv = views(ls@);
    let mut st = PowerBatteryInfo {
        ac_present: None,
        battery_present: None,
        last_full_charge_capacity_mah: None,
        remaining_capacity_mah: None,
        percentage: None,
        soc_pct: None,
        present_voltage_mv: None,
        present_rate_ma: None,
        charger_voltage_mv: None,
        charger_current_ma: None,
        charge_input_current_ma: None,
        design_capacity_mah: None,
        design_voltage_mv: None,
        cycle_count: None,
        charging: None,
        discharging: None,
    };
    let mut i: usize = 0;
    assert(lv.take(0) =~= Seq::<Seq<char>>::empty());
    while i < ls.len()
        invariant
            i <= ls.len(),
            lv == views(ls@),
            lv == spec_lines(text@),
            st == power_from_lines(lv.take(i as int)),
        decreases ls.len() - i,
    {
        st = apply_power_line(st, &ls[i]);
        assert(lv.take(i + 1).drop_last() =~= lv.take(i as int));
        i += 1;
    }
    assert(lv.take(ls.len() as int) =~= lv);
    st
}

} // verus!

verus! {

// ---------------------------------------------------------------------------
// framework_tool --thermal
// ---------------------------------------------------------------------------

/// Sensor temperatures and fan speeds as `framework_tool --thermal` reports them.
pub struct ThermalParsed {
    /// Temperature in °C by sensor name.
    pub temps: TempMap,
    /// The speeds of the fans that turn, in RPM, in the order reported.
    pub rpms: Vec<u32>,
}

/// What a thermal report says: temperatures by sensor name and fan speeds.
pub struct ThermalModel {
    pub temps: Map<Seq<char>, i32>,
    pub rpms: Seq<u32>,
}

impl ThermalParsed {
    pub open spec fn model(&self) -> ThermalModel {
        ThermalModel { temps: self.temps.view(), rpms: self.rpms@ }
    }
}

/// A `name: ... <value> C` line: the name before the first colon, trimmed,
/// and the last whitespace-separated token before the last `C` after it,
/// read as an `i32`.
pub open spec fn line_temperature(l: Seq<char>) -> Option<(Seq<char>, i32)> {
    match spec_split_once(l, ':') {
        Some((k, r)) => match spec_rfind_char(r, 'C') {
            Some(p) => {
                let toks = spec_tokens(r.take(p));
                if toks.len() > 0 {
                    match spec_parse_i32(toks.last()) {
                        Some(v) => Some((spec_trim(k), v as i32)),
                        None => None,
                    }
                } else {
                    None
                }
            },
            None => None,
        },
        None => None,
    }
}

/// A `Fan Speed: <rpm> ...` line: the first all-digit token after the
/// label, when it reads as a non-zero `u32`.
pub open spec fn line_fan_speed(l: Seq<char>) -> Option<u32> {
    match after_label(l, "Fan Speed:"@) {
        Some(rest) => match spec_first_shaped(spec_tokens(rest), TokenShape::Digits) {
            Some(t) => match spec_parse_unsigned(t, u32::MAX as nat) {
                Some(v) => if v > 0 {
                    Some(v as u32)
                } else {
                    None
                },
                None => None,
            },
            None => None,
        },
        None => None,
    }
}

/// What one line of `--thermal` output changes: a temperature line sets
/// that sensor's temperature, else a fan speed line adds a speed.
pub open spec fn thermal_line(st: ThermalModel, raw: Seq<char>) -> ThermalModel {
    let l = spec_trim(raw);
    match line_temperature(l) {
        Some((name, v)) => ThermalModel { temps: st.temps.insert(name, v), rpms: st.rpms },
        None => match line_fan_speed(l) {
            Some(v) => ThermalModel { temps: st.temps, rpms: st.rpms.push(v) },
            None => st,
        },
    }
}

/// The thermal reading after the given lines, read in order.
pub open spec fn thermal_from_lines(ls: Seq<Seq<char>>) -> ThermalModel
    decreases ls.len(),
{
    if ls.len() == 0 {
        ThermalModel { temps: Map::empty(), rpms: Seq::empty() }
    } else {
        thermal_line(thermal_from_lines(ls.drop_last()), ls.last())
    }
}

/// What `framework_tool --thermal` output reports.
pub open spec fn spec_parse_thermal(text: Seq<char>) -> ThermalModel {
    thermal_from_lines(spec_lines(text))
}

fn read_line_temperature(l: &Vec<char>) -> (r: Option<(Vec<char>, i32)>)
    ensures
        match r {
            Some(p) => line_temperature(l@) == Some((p.0@, p.1)),
            None => line_temperature(l@) is None,
        },
{
    match split_once(l, ':') {
        None => None,
        Some((k, rest)) => match rfind_char(&rest, 'C') {
            None => None,
            Some(p) => {
                let before = slice_chars(&rest, 0, p);
                assert(before@ =~= rest@.take(p as int));
                let toks = tokens(&before);
                if toks.len() == 0 {
                    None
                } else {
                    let last = toks.len() - 1;
                    assert(views(toks@).last() == toks@[last as int]@);
                    match parse_i32(&toks[last]) {
                        Some(v) => Some((trim(&k), v)),
                        None => None,
                    }
                }
            },
        },
    }
}

fn read_line_fan_speed(l: &Vec<char>) -> (r: Option<u32>)
    ensures
        r == line_fan_speed(l@),
{
    match read_after_label(l, "Fan Speed:") {
        None => None,
        Some(rest) => {
            let toks = tokens(&rest);
            match first_shaped(&toks, TokenShape::Digits) {
                None => None,
                Some(t) => match parse_u32(&t) {
                    Some(v) => if v > 0 {
                        Some(v)
                    } else {
                        None
                    },
                    None => None,
                },
            }
        },
    }
}

/// Reads the output of `framework_tool --thermal`: lines `name: ... <n> C`
/// give temperatures (a later line for the same name wins), lines holding
/// `Fan Speed: <rpm>` with a non-zero speed give fan speeds.
pub fn parse_thermal(stdout: &str) -> (r: ThermalParsed)
    ensures
        r.model() == spec_parse_thermal(stdout@),
{
    let text = chars_of(stdout);
    let ls = lines(&text);
    let ghost lv = views(ls@);
    let mut temps = TempMap::new();
    let mut rpms: Vec<u32> = Vec::new();
    let mut i: usize = 0;
    assert(lv.take(0) =~= Seq::<Seq<char>>::empty());
    while i < ls.len()
        invariant
            i <= ls.len(),
            lv == views(ls@),
            lv == spec_lines(text@),
            temps.view() == thermal_from_lines(lv.take(i as int)).temps,
            rpms@ == thermal_from_lines(lv.take(i as int)).rpms,
        decreases ls.len() - i,
    {
        assert(lv.take(i + 1).drop_last() =~= lv.take(i as int));
        let l = trim(&ls[i]);
        match read_line_temperature(&l) {
            Some((name, v)) => {
                temps.insert(string_of(&name), v);
            },
            None => {
                if let Some(v) = read_line_fan_speed(&l) {
                    rpms.push(v);
                }
            },
        }
        i += 1;
    }
    assert(lv.take(ls.len() as int) =~= lv);
    ThermalParsed { temps, rpms }
}

} // verus!

verus! {

// ---------------------------------------------------------------------------
// framework_tool --charge-limit
// ---------------------------------------------------------------------------

/// Charge limits as `framework_tool --charge-limit` reports them
/// ("Minimum X%, Maximum Y%").
#[derive(Debug, Clone, Copy, PartialEq, Eq, Default)]
pub struct BatteryChargeLimitInfo {
    pub charge_limit_min_pct: Option<u8>,
    pub charge_limit_max_pct: Option<u8>,
}

/// A number known to fit, as a `u8`.
pub open spec fn opt_u8(o: Option<nat>) -> Option<u8> {
    match o {
        Some(v) => Some(v as u8),
        None => None,
    }
}

/// The field of a lowercased line that gives the limit named `word`: the
/// text after the first occurrence of `word`, up to the next comma, trimmed.
pub open spec fn limit_field(l: Seq<char>, word: Seq<char>) -> Seq<char> {
    let rest = match after_label(l, word) {
        Some(r) => r,
        None => seq![],
    };
    spec_trim(
        match index_of_from(rest, ',', 0) {
            Some(k) => rest.take(k),
            None => rest,
        },
    )
}

/// The limit that a field gives: its first token ending in `%`, read as a
/// `u8` without its `%` signs (the old value stays where that fails); with
/// no such token, its first all-digit piece between characters that are
/// not ASCII alphanumeric, read as a `u8` (`None` where that fails, an empty
/// piece included).
pub open spec fn limit_reading(field: Seq<char>, old: Option<u8>) -> Option<u8> {
    match spec_first_shaped(spec_tokens(field), TokenShape::PercentSuffixed) {
        Some(p) => match spec_parse_unsigned(spec_trim_end_char(p, '%'), u8::MAX as nat) {
            Some(v) => Some(v as u8),
            None => old,
        },
        None => match spec_first_shaped(spec_alnum_pieces(field), TokenShape::Digits) {
            Some(t) => opt_u8(spec_parse_unsigned(t, u8::MAX as nat)),
            None => old,
        },
    }
}

/// Whether `s` holds an ASCII digit.
pub open spec fn has_digit(s: Seq<char>) -> bool {
    exists|i: int| 0 <= i < s.len() && is_digit(s[i])
}

/// The limit named `word` read from a lowercased line: from the field after
/// the word where that field holds a digit, else from the whole line.
pub open spec fn limit_in_line(l: Seq<char>, word: Seq<char>, old: Option<u8>) -> Option<u8> {
    let field = limit_field(l, word);
    if has_digit(field) {
        limit_reading(field, old)
    } else {
        limit_reading(l, old)
    }
}

/// What one line of `--charge-limit` output ("Minimum X%, Maximum Y%")
/// changes: where the line mentions "minimum" (in any case), the minimum
/// from the field after that word; where it mentions "maximum", the maximum
/// from the field after that one (a field without a digit leaves the
/// reading to the whole line).
pub open spec fn charge_limit_line(st: BatteryChargeLimitInfo, raw: Seq<char>) -> BatteryChargeLimitInfo {
    let l = spec_lower(spec_trim(raw));
    let a = if spec_contains(l, "minimum"@) {
        BatteryChargeLimitInfo {
            charge_limit_min_pct: limit_in_line(l, "minimum"@, st.charge_limit_min_pct),
            ..st
        }
    } else {
        st
    };
    if spec_contains(l, "maximum"@) {
        BatteryChargeLimitInfo {
            charge_limit_max_pct: limit_in_line(l, "maximum"@, a.charge_limit_max_pct),
            ..a
        }
    } else {
        a
    }
}

/// The charge limits after the given lines, read in order.
pub open spec fn charge_limit_from_lines(ls: Seq<Seq<char>>) -> BatteryChargeLimitInfo
    decreases ls.len(),
{
    if ls.len() == 0 {
        BatteryChargeLimitInfo { charge_limit_min_pct: None, charge_limit_max_pct: None }
    } else {
        charge_limit_line(charge_limit_from_lines(ls.drop_last()), ls.last())
    }
}

/// What `framework_tool --charge-limit` output reports.
pub open spec fn spec_parse_charge_limit(text: Seq<char>) -> BatteryChargeLimitInfo {
    charge_limit_from_lines(spec_lines(text))
}

fn read_limit_field(l: &Vec<char>, word: &str) -> (r: Vec<char>)
    ensures
        r@ == limit_field(l@, word@),
{
    let rest = match read_after_label(l, word) {
        Some(r) => r,
        None => Vec::new(),
    };
    match index_of(&rest, ',') {
        Some(k) => {
            let head = slice_chars(&rest, 0, k);
            assert(head@ =~= rest@.take(k as int));
            trim(&head)
        },
        None => trim(&rest),
    }
}

fn holds_digit(s: &Vec<char>) -> (r: bool)
    ensures
        r == has_digit(s@),
{
    let mut i: usize = 0;
    while i < s.len()
        invariant
            i <= s.len(),
            forall|j: int| 0 <= j < i ==> !is_digit(s@[j]),
        decreases s.len() - i,
    {
        if is_ascii_digit(s[i]) {
            return true;
        }
        i += 1;
    }
    false
}

fn read_limit_in_line(l: &Vec<char>, word: &str, old: Option<u8>) -> (r: Option<u8>)
    ensures
        r == limit_in_line(l@, word@, old),
{
    let field = read_limit_field(l, word);
    if holds_digit(&field) {
        read_limit(&field, old)
    } else {
        read_limit(l, old)
    }
}

fn read_limit(field: &Vec<char>, old: Option<u8>) -> (r: Option<u8>)
    ensures
        r == limit_reading(field@, old),
{
    let toks = tokens(field);
    match first_shaped(&toks, TokenShape::PercentSuffixed) {
        Some(p) => match parse_u8(&trim_end_char(&p, '%')) {
            Some(v) => Some(v),
            None => old,
        },
        None => {
            let pieces = alnum_pieces(field);
            match first_shaped(&pieces, TokenShape::Digits) {
                Some(t) => parse_u8(&t),
                None => old,
            }
        },
    }
}

/// Reads the output of `framework_tool --charge-limit`, which prints
/// "Minimum X%, Maximum Y%": the minimum is X and the maximum Y. Where the
/// text after a limit's word (up to a comma) holds no digit, that limit is
/// read from the whole line: its first token ending in `%`, else its first
/// all-digit piece.
pub fn parse_charge_limit(stdout: &str) -> (r: BatteryChargeLimitInfo)
    ensures
        r == spec_parse_charge_limit(stdout@),
{
    let text = chars_of(stdout);
    let ls = lines(&text);
    let ghost lv = views(ls@);
    let mut info = BatteryChargeLimitInfo { charge_limit_min_pct: None, charge_limit_max_pct: None };
    let minimum = chars_of("minimum");
    let maximum = chars_of("maximum");
    let mut i: usize = 0;
    assert(lv.take(0) =~= Seq::<Seq<char>>::empty());
    while i < ls.len()
        invariant
            i <= ls.len(),
            lv == views(ls@),
            lv == spec_lines(text@),
            minimum@ == "minimum"@,
            maximum@ == "maximum"@,
            info == charge_limit_from_lines(lv.take(i as int)),
        decreases ls.len() - i,
    {
        assert(lv.take(i + 1).drop_last() =~= lv.take(i as int));
        let l = lower(&trim(&ls[i]));
        if contains(&l, &minimum) {
            info.charge_limit_min_pct = read_limit_in_line(&l, "minimum", info.charge_limit_min_pct);
        }
        if contains(&l, &maximum) {
            info.charge_limit_max_pct = read_limit_in_line(&l, "maximum", info.charge_limit_max_pct);
        }
        i += 1;
    }
    assert(lv.take(ls.len() as int) =~= lv);
    info
}

} // verus!

verus! {

// ---------------------------------------------------------------------------
// framework_tool --versions
// ---------------------------------------------------------------------------

/// Firmware and board versions as `framework_tool --versions` reports them.
#[derive(Debug, Clone, Default)]
pub struct VersionsParsed {
    pub mainboard_type: Option<String>,
    pub mainboard_revision: Option<String>,
    pub uefi_version: Option<String>,
    pub uefi_release_date: Option<String>,
    pub ec_build_version: Option<String>,
    pub ec_current_image: Option<String>,
}

/// What a versions report says.
pub struct VersionsModel {
    pub mainboard_type: Option<Seq<char>>,
    pub mainboard_revision: Option<Seq<char>>,
    pub uefi_version: Option<Seq<char>>,
    pub uefi_release_date: Option<Seq<char>>,
    pub ec_build_version: Option<Seq<char>>,
    pub ec_current_image: Option<Seq<char>>,
}

/// The view of an optional string.
pub open spec fn opt_view(o: Option<String>) -> Option<Seq<char>> {
    match o {
        Some(s) => Some(s@),
        None => None,
    }
}

impl VersionsParsed {
    pub open spec fn model(&self) -> VersionsModel {
        VersionsModel {
            mainboard_type: opt_view(self.mainboard_type),
            mainboard_revision: opt_view(self.mainboard_revision),
            uefi_version: opt_view(self.uefi_version),
            uefi_release_date: opt_view(self.uefi_release_date),
            ec_build_version: opt_view(self.ec_build_version),
            ec_current_image: opt_view(self.ec_current_image),
        }
    }
}

/// Nothing found.
pub open spec fn no_versions() -> VersionsModel {
    VersionsModel {
        mainboard_type: None,
        mainboard_revision: None,
        uefi_version: None,
        uefi_release_date: None,
        ec_build_version: None,
        ec_current_image: None,
    }
}

/// Every tab replaced by four spaces (`str::replace('\t', "    ")`).
pub open spec fn expand_tabs(s: Seq<char>) -> Seq<char>
    decreases s.len(),
{
    if s.len() == 0 {
        seq![]
    } else {
        expand_tabs(s.drop_last()) + if s.last() == '\t' {
            seq![' ', ' ', ' ', ' ']
        } else {
            seq![s.last()]
        }
    }
}

/// A `key: value` line of the given section, the key lowercased.
pub open spec fn version_entry(out: VersionsModel, section: Seq<char>, key: Seq<char>, value: Seq<char>) -> VersionsModel {
    let s = spec_lower(section);
    if spec_starts_with(s, "mainboard hardware"@) {
        if key == "type"@ {
            VersionsModel { mainboard_type: Some(value), ..out }
        } else if key == "revision"@ {
            VersionsModel { mainboard_revision: Some(value), ..out }
        } else {
            out
        }
    } else if spec_starts_with(s, "uefi bios"@) {
        if key == "version"@ {
            VersionsModel { uefi_version: Some(value), ..out }
        } else if key == "release date"@ {
            VersionsModel { uefi_release_date: Some(value), ..out }
        } else {
            out
        }
    } else if spec_starts_with(s, "ec firmware"@) {
        if key == "build version"@ {
            VersionsModel { ec_build_version: Some(value), ..out }
        } else if key == "current image"@ {
            VersionsModel { ec_current_image: Some(value), ..out }
        } else {
            out
        }
    } else {
        out
    }
}

/// What one line of `--versions` output changes, tabs counting as four
/// spaces: a blank line nothing; a line that does not start with a space
/// opens a section, named by the trimmed line; an indented `key: value`
/// line sets the field its section and key name.
pub open spec fn version_line(st: (Seq<char>, VersionsModel), raw: Seq<char>) -> (Seq<char>, VersionsModel) {
    let line = expand_tabs(raw);
    if spec_trim(line).len() == 0 {
        st
    } else if !(line[0] == ' ' || line[0] == '\t') {
        (spec_trim(line), st.1)
    } else {
        match spec_split_once(line, ':') {
            Some((k, v)) => (
                st.0,
                version_entry(st.1, st.0, spec_lower(spec_trim(k)), spec_trim(v)),
            ),
            None => st,
        }
    }
}

/// The section heading and the versions after the given lines, read in order.
pub open spec fn versions_from_lines(ls: Seq<Seq<char>>) -> (Seq<char>, VersionsModel)
    decreases ls.len(),
{
    if ls.len() == 0 {
        (seq![], no_versions())
    } else {
        version_line(versions_from_lines(ls.drop_last()), ls.last())
    }
}

/// What `framework_tool --versions` output reports.
pub open spec fn spec_parse_versions(text: Seq<char>) -> VersionsModel {
    versions_from_lines(spec_lines(text)).1
}

fn replace_tabs(s: &Vec<char>) -> (r: Vec<char>)
    ensures
        r@ == expand_tabs(s@),
{
    let mut r: Vec<char> = Vec::new();
    let mut i: usize = 0;
    assert(s@.take(0) =~= Seq::<char>::empty());
    while i < s.len()
        invariant
            i <= s.len(),
            r@ == expand_tabs(s@.take(i as int)),
        decreases s.len() - i,
    {
        assert(s@.take(i + 1).drop_last() =~= s@.take(i as int));
        let ghost before = r@;
        if s[i] == '\t' {
            r.push(' ');
            r.push(' ');
            r.push(' ');
            r.push(' ');
            assert(r@ =~= before + seq![' ', ' ', ' ', ' ']);
        } else {
            r.push(s[i]);
            assert(r@ =~= before + seq![s@[i as int]]);
        }
        i += 1;
    }
    assert(s@.take(s.len() as int) =~= s@);
    r
}

fn is_key(key: &Vec<char>, word: &str) -> (r: bool)
    ensures
        r == (key@ == word@),
{
    chars_eq(key, &chars_of(word))
}

fn apply_version_entry(out: &mut VersionsParsed, section: &Vec<char>, key: &Vec<char>, value: &Vec<char>)
    ensures
        final(out).model() == version_entry(old(out).model(), section@, key@, value@),
{
    let s = lower(section);
    if starts_with(&s, &chars_of("mainboard hardware")) {
        if is_key(key, "type") {
            out.mainboard_type = Some(string_of(value));
        } else if is_key(key, "revision") {
            out.mainboard_revision = Some(string_of(value));
        }
    } else if starts_with(&s, &chars_of("uefi bios")) {
        if is_key(key, "version") {
            out.uefi_version = Some(string_of(value));
        } else if is_key(key, "release date") {
            out.uefi_release_date = Some(string_of(value));
        }
    } else if starts_with(&s, &chars_of("ec firmware")) {
        if is_key(key, "build version") {
            out.ec_build_version = Some(string_of(value));
        } else if is_key(key, "current image") {
            out.ec_current_image = Some(string_of(value));
        }
    }
}

/// Reads the output of `framework_tool --versions`: the mainboard type and
/// revision, the UEFI version and release date, and the EC build version
/// and current image, each from its section.
pub fn parse_versions(text: &str) -> (r: VersionsParsed)
    ensures
        r.model() == spec_parse_versions(text@),
{
    let cs = chars_of(text);
    let ls = lines(&cs);
    let ghost lv = views(ls@);
    let mut out = VersionsParsed {
        mainboard_type: None,
        mainboard_revision: None,
        uefi_version: None,
        uefi_release_date: None,
        ec_build_version: None,
        ec_current_image: None,
    };
    let mut section: Vec<char> = Vec::new();
    let mut i: usize = 0;
    assert(lv.take(0) =~= Seq::<Seq<char>>::empty());
    while i < ls.len()
        invariant
            i <= ls.len(),
            lv == views(ls@),
            lv == spec_lines(cs@),
            section@ == versions_from_lines(lv.take(i as int)).0,
            out.model() == versions_from_lines(lv.take(i as int)).1,
        decreases ls.len() - i,
    {
        assert(lv.take(i + 1).drop_last() =~= lv.take(i as int));
        let line = replace_tabs(&ls[i]);
        let trimmed = trim(&line);
        if trimmed.len() > 0 {
            if !(line[0] == ' ' || line[0] == '\t') {
                section = trimmed;
            } else if let Some((k, v)) = split_once(&line, ':') {
                let key = lower(&trim(&k));
                let value = trim(&v);
                apply_version_entry(&mut out, &section, &key, &value);
            }
        }
        i += 1;
    }
    assert(lv.take(ls.len() as int) =~= lv);
    out
}

} // verus!

verus! {

// ---------------------------------------------------------------------------
// Laws
// ---------------------------------------------------------------------------

/// A line that is blank once trimmed changes no report: not the power
/// report, not the thermal report, not the charge limits.
pub proof fn law_blank_lines_ignored(
    power: PowerBatteryInfo,
    thermal: ThermalModel,
    limits: BatteryChargeLimitInfo,
    raw: Seq<char>,
)
    requires
        spec_trim(raw).len() == 0,
    ensures
        power_line(power, raw) == power,
        thermal_line(thermal, raw) == thermal,
        charge_limit_line(limits, raw) == limits,
{
    reveal_strlit("AC is:");
    reveal_strlit("Battery is:");
    reveal_strlit("Battery LFCC:");
    reveal_strlit("Battery Capacity:");
    reveal_strlit("Charge level:");
    reveal_strlit("Battery SoC:");
    reveal_strlit("Present Voltage:");
    reveal_strlit("Charger Voltage:");
    reveal_strlit("Present Rate:");
    reveal_strlit("Charger Current:");
    reveal_strlit("Chg Input Current:");
    reveal_strlit("Design Capacity:");
    reveal_strlit("Design Voltage:");
    reveal_strlit("Cycle Count:");
    reveal_strlit("Battery charging");
    reveal_strlit("Battery discharging");
    reveal_strlit("Fan Speed:");
    reveal_strlit("minimum");
    reveal_strlit("maximum");
    let l = spec_trim(raw);
    assert(spec_lower(l).len() == 0);
    assert(spec_lower("Battery charging"@).len() > 0);
    assert(spec_lower("Battery discharging"@).len() > 0);
    assert(index_of_from(l, ':', 0) is None);
}

// ---------------------------------------------------------------------------
// Output read in parts
// ---------------------------------------------------------------------------

/// The report after the lines `ls`, read in order on from the report `st`.
pub open spec fn power_after(st: PowerBatteryInfo, ls: Seq<Seq<char>>) -> PowerBatteryInfo
    decreases ls.len(),
{
    if ls.len() == 0 {
        st
    } else {
        power_line(power_after(st, ls.drop_last()), ls.last())
    }
}

/// The thermal reading after the lines `ls`, read in order on from `st`.
pub open spec fn thermal_after(st: ThermalModel, ls: Seq<Seq<char>>) -> ThermalModel
    decreases ls.len(),
{
    if ls.len() == 0 {
        st
    } else {
        thermal_line(thermal_after(st, ls.drop_last()), ls.last())
    }
}

/// Nothing read.
pub open spec fn no_thermal() -> ThermalModel {
    ThermalModel { temps: Map::empty(), rpms: Seq::empty() }
}

proof fn lemma_power_after_start(ls: Seq<Seq<char>>)
    ensures
        power_from_lines(ls) == power_after(no_power_info(), ls),
    decreases ls.len(),
{
    if ls.len() > 0 {
        lemma_power_after_start(ls.drop_last());
    }
}

proof fn lemma_thermal_after_start(ls: Seq<Seq<char>>)
    ensures
        thermal_from_lines(ls) == thermal_after(no_thermal(), ls),
    decreases ls.len(),
{
    if ls.len() > 0 {
        lemma_thermal_after_start(ls.drop_last());
    }
}

proof fn lemma_power_after_concat(st: PowerBatteryInfo, xs: Seq<Seq<char>>, ys: Seq<Seq<char>>)
    ensures
        power_after(st, xs + ys) == power_after(power_after(st, xs), ys),
    decreases ys.len(),
{
    if ys.len() == 0 {
        assert(xs + ys =~= xs);
    } else {
        assert((xs + ys).drop_last() =~= xs + ys.drop_last());
        assert((xs + ys).last() == ys.last());
        lemma_power_after_concat(st, xs, ys.drop_last());
    }
}

proof fn lemma_thermal_after_concat(st: ThermalModel, xs: Seq<Seq<char>>, ys: Seq<Seq<char>>)
    ensures
        thermal_after(st, xs + ys) == thermal_after(thermal_after(st, xs), ys),
    decreases ys.len(),
{
    if ys.len() == 0 {
        assert(xs + ys =~= xs);
    } else {
        assert((xs + ys).drop_last() =~= xs + ys.drop_last());
        assert((xs + ys).last() == ys.last());
        lemma_thermal_after_concat(st, xs, ys.drop_last());
    }
}

proof fn lemma_after_one(p: PowerBatteryInfo, t: ThermalModel, x: Seq<char>)
    ensures
        power_after(p, seq![x]) == power_line(p, x),
        thermal_after(t, seq![x]) == thermal_line(t, x),
{
    let one = seq![x];
    assert(one.drop_last() =~= Seq::<Seq<char>>::empty());
    assert(one.last() == x);
    assert(power_after(p, one.drop_last()) == p);
    assert(thermal_after(t, one.drop_last()) == t);
}

/// Reading what follows a joining `\n` on from a part read before gives
/// the same as reading the joined text, for power reports and thermal
/// readings alike.
proof fn lemma_joined_reads_on(a: Seq<char>, b: Seq<char>)
    ensures
        spec_parse_power(a + seq!['\n'] + b) == power_after(spec_parse_power(a), spec_lines(b)),
        spec_parse_thermal(a + seq!['\n'] + b) == thermal_after(spec_parse_thermal(a), spec_lines(b)),
{
    lemma_lines_of_joined(a, b);
    let k = open_line_start(a, 0, 0);
    let c = closed_lines(a, 0, 0);
    let last = a.subrange(k, a.len() as int);
    let lb = spec_lines(b);
    lemma_power_after_start(spec_lines(a + seq!['\n'] + b));
    lemma_power_after_start(spec_lines(a));
    lemma_thermal_after_start(spec_lines(a + seq!['\n'] + b));
    lemma_thermal_after_start(spec_lines(a));
    lemma_power_after_concat(no_power_info(), c + seq![strip_cr(last)], lb);
    lemma_power_after_concat(no_power_info(), c, seq![strip_cr(last)]);
    lemma_thermal_after_concat(no_thermal(), c + seq![strip_cr(last)], lb);
    lemma_thermal_after_concat(no_thermal(), c, seq![strip_cr(last)]);
    let p = power_after(no_power_info(), c);
    let t = thermal_after(no_thermal(), c);
    lemma_after_one(p, t, strip_cr(last));
    lemma_trim_strip_cr(last);
    if k < a.len() {
        lemma_power_after_concat(no_power_info(), c, seq![last]);
        lemma_thermal_after_concat(no_thermal(), c, seq![last]);
        lemma_after_one(p, t, last);
    } else {
        assert(c + Seq::<Seq<char>>::empty() =~= c);
        assert(last =~= Seq::<char>::empty());
        assert(spec_trim(last) =~= Seq::<char>::empty());
        law_blank_lines_ignored(p, t, BatteryChargeLimitInfo { charge_limit_min_pct: None, charge_limit_max_pct: None }, strip_cr(last));
    }
}

/// A trimmed `--power -vv` line that no rule reads: it starts with none of
/// `AC is:`, `Battery is:`, `Cycle Count:`, holds none of the other labels,
/// and is neither `Battery charging` nor `Battery discharging` (in any
/// letter case).
pub open spec fn unread_power_line(t: Seq<char>) -> bool {
    &&& !spec_starts_with(t, "AC is:"@)
    &&& !spec_starts_with(t, "Battery is:"@)
    &&& !spec_contains(t, "Battery LFCC:"@)
    &&& !spec_contains(t, "Battery Capacity:"@)
    &&& !spec_contains(t, "Charge level:"@)
    &&& !spec_contains(t, "Battery SoC:"@)
    &&& !spec_contains(t, "Present Voltage:"@)
    &&& !spec_contains(t, "Charger Voltage:"@)
    &&& !spec_contains(t, "Present Rate:"@)
    &&& !spec_contains(t, "Charger Current:"@)
    &&& !spec_contains(t, "Chg Input Current:"@)
    &&& !spec_contains(t, "Design Capacity:"@)
    &&& !spec_contains(t, "Design Voltage:"@)
    &&& !spec_starts_with(t, "Cycle Count:"@)
    &&& spec_lower(t) != spec_lower("Battery charging"@)
    &&& spec_lower(t) != spec_lower("Battery discharging"@)
}

/// A line that no rule reads, appended to `--power -vv` output, leaves every
/// field of the report as it was.
pub proof fn law_unread_power_line_ignored(s: Seq<char>, l: Seq<char>)
    requires
        forall|i: int| 0 <= i < l.len() ==> l[i] != '\n',
        unread_power_line(spec_trim(l)),
    ensures
        spec_parse_power(s + seq!['\n'] + l) == spec_parse_power(s),
{
    lemma_joined_reads_on(s, l);
    lemma_lines_of_single(l);
    let p = spec_parse_power(s);
    if l.len() > 0 {
        lemma_after_one(p, no_thermal(), l);
        assert(power_line(p, l) == p);
    }
}

/// `--thermal` output read in two parts joined by a `\n`: the fan speeds
/// of the first part then those of the second, and the temperatures of
/// both, the second part's reading winning for a sensor named in both.
pub proof fn law_thermal_joined(a: Seq<char>, b: Seq<char>)
    ensures
        spec_parse_thermal(a + seq!['\n'] + b) == (ThermalModel {
            temps: spec_parse_thermal(a).temps.union_prefer_right(spec_parse_thermal(b).temps),
            rpms: spec_parse_thermal(a).rpms + spec_parse_thermal(b).rpms,
        }),
{
    lemma_joined_reads_on(a, b);
    lemma_thermal_after_start(spec_lines(b));
    lemma_thermal_after_from(spec_parse_thermal(a), spec_lines(b));
}

/// Reading lines on from `st` adds their temperatures over those of `st`,
/// and their fan speeds after those of `st`.
proof fn lemma_thermal_after_from(st: ThermalModel, ls: Seq<Seq<char>>)
    ensures
        thermal_after(st, ls) == (ThermalModel {
            temps: st.temps.union_prefer_right(thermal_after(no_thermal(), ls).temps),
            rpms: st.rpms + thermal_after(no_thermal(), ls).rpms,
        }),
    decreases ls.len(),
{
    if ls.len() == 0 {
        assert(st.temps.union_prefer_right(Map::empty()) =~= st.temps);
        assert(st.rpms + Seq::<u32>::empty() =~= st.rpms);
    } else {
        lemma_thermal_after_from(st, ls.drop_last());
        let e = thermal_after(no_thermal(), ls.drop_last());
        let l = spec_trim(ls.last());
        match line_temperature(l) {
            Some((name, v)) => {
                assert(st.temps.union_prefer_right(e.temps).insert(name, v) =~= st.temps.union_prefer_right(
                    e.temps.insert(name, v),
                ));
            },
            None => match line_fan_speed(l) {
                Some(v) => {
                    assert((st.rpms + e.rpms).push(v) =~= st.rpms + e.rpms.push(v));
                },
                None => {},
            },
        }
    }
}

/// A line split at its first colon: the text before it and the text after it.
proof fn lemma_split_at_first_colon(k: Seq<char>, r: Seq<char>)
    requires
        forall|i: int| 0 <= i < k.len() ==> k[i] != ':',
    ensures
        spec_split_once(k + seq![':'] + r, ':') == Some((k, r)),
{
    let l = k + seq![':'] + r;
    assert forall|j: int| 0 <= j < k.len() implies l[j] != ':' by {
        assert(l[j] == k[j]);
    }
    assert(l[k.len() as int] == ':');
    lemma_index_of_first(l, ':', 0, k.len() as int);
    assert(l.take(k.len() as int) =~= k);
    assert(l.skip(k.len() + 1int) =~= r);
}

/// The digits of a number hold no whitespace.
proof fn lemma_decimal_no_ws(n: nat)
    ensures
        decimal(n).len() > 0,
        forall|i: int| 0 <= i < decimal(n).len() ==> !is_ws(#[trigger] decimal(n)[i]),
{
    lemma_decimal_value(n);
    assert forall|i: int| 0 <= i < decimal(n).len() implies !is_ws(#[trigger] decimal(n)[i]) by {
        assert(crate::text::is_digit(decimal(n)[i]));
    }
}

/// A temperature line is recorded under the whole text before its first
/// colon, trimmed, inner spaces kept: whatever follows the colon, a
/// temperature read from the line is named so; a line `name: <n> C` reads
/// as `n` under that name; and a `--thermal` line `name: <n> C` (starting
/// with the name) sets that sensor to `n`, keeping the fan speeds.
pub proof fn law_temperature_named_by_text_before_colon(
    st: ThermalModel,
    k: Seq<char>,
    r: Seq<char>,
    n: nat,
)
    requires
        forall|i: int| 0 <= i < k.len() ==> k[i] != ':',
    ensures
        line_temperature(k + seq![':'] + r) matches Some((name, _)) ==> name == spec_trim(k),
        n <= 0x7fff_ffff ==> line_temperature(
            k + seq![':'] + (seq![' '] + decimal(n) + seq![' ', 'C']),
        ) == Some((spec_trim(k), n as i32)),
        n <= 0x7fff_ffff && k.len() > 0 && !is_ws(k[0]) ==> thermal_line(
            st,
            k + seq![':'] + (seq![' '] + decimal(n) + seq![' ', 'C']),
        ) == (ThermalModel { temps: st.temps.insert(spec_trim(k), n as i32), rpms: st.rpms }),
{
    lemma_split_at_first_colon(k, r);
    if n <= 0x7fff_ffff {
        let d = decimal(n);
        let rr = seq![' '] + d + seq![' ', 'C'];
        lemma_split_at_first_colon(k, rr);
        lemma_decimal_no_ws(n);
        let p = rr.len() - 1;
        assert(rr[p] == 'C');
        assert(spec_rfind_char(rr, 'C') == Some(p));
        assert(rr.take(p) =~= seq![' '] + d + seq![' ']);
        lemma_tokens_padded(d);
        assert(seq![d].last() == d);
        lemma_parse_i32_decimal(n);
        assert(line_temperature(k + seq![':'] + rr) == Some((spec_trim(k), n as i32)));
        if k.len() > 0 && !is_ws(k[0]) {
            let l = k + seq![':'] + rr;
            assert(l[0] == k[0]);
            assert(l.last() == 'C');
            assert(!is_ws('C'));
            lemma_trim_plain(l);
        }
    }
}

/// A text without tabs is its own tab expansion.
proof fn lemma_expand_no_tabs(s: Seq<char>)
    requires
        forall|i: int| 0 <= i < s.len() ==> s[i] != '\t',
    ensures
        expand_tabs(s) == s,
    decreases s.len(),
{
    if s.len() > 0 {
        lemma_expand_no_tabs(s.drop_last());
        assert(s.last() == s[s.len() - 1]);
        assert(s.drop_last() + seq![s.last()] =~= s);
    }
}

/// An indented `key: value` line of `--versions` output is split at its
/// first colon: the key is the text before it, trimmed and lowercased, and
/// the value the text after it, trimmed, colons in it kept. Under an
/// "EC Firmware" section, a "Build version" line sets the EC build version
/// to that whole value and changes nothing else.
pub proof fn law_version_line_split_at_first_colon(
    st: (Seq<char>, VersionsModel),
    k: Seq<char>,
    v: Seq<char>,
)
    requires
        k.len() > 0,
        k[0] == ' ',
        forall|i: int| 0 <= i < k.len() ==> k[i] != ':' && k[i] != '\t',
        forall|i: int| 0 <= i < v.len() ==> v[i] != '\t',
    ensures
        version_line(st, k + seq![':'] + v) == (
            st.0,
            version_entry(st.1, st.0, spec_lower(spec_trim(k)), spec_trim(v)),
        ),
        spec_starts_with(spec_lower(st.0), "ec firmware"@) && spec_lower(spec_trim(k))
            == "build version"@ ==> version_line(st, k + seq![':'] + v) == (
            st.0,
            VersionsModel { ec_build_version: Some(spec_trim(v)), ..st.1 },
        ),
{
    let l = k + seq![':'] + v;
    assert forall|i: int| 0 <= i < l.len() implies l[i] != '\t' by {
        if i < k.len() {
            assert(l[i] == k[i]);
        } else if i > k.len() {
            assert(l[i] == v[i - k.len() - 1]);
        }
    }
    lemma_expand_no_tabs(l);
    assert(l[k.len() as int] == ':');
    assert(!is_ws(':'));
    lemma_trim_nonempty(l, k.len() as int);
    assert(l[0] == ' ');
    lemma_split_at_first_colon(k, v);
    reveal_strlit("ec firmware");
    reveal_strlit("mainboard hardware");
    reveal_strlit("uefi bios");
    reveal_strlit("build version");
    reveal_strlit("type");
    reveal_strlit("revision");
    reveal_strlit("version");
    reveal_strlit("release date");
    let s = spec_lower(st.0);
    if spec_starts_with(s, "ec firmware"@) {
        assert("ec firmware"@[0] == 'e');
        assert("uefi bios"@[0] == 'u');
        assert("mainboard hardware"@[0] == 'm');
        assert(s[0int + 0int] == "ec firmware"@[0]);
        assert(!spec_starts_with(s, "mainboard hardware"@));
        assert(!spec_starts_with(s, "uefi bios"@));
    }
}

/// A limit field `<x>%` reads as `x`.
proof fn lemma_percent_field(x: u8, old: Option<u8>)
    ensures
        has_digit(decimal(x as nat) + seq!['%']),
        limit_reading(decimal(x as nat) + seq!['%'], old) == Some(x),
{
    let d = decimal(x as nat);
    let t = d + seq!['%'];
    lemma_decimal_value(x as nat);
    assert(t[0] == d[0]);
    assert(is_digit(t[0]));
    assert forall|i: int| 0 <= i < t.len() implies !is_ws(t[i]) by {
        if i < d.len() {
            assert(t[i] == d[i]);
            assert(is_digit(d[i]));
        } else {
            assert(t[i] == '%');
        }
    }
    lemma_tokens_single(t);
    assert(spec_has_shape(t, TokenShape::PercentSuffixed));
    assert(first_shaped_from(seq![t], TokenShape::PercentSuffixed, 0) == Some(0int));
    assert(seq![t][0] == t);
    assert(t[t.len() - 1] == '%');
    assert(t[t.len() - 2] == d[d.len() - 1]);
    assert(is_digit(d[d.len() - 1]));
    assert(strip_char_end(t, '%', t.len() - 1) == t.len() - 1);
    assert(strip_char_end(t, '%', t.len() as int) == t.len() - 1);
    assert(spec_trim_end_char(t, '%') =~= d);
    lemma_parse_unsigned_decimal(x as nat, u8::MAX as nat);
}

/// A text behind one space trims to itself where it begins and ends with
/// non-whitespace.
proof fn lemma_trim_space_before(t: Seq<char>)
    requires
        t.len() > 0,
        !is_ws(t[0]),
        !is_ws(t.last()),
    ensures
        spec_trim(seq![' '] + t) == t,
{
    let f = seq![' '] + t;
    assert(is_ws(' '));
    assert(f[0] == ' ' && f[1] == t[0]);
    assert(skip_ws(f, 1) == 1);
    assert(skip_ws(f, 0) == 1);
    assert(f[f.len() - 1] == t.last());
    assert(trim_end_index(f, 1, f.len() as int) == f.len());
    assert(f.subrange(1, f.len() as int) =~= t);
}

/// Digits are their own lower case.
proof fn lemma_lower_digits(d: Seq<char>)
    requires
        crate::text::spec_all_digits(d),
    ensures
        spec_lower(d) == d,
{
    assert forall|i: int| 0 <= i < d.len() implies spec_lower(d)[i] == d[i] by {
        assert(is_digit(d[i]));
    }
    assert(spec_lower(d) =~= d);
}

/// The limits read from the one line "Minimum X%, Maximum Y%".
proof fn lemma_documented_line(x: u8, y: u8, st: BatteryChargeLimitInfo)
    ensures
        charge_limit_line(
            st,
            "Minimum "@ + decimal(x as nat) + "%, Maximum "@ + decimal(y as nat) + "%"@,
        ) == (BatteryChargeLimitInfo { charge_limit_min_pct: Some(x), charge_limit_max_pct: Some(y) }),
{
    reveal_strlit("Minimum ");
    reveal_strlit("%, Maximum ");
    reveal_strlit("%");
    reveal_strlit("minimum ");
    reveal_strlit("%, maximum ");
    reveal_strlit("minimum");
    reveal_strlit("maximum");
    let d = decimal(x as nat);
    let e = decimal(y as nat);
    lemma_decimal_value(x as nat);
    lemma_decimal_value(y as nat);
    let a = d.len() as int;
    let b = e.len() as int;
    let l = "Minimum "@ + d + "%, Maximum "@ + e + "%"@;
    let m8 = "minimum "@;
    let mid = "%, maximum "@;
    let lw = m8 + d + mid + e + "%"@;
    // the line is already trimmed
    assert(l[0] == 'M');
    assert(l.last() == '%');
    assert(!is_ws('M') && !is_ws('%'));
    lemma_trim_plain(l);
    // its lower case
    assert(spec_lower("Minimum "@) =~= m8);
    assert(spec_lower("%, Maximum "@) =~= mid);
    assert(spec_lower("%"@) =~= "%"@);
    lemma_lower_digits(d);
    lemma_lower_digits(e);
    assert forall|i: int| 0 <= i < l.len() implies #[trigger] spec_lower(l)[i] == lw[i] by {
        if i < 8 {
            assert(l[i] == "Minimum "@[i]);
            assert(lw[i] == m8[i]);
            assert(spec_lower("Minimum "@)[i] == lower_char("Minimum "@[i]));
        } else if i < 8 + a {
            assert(l[i] == d[i - 8]);
            assert(lw[i] == d[i - 8]);
            assert(is_digit(d[i - 8]));
        } else if i < 19 + a {
            assert(l[i] == "%, Maximum "@[i - 8 - a]);
            assert(lw[i] == mid[i - 8 - a]);
            assert(spec_lower("%, Maximum "@)[i - 8 - a] == lower_char("%, Maximum "@[i - 8 - a]));
        } else if i < 19 + a + b {
            assert(l[i] == e[i - 19 - a]);
            assert(lw[i] == e[i - 19 - a]);
            assert(is_digit(e[i - 19 - a]));
        } else {
            assert(l[i] == '%');
            assert(lw[i] == '%');
        }
    }
    assert(spec_lower(l) =~= lw);
    // the minimum
    assert(spec_matches_at(lw, 0, "minimum"@));
    assert(find_from(lw, "minimum"@, 0) == Some(0int));
    let rest1 = lw.skip(7);
    assert(rest1 =~= seq![' '] + d + mid + e + "%"@);
    assert(rest1[a + 2] == ',');
    assert forall|j: int| 0 <= j < a + 2 implies rest1[j] != ',' by {
        if 1 <= j < a + 1 {
            assert(rest1[j] == d[j - 1]);
            assert(is_digit(d[j - 1]));
        }
    }
    lemma_index_of_first(rest1, ',', 0, a + 2);
    assert(rest1.take(a + 2) =~= seq![' '] + (d + seq!['%']));
    assert(d[0] == (d + seq!['%'])[0]);
    assert(is_digit(d[0]));
    lemma_trim_space_before(d + seq!['%']);
    assert(limit_field(lw, "minimum"@) == d + seq!['%']);
    lemma_percent_field(x, st.charge_limit_min_pct);
    // the maximum
    let q = a + 11;
    assert(spec_matches_at(lw, q, "maximum"@)) by {
        assert forall|k: int| 0 <= k < 7 implies lw[q + k] == "maximum"@[k] by {
            assert(lw[q + k] == mid[k + 3]);
        }
    }
    assert forall|j: int| 0 <= j < q implies !spec_matches_at(lw, j, "maximum"@) by {
        if j < 8 {
            assert(lw[j] == m8[j]);
            if j == 0 || j == 4 || j == 6 {
                assert(lw[j + 1] == m8[j + 1]);
                assert(lw[j + 1] != "maximum"@[1]);
            } else {
                assert(lw[j] != "maximum"@[0]);
            }
        } else if j < 8 + a {
            assert(lw[j] == d[j - 8]);
            assert(is_digit(d[j - 8]));
            assert(lw[j] != "maximum"@[0]);
        } else {
            assert(lw[j] == mid[j - 8 - a]);
            assert(lw[j] != "maximum"@[0]);
        }
    }
    lemma_find_first(lw, "maximum"@, 0, q);
    let rest2 = lw.skip(q + 7);
    assert(rest2 =~= seq![' '] + (e + seq!['%']));
    assert forall|j: int| 0 <= j < rest2.len() implies rest2[j] != ',' by {
        if 1 <= j < b + 1 {
            assert(rest2[j] == e[j - 1]);
            assert(is_digit(e[j - 1]));
        }
    }
    lemma_index_of_none(rest2, ',', 0);
    assert(e[0] == (e + seq!['%'])[0]);
    assert(is_digit(e[0]));
    lemma_trim_space_before(e + seq!['%']);
    assert(limit_field(lw, "maximum"@) == e + seq!['%']);
    lemma_percent_field(y, st.charge_limit_max_pct);
}

/// The line that `--charge-limit` prints, "Minimum X%, Maximum Y%", reads as
/// a minimum of X and a maximum of Y, for every X and Y, with or without a
/// final line break.
pub proof fn law_documented_charge_limit_line(x: u8, y: u8)
    ensures
        ({
            let l = "Minimum "@ + decimal(x as nat) + "%, Maximum "@ + decimal(y as nat) + "%"@;
            let want = BatteryChargeLimitInfo {
                charge_limit_min_pct: Some(x),
                charge_limit_max_pct: Some(y),
            };
            &&& spec_parse_charge_limit(l) == want
            &&& spec_parse_charge_limit(l + seq!['\n']) == want
        }),
{
    reveal_strlit("Minimum ");
    reveal_strlit("%, Maximum ");
    reveal_strlit("%");
    let d = decimal(x as nat);
    let e = decimal(y as nat);
    lemma_decimal_value(x as nat);
    lemma_decimal_value(y as nat);
    let a = d.len() as int;
    let l = "Minimum "@ + d + "%, Maximum "@ + e + "%"@;
    let none = BatteryChargeLimitInfo { charge_limit_min_pct: None, charge_limit_max_pct: None };
    assert forall|i: int| 0 <= i < l.len() implies l[i] != '\n' by {
        if i < 8 {
            assert(l[i] == "Minimum "@[i]);
        } else if i < 8 + a {
            assert(l[i] == d[i - 8]);
            assert(is_digit(d[i - 8]));
        } else if i < 19 + a {
            assert(l[i] == "%, Maximum "@[i - 8 - a]);
        } else if i < l.len() - 1 {
            assert(l[i] == e[i - 19 - a]);
            assert(is_digit(e[i - 19 - a]));
        }
    }
    lemma_lines_of_single(l);
    lemma_documented_line(x, y, none);
    let one = seq![l];
    assert(one.drop_last() =~= Seq::<Seq<char>>::empty());
    assert(charge_limit_from_lines(one) == charge_limit_line(none, l));
    lemma_lines_of_joined(l, Seq::<char>::empty());
    assert(l + seq!['\n'] + Seq::<char>::empty() =~= l + seq!['\n']);
    assert(spec_lines(Seq::<char>::empty()) =~= Seq::<Seq<char>>::empty());
    let k = open_line_start(l, 0, 0);
    let c = closed_lines(l, 0, 0);
    let want = BatteryChargeLimitInfo { charge_limit_min_pct: Some(x), charge_limit_max_pct: Some(y) };
    if k < l.len() {
        assert(c + seq![l.subrange(k, l.len() as int)] == seq![l]);
        assert(c.len() == 0);
        assert(c =~= Seq::<Seq<char>>::empty());
        assert(l.subrange(k, l.len() as int) == l);
        assert(strip_cr(l) == l);
        assert(spec_lines(l + seq!['\n']) =~= seq![l]);
    } else {
        assert(c + Seq::<Seq<char>>::empty() =~= c);
        assert(c == seq![l]);
        let blank = strip_cr(l.subrange(k, l.len() as int));
        assert(blank =~= Seq::<char>::empty());
        let two = seq![l, blank];
        assert(spec_lines(l + seq!['\n']) =~= two);
        assert(two.drop_last() =~= one);
        assert(spec_trim(blank) =~= Seq::<char>::empty());
        law_blank_lines_ignored(no_power_info(), no_thermal(), want, blank);
    }
}

/// A `--power -vv` line of one label (ending in its only colon), then
/// `tail`, is its own trim, and what follows its label is `tail`.
proof fn lemma_power_line_setup(label: Seq<char>, tail: Seq<char>)
    requires
        label.len() > 1,
        !is_ws(label[0]),
        label[label.len() - 1] == ':',
        forall|i: int| 0 <= i < label.len() - 1 ==> label[i] != ':',
        tail.len() > 0,
        forall|i: int| 0 <= i < tail.len() ==> tail[i] != ':',
        !is_ws(tail[tail.len() - 1]),
    ensures
        spec_trim(label + tail) == label + tail,
        (label + tail)[label.len() - 1] == ':',
        forall|i: int|
            0 <= i < (label + tail).len() && i != label.len() - 1 ==> (label + tail)[i] != ':',
        after_label(label + tail, label) == Some(tail),
{
    let l = label + tail;
    assert(l[0] == label[0]);
    assert(l[l.len() - 1] == tail[tail.len() - 1]);
    lemma_trim_plain(l);
    assert forall|i: int| 0 <= i < l.len() && i != label.len() - 1 implies l[i] != ':' by {
        if i < label.len() {
            assert(l[i] == label[i]);
        } else {
            assert(l[i] == tail[i - label.len()]);
        }
    }
    assert(spec_matches_at(l, 0, label));
    assert(find_from(l, label, 0) == Some(0int));
    assert(l.skip(label.len() as int) =~= tail);
}

/// A number and then a unit: the number is the first all-digit token.
proof fn lemma_number_then_unit(n: u32, unit: Seq<char>)
    requires
        unit.len() > 0,
        forall|k: int| 0 <= k < unit.len() ==> !is_ws(unit[k]) && unit[k] != ':',
        !is_digit(unit[0]),
    ensures
        spec_first_shaped(spec_tokens(seq![' '] + decimal(n as nat) + seq![' '] + unit), TokenShape::Digits)
            == Some(decimal(n as nat)),
        spec_token_value(decimal(n as nat), TokenShape::Digits) == Some(n),
        forall|i: int|
            0 <= i < (seq![' '] + decimal(n as nat) + seq![' '] + unit).len() ==> (seq![' ']
                + decimal(n as nat) + seq![' '] + unit)[i] != ':',
        !is_ws((seq![' '] + decimal(n as nat) + seq![' '] + unit).last()),
{
    let d = decimal(n as nat);
    lemma_decimal_no_ws(n as nat);
    lemma_decimal_value(n as nat);
    lemma_tokens_two(d, unit);
    let toks = seq![d, unit];
    assert(toks[0] == d);
    assert(spec_has_shape(d, TokenShape::Digits));
    assert(first_shaped_from(toks, TokenShape::Digits, 0) == Some(0int));
    lemma_parse_unsigned_decimal(n as nat, u32::MAX as nat);
    let t = seq![' '] + d + seq![' '] + unit;
    assert forall|i: int| 0 <= i < t.len() implies t[i] != ':' by {
        if 1 <= i < d.len() + 1 {
            assert(t[i] == d[i - 1]);
            assert(is_digit(d[i - 1]));
        } else if i >= d.len() + 2 {
            assert(t[i] == unit[i - d.len() - 2]);
        }
    }
    assert(t.last() == unit[unit.len() - 1]);
}

/// A number with a unit suffix (`%`, `mV` or `mA`) as one token: it has
/// the shape that reads that suffix, and reads as the number.
proof fn lemma_number_with_suffix(n: u32, suffix: Seq<char>, shape: TokenShape)
    requires
        (suffix == seq!['%'] && shape == TokenShape::DigitsPercent) || (suffix == seq!['m', 'V']
            && shape == TokenShape::MilliVolts) || (suffix == seq!['m', 'A'] && shape
            == TokenShape::MilliAmps),
    ensures
        spec_first_shaped(spec_tokens(seq![' '] + (decimal(n as nat) + suffix)), shape) == Some(
            decimal(n as nat) + suffix,
        ),
        spec_token_value(decimal(n as nat) + suffix, shape) == Some(n),
        forall|i: int|
            0 <= i < (seq![' '] + (decimal(n as nat) + suffix)).len() ==> (seq![' '] + (decimal(
                n as nat,
            ) + suffix))[i] != ':',
        !is_ws((seq![' '] + (decimal(n as nat) + suffix)).last()),
{
    reveal_strlit("mV");
    reveal_strlit("mA");
    let d = decimal(n as nat);
    lemma_decimal_no_ws(n as nat);
    lemma_decimal_value(n as nat);
    let t = d + suffix;
    let a = d.len() as int;
    assert forall|k: int| 0 <= k < t.len() implies !is_ws(t[k]) && t[k] != ':' by {
        if k < a {
            assert(t[k] == d[k]);
            assert(is_digit(d[k]));
        } else {
            assert(t[k] == suffix[k - a]);
        }
    }
    lemma_tokens_after_space(t);
    assert(seq![t][0] == t);
    assert(is_digit(d[a - 1]));
    if shape == TokenShape::DigitsPercent {
        assert(t[t.len() - 1] == '%');
        assert(t[t.len() - 2] == d[a - 1]);
        assert(strip_char_end(t, '%', t.len() - 1) == t.len() - 1);
        assert(strip_char_end(t, '%', t.len() as int) == t.len() - 1);
        assert(spec_trim_end_char(t, '%') =~= d);
    } else {
        let pat = if shape == TokenShape::MilliVolts {
            "mV"@
        } else {
            "mA"@
        };
        assert(pat =~= suffix);
        assert(spec_matches_at(t, a, pat));
        if a >= 2 {
            assert(t[a - 2] == d[a - 2]);
            assert(is_digit(d[a - 2]));
            assert(!spec_matches_at(t, a - 2, pat));
        }
        assert(strip_pat_end(t, pat, a) == a);
        assert(strip_pat_end(t, pat, t.len() as int) == a);
        assert(spec_trim_end_pat(t, pat) =~= d);
        assert(spec_ends_with(t, pat));
    }
    assert(spec_has_shape(t, shape));
    assert(first_shaped_from(seq![t], shape, 0) == Some(0int));
    lemma_parse_unsigned_decimal(n as nat, u32::MAX as nat);
    let s = seq![' '] + t;
    assert forall|i: int| 0 <= i < s.len() implies s[i] != ':' by {
        if i >= 1 {
            assert(s[i] == t[i - 1]);
        }
    }
    assert(s.last() == t[t.len() - 1]);
}

proof fn lemma_power_last_full_charge_capacity_mah(st: PowerBatteryInfo, n: u32)
    ensures
        power_line(st, "Battery LFCC:"@ + (seq![' '] + decimal(n as nat) + seq![' '] + "mAh"@)) == (PowerBatteryInfo { last_full_charge_capacity_mah: Some(n), ..st }),
{
    reveal_strlit("mAh");
    reveal_strlit("AC is:");
    reveal_strlit("Battery is:");
    reveal_strlit("Battery LFCC:");
    let tail = seq![' '] + decimal(n as nat) + seq![' '] + "mAh"@;
    let l = "Battery LFCC:"@ + tail;
    lemma_number_then_unit(n, "mAh"@);
    lemma_power_line_setup("Battery LFCC:"@, tail);
    let c = 12int;
    lemma_colon_pattern_absent(l, "AC is:"@, c, 0);
    lemma_colon_pattern_absent(l, "Battery is:"@, c, 0);
}

proof fn lemma_power_remaining_capacity_mah(st: PowerBatteryInfo, n: u32)
    ensures
        power_line(st, "Battery Capacity:"@ + (seq![' '] + decimal(n as nat) + seq![' '] + "mAh"@)) == (PowerBatteryInfo { remaining_capacity_mah: Some(n), ..st }),
{
    reveal_strlit("mAh");
    reveal_strlit("AC is:");
    reveal_strlit("Battery is:");
    reveal_strlit("Battery LFCC:");
    reveal_strlit("Battery Capacity:");
    let tail = seq![' '] + decimal(n as nat) + seq![' '] + "mAh"@;
    let l = "Battery Capacity:"@ + tail;
    lemma_number_then_unit(n, "mAh"@);
    lemma_power_line_setup("Battery Capacity:"@, tail);
    let c = 16int;
    lemma_colon_pattern_absent(l, "AC is:"@, c, 0);
    lemma_colon_pattern_absent(l, "Battery is:"@, c, 0);
    lemma_colon_pattern_absent(l, "Battery LFCC:"@, c, 0);
}

proof fn lemma_power_percentage(st: PowerBatteryInfo, n: u32)
    ensures
        power_line(st, "Charge level:"@ + (seq![' '] + (decimal(n as nat) + "%"@))) == (PowerBatteryInfo { percentage: Some(n), ..st }),
{
    reveal_strlit("%");
    reveal_strlit("AC is:");
    reveal_strlit("Battery is:");
    reveal_strlit("Battery LFCC:");
    reveal_strlit("Battery Capacity:");
    reveal_strlit("Charge level:");
    let tail = seq![' '] + (decimal(n as nat) + "%"@);
    let l = "Charge level:"@ + tail;
    assert("%"@ =~= seq!['%']);
    lemma_number_with_suffix(n, seq!['%'], TokenShape::DigitsPercent);
    lemma_power_line_setup("Charge level:"@, tail);
    let c = 12int;
    lemma_colon_pattern_absent(l, "AC is:"@, c, 0);
    lemma_colon_pattern_absent(l, "Battery is:"@, c, 0);
    lemma_colon_pattern_absent(l, "Battery LFCC:"@, c, 0);
    lemma_colon_pattern_absent(l, "Battery Capacity:"@, c, 0);
}

proof fn lemma_power_soc_pct(st: PowerBatteryInfo, n: u32)
    ensures
        power_line(st, "Battery SoC:"@ + (seq![' '] + (decimal(n as nat) + "%"@))) == (PowerBatteryInfo { soc_pct: Some(n), ..st }),
{
    reveal_strlit("%");
    reveal_strlit("AC is:");
    reveal_strlit("Battery is:");
    reveal_strlit("Battery LFCC:");
    reveal_strlit("Battery Capacity:");
    reveal_strlit("Charge level:");
    reveal_strlit("Battery SoC:");
    let tail = seq![' '] + (decimal(n as nat) + "%"@);
    let l = "Battery SoC:"@ + tail;
    assert("%"@ =~= seq!['%']);
    lemma_number_with_suffix(n, seq!['%'], TokenShape::DigitsPercent);
    lemma_power_line_setup("Battery SoC:"@, tail);
    let c = 11int;
    lemma_colon_pattern_absent(l, "AC is:"@, c, 0);
    lemma_colon_pattern_absent(l, "Battery is:"@, c, 0);
    lemma_colon_pattern_absent(l, "Battery LFCC:"@, c, 0);
    lemma_colon_pattern_absent(l, "Battery Capacity:"@, c, 0);
    lemma_colon_pattern_absent(l, "Charge level:"@, c, 0);
}

proof fn lemma_power_charger_voltage_mv(st: PowerBatteryInfo, n: u32)
    ensures
        power_line(st, "Charger Voltage:"@ + (seq![' '] + (decimal(n as nat) + "mV"@))) == (PowerBatteryInfo { charger_voltage_mv: Some(n), ..st }),
{
    reveal_strlit("mV");
    reveal_strlit("AC is:");
    reveal_strlit("Battery is:");
    reveal_strlit("Battery LFCC:");
    reveal_strlit("Battery Capacity:");
    reveal_strlit("Charge level:");
    reveal_strlit("Battery SoC:");
    reveal_strlit("Present Voltage:");
    reveal_strlit("Charger Voltage:");
    let tail = seq![' '] + (decimal(n as nat) + "mV"@);
    let l = "Charger Voltage:"@ + tail;
    assert("mV"@ =~= seq!['m', 'V']);
    lemma_number_with_suffix(n, seq!['m', 'V'], TokenShape::MilliVolts);
    lemma_power_line_setup("Charger Voltage:"@, tail);
    let c = 15int;
    lemma_colon_pattern_absent(l, "AC is:"@, c, 0);
    lemma_colon_pattern_absent(l, "Battery is:"@, c, 0);
    lemma_colon_pattern_absent(l, "Battery LFCC:"@, c, 0);
    lemma_colon_pattern_absent(l, "Battery Capacity:"@, c, 0);
    lemma_colon_pattern_absent(l, "Charge level:"@, c, 0);
    lemma_colon_pattern_absent(l, "Battery SoC:"@, c, 0);
    lemma_colon_pattern_absent(l, "Present Voltage:"@, c, 0);
}

proof fn lemma_power_present_rate_ma(st: PowerBatteryInfo, n: u32)
    ensures
        power_line(st, "Present Rate:"@ + (seq![' '] + decimal(n as nat) + seq![' '] + "mA"@)) == (PowerBatteryInfo { present_rate_ma: Some(n), ..st }),
{
    reveal_strlit("mA");
    reveal_strlit("AC is:");
    reveal_strlit("Battery is:");
    reveal_strlit("Battery LFCC:");
    reveal_strlit("Battery Capacity:");
    reveal_strlit("Charge level:");
    reveal_strlit("Battery SoC:");
    reveal_strlit("Present Voltage:");
    reveal_strlit("Charger Voltage:");
    reveal_strlit("Present Rate:");
    let tail = seq![' '] + decimal(n as nat) + seq![' '] + "mA"@;
    let l = "Present Rate:"@ + tail;
    lemma_number_then_unit(n, "mA"@);
    lemma_power_line_setup("Present Rate:"@, tail);
    let c = 12int;
    lemma_colon_pattern_absent(l, "AC is:"@, c, 0);
    lemma_colon_pattern_absent(l, "Battery is:"@, c, 0);
    lemma_colon_pattern_absent(l, "Battery LFCC:"@, c, 0);
    lemma_colon_pattern_absent(l, "Battery Capacity:"@, c, 0);
    lemma_colon_pattern_absent(l, "Charge level:"@, c, 0);
    lemma_colon_pattern_absent(l, "Battery SoC:"@, c, 0);
    lemma_colon_pattern_absent(l, "Present Voltage:"@, c, 0);
    lemma_colon_pattern_absent(l, "Charger Voltage:"@, c, 0);
}

proof fn lemma_power_charger_current_ma(st: PowerBatteryInfo, n: u32)
    ensures
        power_line(st, "Charger Current:"@ + (seq![' '] + (decimal(n as nat) + "mA"@))) == (PowerBatteryInfo { charger_current_ma: Some(n), ..st }),
{
    reveal_strlit("mA");
    reveal_strlit("AC is:");
    reveal_strlit("Battery is:");
    reveal_strlit("Battery LFCC:");
    reveal_strlit("Battery Capacity:");
    reveal_strlit("Charge level:");
    reveal_strlit("Battery SoC:");
    reveal_strlit("Present Voltage:");
    reveal_strlit("Charger Voltage:");
    reveal_strlit("Present Rate:");
    reveal_strlit("Charger Current:");
    let tail = seq![' '] + (decimal(n as nat) + "mA"@);
    let l = "Charger Current:"@ + tail;
    assert("mA"@ =~= seq!['m', 'A']);
    lemma_number_with_suffix(n, seq!['m', 'A'], TokenShape::MilliAmps);
    lemma_power_line_setup("Charger Current:"@, tail);
    let c = 15int;
    lemma_colon_pattern_absent(l, "AC is:"@, c, 0);
    lemma_colon_pattern_absent(l, "Battery is:"@, c, 0);
    lemma_colon_pattern_absent(l, "Battery LFCC:"@, c, 0);
    lemma_colon_pattern_absent(l, "Battery Capacity:"@, c, 0);
    lemma_colon_pattern_absent(l, "Charge level:"@, c, 0);
    lemma_colon_pattern_absent(l, "Battery SoC:"@, c, 0);
    lemma_colon_pattern_absent(l, "Present Voltage:"@, c, 0);
    lemma_colon_pattern_absent(l, "Charger Voltage:"@, c, 8);
    lemma_colon_pattern_absent(l, "Present Rate:"@, c, 0);
}

proof fn lemma_power_charge_input_current_ma(st: PowerBatteryInfo, n: u32)
    ensures
        power_line(st, "Chg Input Current:"@ + (seq![' '] + (decimal(n as nat) + "mA"@))) == (PowerBatteryInfo { charge_input_current_ma: Some(n), ..st }),
{
    reveal_strlit("mA");
    reveal_strlit("AC is:");
    reveal_strlit("Battery is:");
    reveal_strlit("Battery LFCC:");
    reveal_strlit("Battery Capacity:");
    reveal_strlit("Charge level:");
    reveal_strlit("Battery SoC:");
    reveal_strlit("Present Voltage:");
    reveal_strlit("Charger Voltage:");
    reveal_strlit("Present Rate:");
    reveal_strlit("Charger Current:");
    reveal_strlit("Chg Input Current:");
    let tail = seq![' '] + (decimal(n as nat) + "mA"@);
    let l = "Chg Input Current:"@ + tail;
    assert("mA"@ =~= seq!['m', 'A']);
    lemma_number_with_suffix(n, seq!['m', 'A'], TokenShape::MilliAmps);
    lemma_power_line_setup("Chg Input Current:"@, tail);
    let c = 17int;
    lemma_colon_pattern_absent(l, "AC is:"@, c, 0);
    lemma_colon_pattern_absent(l, "Battery is:"@, c, 0);
    lemma_colon_pattern_absent(l, "Battery LFCC:"@, c, 0);
    lemma_colon_pattern_absent(l, "Battery Capacity:"@, c, 0);
    lemma_colon_pattern_absent(l, "Charge level:"@, c, 0);
    lemma_colon_pattern_absent(l, "Battery SoC:"@, c, 0);
    lemma_colon_pattern_absent(l, "Present Voltage:"@, c, 0);
    lemma_colon_pattern_absent(l, "Charger Voltage:"@, c, 0);
    lemma_colon_pattern_absent(l, "Present Rate:"@, c, 0);
    lemma_colon_pattern_absent(l, "Charger Current:"@, c, 0);
}

proof fn lemma_power_design_capacity_mah(st: PowerBatteryInfo, n: u32)
    ensures
        power_line(st, "Design Capacity:"@ + (seq![' '] + decimal(n as nat) + seq![' '] + "mAh"@)) == (PowerBatteryInfo { design_capacity_mah: Some(n), ..st }),
{
    reveal_strlit("mAh");
    reveal_strlit("AC is:");
    reveal_strlit("Battery is:");
    reveal_strlit("Battery LFCC:");
    reveal_strlit("Battery Capacity:");
    reveal_strlit("Charge level:");
    reveal_strlit("Battery SoC:");
    reveal_strlit("Present Voltage:");
    reveal_strlit("Charger Voltage:");
    reveal_strlit("Present Rate:");
    reveal_strlit("Charger Current:");
    reveal_strlit("Chg Input Current:");
    reveal_strlit("Design Capacity:");
    let tail = seq![' '] + decimal(n as nat) + seq![' '] + "mAh"@;
    let l = "Design Capacity:"@ + tail;
    lemma_number_then_unit(n, "mAh"@);
    lemma_power_line_setup("Design Capacity:"@, tail);
    let c = 15int;
    lemma_colon_pattern_absent(l, "AC is:"@, c, 0);
    lemma_colon_pattern_absent(l, "Battery is:"@, c, 0);
    lemma_colon_pattern_absent(l, "Battery LFCC:"@, c, 0);
    lemma_colon_pattern_absent(l, "Battery Capacity:"@, c, 0);
    lemma_colon_pattern_absent(l, "Charge level:"@, c, 0);
    lemma_colon_pattern_absent(l, "Battery SoC:"@, c, 0);
    lemma_colon_pattern_absent(l, "Present Voltage:"@, c, 0);
    lemma_colon_pattern_absent(l, "Charger Voltage:"@, c, 0);
    lemma_colon_pattern_absent(l, "Present Rate:"@, c, 0);
    lemma_colon_pattern_absent(l, "Charger Current:"@, c, 0);
    lemma_colon_pattern_absent(l, "Chg Input Current:"@, c, 0);
}

/// Each numeric line of `--power -vv` sets its own field, and only it, to
/// the number it gives, for every number: `Battery LFCC: <n> mAh`, `Battery
/// Capacity: <n> mAh`, `Charge level: <n>%`, `Battery SoC: <n>%`, `Charger
/// Voltage: <n>mV`, `Present Rate: <n> mA`, `Charger Current: <n>mA`, `Chg
/// Input Current: <n>mA` and `Design Capacity: <n> mAh`.
pub proof fn law_power_line_sets_its_field(st: PowerBatteryInfo, n: u32)
    ensures
        power_line(st, "Battery LFCC:"@ + (seq![' '] + decimal(n as nat) + seq![' '] + "mAh"@)) == (PowerBatteryInfo { last_full_charge_capacity_mah: Some(n), ..st }),
        power_line(st, "Battery Capacity:"@ + (seq![' '] + decimal(n as nat) + seq![' '] + "mAh"@)) == (PowerBatteryInfo { remaining_capacity_mah: Some(n), ..st }),
        power_line(st, "Charge level:"@ + (seq![' '] + (decimal(n as nat) + "%"@))) == (PowerBatteryInfo { percentage: Some(n), ..st }),
        power_line(st, "Battery SoC:"@ + (seq![' '] + (decimal(n as nat) + "%"@))) == (PowerBatteryInfo { soc_pct: Some(n), ..st }),
        power_line(st, "Charger Voltage:"@ + (seq![' '] + (decimal(n as nat) + "mV"@))) == (PowerBatteryInfo { charger_voltage_mv: Some(n), ..st }),
        power_line(st, "Present Rate:"@ + (seq![' '] + decimal(n as nat) + seq![' '] + "mA"@)) == (PowerBatteryInfo { present_rate_ma: Some(n), ..st }),
        power_line(st, "Charger Current:"@ + (seq![' '] + (decimal(n as nat) + "mA"@))) == (PowerBatteryInfo { charger_current_ma: Some(n), ..st }),
        power_line(st, "Chg Input Current:"@ + (seq![' '] + (decimal(n as nat) + "mA"@))) == (PowerBatteryInfo { charge_input_current_ma: Some(n), ..st }),
        power_line(st, "Design Capacity:"@ + (seq![' '] + decimal(n as nat) + seq![' '] + "mAh"@)) == (PowerBatteryInfo { design_capacity_mah: Some(n), ..st }),
{
    lemma_power_last_full_charge_capacity_mah(st, n);
    lemma_power_remaining_capacity_mah(st, n);
    lemma_power_percentage(st, n);
    lemma_power_soc_pct(st, n);
    lemma_power_charger_voltage_mv(st, n);
    lemma_power_present_rate_ma(st, n);
    lemma_power_charger_current_ma(st, n);
    lemma_power_charge_input_current_ma(st, n);
    lemma_power_design_capacity_mah(st, n);
}

/// A temperature below zero: a line `name: -<n> C` reads as `-n` under
/// the trimmed name, for every `n` down to `i32::MIN`.
pub proof fn law_negative_temperature(k: Seq<char>, n: nat)
    requires
        forall|i: int| 0 <= i < k.len() ==> k[i] != ':',
        0 < n <= 0x8000_0000,
    ensures
        line_temperature(k + seq![':'] + (seq![' ', '-'] + decimal(n) + seq![' ', 'C'])) == Some(
            (spec_trim(k), (-(n as int)) as i32),
        ),
{
    let d = decimal(n);
    let md = seq!['-'] + d;
    let rr = seq![' ', '-'] + d + seq![' ', 'C'];
    lemma_split_at_first_colon(k, rr);
    lemma_decimal_no_ws(n);
    assert(is_ws(' ') && !is_ws('-'));
    assert forall|i: int| 0 <= i < md.len() implies !is_ws(md[i]) by {
        if i > 0 {
            assert(md[i] == d[i - 1]);
        }
    }
    let p = rr.len() - 1;
    assert(rr[p] == 'C');
    assert(spec_rfind_char(rr, 'C') == Some(p));
    assert(rr.take(p) =~= seq![' '] + md + seq![' ']);
    lemma_tokens_padded(md);
    assert(seq![md].last() == md);
    lemma_parse_i32_negative_decimal(n);
}

/// A fan speed line `Fan Speed: <n> RPM` adds `n` to the fan speeds (and no
/// temperature) where `n` is not zero, and changes nothing where it is.
pub proof fn law_fan_speed_line(st: ThermalModel, n: u32)
    ensures
        n > 0 ==> thermal_line(st, "Fan Speed:"@ + (seq![' '] + decimal(n as nat) + seq![' '] + "RPM"@))
            == (ThermalModel { temps: st.temps, rpms: st.rpms.push(n) }),
        n == 0 ==> thermal_line(st, "Fan Speed:"@ + (seq![' '] + decimal(n as nat) + seq![' '] + "RPM"@))
            == st,
{
    reveal_strlit("Fan Speed:");
    reveal_strlit("RPM");
    let tail = seq![' '] + decimal(n as nat) + seq![' '] + "RPM"@;
    let l = "Fan Speed:"@ + tail;
    lemma_number_then_unit(n, "RPM"@);
    lemma_power_line_setup("Fan Speed:"@, tail);
    reveal_strlit("Fan Speed");
    let k = "Fan Speed"@;
    assert("Fan Speed:"@ =~= k + seq![':']);
    assert(l =~= k + seq![':'] + tail);
    lemma_split_at_first_colon(k, tail);
    assert forall|i: int| 0 <= i < tail.len() implies tail[i] != 'C' by {
        let d = decimal(n as nat);
        lemma_decimal_value(n as nat);
        if 1 <= i < d.len() + 1 {
            assert(tail[i] == d[i - 1]);
            assert(is_digit(d[i - 1]));
        }
    }
    lemma_rindex_none(tail, 'C', tail.len() as int);
    assert(line_temperature(l) is None);
}

} // verus!
