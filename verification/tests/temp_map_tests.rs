use std::collections::BTreeMap;
use framework_service::temp_map::TempMap;

#[test]
fn read_after_write() {
    let mut m = TempMap::new();
    assert_eq!(m.len(), 0);
    assert_eq!(m.get("APU"), None);
    m.insert("APU".to_string(), 62);
    m.insert("F75303_CPU".to_string(), 55);
    assert_eq!(m.get("APU"), Some(62));
    assert_eq!(m.get("F75303_CPU"), Some(55));
    m.insert("APU".to_string(), 70);
    assert_eq!(m.get("APU"), Some(70));
    assert_eq!(m.get("F75303_CPU"), Some(55));
    assert_eq!(m.get("apu"), None);
    assert_eq!(m.len(), 2);
    let names: Vec<&str> = m.entries().iter().map(|(n, _)| n.as_str()).collect();
    assert_eq!(names, vec!["APU", "F75303_CPU"]);
}

#[test]
fn entries_come_sorted_by_name() {
    let names = ["b", "a", "C", "ab", "", "é", "a", "Z9", "b"];
    let mut m = TempMap::new();
    let mut reference: BTreeMap<String, i32> = BTreeMap::new();
    for (i, n) in names.iter().enumerate() {
        m.insert(n.to_string(), i as i32);
        reference.insert(n.to_string(), i as i32);
    }
    let got: Vec<(String, i32)> = m.entries().clone();
    let want: Vec<(String, i32)> = reference.into_iter().collect();
    assert_eq!(got, want);
    assert_eq!(m.len(), 7);
}
