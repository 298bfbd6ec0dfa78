use usb_watch::usb::UsbInfo;

fn paths(entries: &[&str]) -> Vec<String> {
    entries.iter().map(|e| e.to_string()).collect()
}

#[test]
fn baseline_keeps_each_path_once() {
    let tracker = UsbInfo::new(paths(&["A", "A", "B", "A"]));
    assert_eq!(tracker.baseline, paths(&["A", "B"]));
}

#[test]
fn poll_without_change_reports_none() {
    let mut tracker = UsbInfo::new(paths(&["A", "B"]));
    let r = tracker.detect_new_device_path(&paths(&["B", "A"]));
    assert_eq!(r, Ok(None));
}

#[test]
fn poll_of_empty_sets_reports_none() {
    let mut tracker = UsbInfo::new(Vec::new());
    let r = tracker.detect_new_device_path(&Vec::new());
    assert_eq!(r, Ok(None));
}

#[test]
fn poll_with_one_new_volume_names_it() {
    let mut tracker = UsbInfo::new(paths(&["A", "B"]));
    let r = tracker.detect_new_device_path(&paths(&["A", "B", "C"]));
    assert_eq!(r, Ok(Some("C".to_string())));
}

#[test]
fn poll_with_two_new_volumes_is_refused() {
    let mut tracker = UsbInfo::new(paths(&["A"]));
    let r = tracker.detect_new_device_path(&paths(&["A", "B", "C"]));
    assert_eq!(r, Err("More than one target USB device found".to_string()));
}

#[test]
fn baseline_stays_frozen_across_polls() {
    let mut tracker = UsbInfo::new(paths(&["A", "B"]));
    let current = paths(&["A", "B", "C"]);
    let first = tracker.detect_new_device_path(&current);
    assert_eq!(first, Ok(Some("C".to_string())));
    let second = tracker.detect_new_device_path(&current);
    assert_eq!(second, Ok(Some("C".to_string())));
    assert_eq!(tracker.baseline, paths(&["A", "B"]));
}

#[test]
fn duplicate_current_entries_count_as_one_volume() {
    let mut tracker = UsbInfo::new(paths(&["A"]));
    let r = tracker.detect_new_device_path(&paths(&["A", "B", "B"]));
    assert_eq!(r, Ok(Some("B".to_string())));
}

#[test]
fn disappeared_volumes_are_not_reported() {
    let mut tracker = UsbInfo::new(paths(&["A", "B"]));
    let r = tracker.detect_new_device_path(&paths(&["A"]));
    assert_eq!(r, Ok(None));
}
