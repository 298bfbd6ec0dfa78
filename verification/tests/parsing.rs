use usb_watch::usb::UsbInfo;

fn paths(entries: &[&str]) -> Vec<String> {
    entries.iter().map(|e| e.to_string()).collect()
}

#[test]
fn blank_lines_are_discarded_and_entries_trimmed() {
    let r = UsbInfo::parse_command_output("  MYUSB  \n\nOTHER");
    assert_eq!(r, paths(&["MYUSB", "OTHER"]));
}

#[test]
fn empty_output_parses_to_nothing() {
    let r = UsbInfo::parse_command_output("");
    assert_eq!(r, paths(&[]));
}

#[test]
fn trailing_newline_adds_no_entry() {
    let r = UsbInfo::parse_command_output("MYUSB\n");
    assert_eq!(r, paths(&["MYUSB"]));
}

#[test]
fn crlf_line_endings_are_handled() {
    let r = UsbInfo::parse_command_output("A\r\nB\r\n");
    assert_eq!(r, paths(&["A", "B"]));
    let r = UsbInfo::parse_command_output("\r\n");
    assert_eq!(r, paths(&[]));
}

#[test]
fn whitespace_only_line_survives_as_empty_entry() {
    let r = UsbInfo::parse_command_output("  \nX");
    assert_eq!(r, paths(&["", "X"]));
}

#[test]
fn inner_whitespace_is_kept() {
    let r = UsbInfo::parse_command_output("\tMY USB \n");
    assert_eq!(r, paths(&["MY USB"]));
}

#[test]
fn logical_disk_output_skips_the_header() {
    let r = UsbInfo::parse_logical_disk_output("Name\nC:\nD:\n");
    assert_eq!(r, paths(&["C:", "D:"]));
}

#[test]
fn logical_disk_output_without_newline_is_empty() {
    let r = UsbInfo::parse_logical_disk_output("Name");
    assert_eq!(r, paths(&[]));
}
