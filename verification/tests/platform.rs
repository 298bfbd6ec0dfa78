use usb_watch::usb::{ListingPlan, UsbInfo};

fn paths(entries: &[&str]) -> Vec<String> {
    entries.iter().map(|e| e.to_string()).collect()
}

#[test]
fn windows_plan_is_logical_disks() {
    let r = UsbInfo::enumeration_plan("windows", None);
    assert_eq!(r, Ok(ListingPlan::LogicalDisks));
}

#[test]
fn linux_plan_lists_media_with_mnt_fallback() {
    let user = "alice".to_string();
    let r = UsbInfo::enumeration_plan("linux", Some(&user));
    assert_eq!(
        r,
        Ok(ListingPlan::MediaWithFallback {
            primary: "/media/alice".to_string(),
            fallback: "/mnt".to_string(),
        })
    );
}

#[test]
fn linux_plan_without_user_is_empty() {
    let r = UsbInfo::enumeration_plan("linux", None);
    assert_eq!(r, Ok(ListingPlan::NoUserContext));
}

#[test]
fn macos_plan_lists_volumes() {
    let r = UsbInfo::enumeration_plan("macos", None);
    assert_eq!(r, Ok(ListingPlan::Volumes { path: "/Volumes".to_string() }));
}

#[test]
fn unknown_platform_is_refused() {
    let r = UsbInfo::enumeration_plan("plan9", None);
    assert_eq!(r, Err("Unsupported operating system".to_string()));
}

#[test]
fn fallback_is_used_only_when_primary_listing_failed() {
    let primary = "D\n".to_string();
    let fallback = "E\n".to_string();
    let r = UsbInfo::resolve_media_listing(Some(&primary), Some(&fallback));
    assert_eq!(r, paths(&["D"]));
    let r = UsbInfo::resolve_media_listing(None, Some(&fallback));
    assert_eq!(r, paths(&["E"]));
    let r = UsbInfo::resolve_media_listing(None, None);
    assert_eq!(r, paths(&[]));
}

#[test]
fn file_path_prefix_by_platform() {
    let user = "alice".to_string();
    assert_eq!(UsbInfo::obtain_file_path_prefix("windows", None), Ok("".to_string()));
    assert_eq!(
        UsbInfo::obtain_file_path_prefix("linux", Some(&user)),
        Ok("/media/alice/".to_string())
    );
    assert_eq!(
        UsbInfo::obtain_file_path_prefix("linux", None),
        Err("Error detecting user".to_string())
    );
    assert_eq!(UsbInfo::obtain_file_path_prefix("macos", None), Ok("/Volumes/".to_string()));
    assert_eq!(
        UsbInfo::obtain_file_path_prefix("plan9", None),
        Err("Unsupported operating system".to_string())
    );
}

#[test]
fn payload_path_joins_prefix_volume_and_file_name() {
    let r = UsbInfo::payload_file_path("/media/alice/", "MYUSB");
    assert_eq!(r, "/media/alice/MYUSB/hello_world".to_string());
    let r = UsbInfo::payload_file_path("", "E:");
    assert_eq!(r, "E:/hello_world".to_string());
}
