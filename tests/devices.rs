use audio_sidecar::devices::{contains_text, last_matching, select_device};

fn owned(list: &[&str]) -> Vec<String> {
    list.iter().map(|s| s.to_string()).collect()
}

#[test]
fn text_search() {
    assert!(contains_text("scarlett 2i2 usb", "2i2"));
    assert!(contains_text("abc", ""));
    assert!(contains_text("abc", "abc"));
    assert!(!contains_text("abc", "abcd"));
    assert!(!contains_text("aab", "abb"));
    assert!(contains_text("aaab", "aab"));
}

#[test]
fn device_names_are_matched_in_lower_case() {
    let names = owned(&["Built-in Audio", "Scarlett 2i2 USB", "HDMI"]);
    assert_eq!(select_device(&names, "scarlett"), Some(1));
    assert_eq!(select_device(&names, "Scarlett"), None);
    assert_eq!(select_device(&names, "usb"), Some(1));
    assert_eq!(select_device(&names, "webcam"), None);
}

#[test]
fn the_last_matching_device_wins() {
    let names = owned(&["USB Mic A", "Speakers", "USB Mic B"]);
    assert_eq!(select_device(&names, "usb mic"), Some(2));
    assert_eq!(select_device(&names, ""), Some(2));
    assert_eq!(select_device(&Vec::new(), ""), None);
    assert_eq!(last_matching(&owned(&["x", "abc", "y"]), "b"), Some(1));
}
