use karaoke_queue::cast::{
    cast_title, device_names, find_device, parse_device_line, parse_discovery_output, select_device, watch_url, CastConnections, CastError, CastStatus,
    ChromecastDevice,
};
use karaoke_queue::youtube::VideoInfo;

fn device(name: &str, host: &str) -> ChromecastDevice {
    ChromecastDevice { name: name.to_string(), host: host.to_string(), port: 8009 }
}

#[test]
fn default_status_is_empty() {
    let s = CastStatus::default();
    assert!(s.current_video.is_none());
    assert!(s.cast_device.is_none());
    assert!(!s.is_playing);
}

#[test]
fn named_device_is_used() {
    let r = select_device(Some("TV".to_string()), &vec!["Other".to_string()]);
    assert_eq!(r, Ok("TV".to_string()));
}

#[test]
fn first_found_device_is_used() {
    let r = select_device(None, &vec!["A".to_string(), "B".to_string()]);
    assert_eq!(r, Ok("A".to_string()));
    assert_eq!(select_device(None, &vec![]), Err(CastError::NoDevicesAvailable));
}

#[test]
fn names_and_lookup_of_found_devices() {
    let found = vec![device("TV", "10.0.0.2"), device("Kitchen", "10.0.0.3")];
    assert_eq!(device_names(&found), vec!["TV".to_string(), "Kitchen".to_string()]);
    assert_eq!(find_device(&found, "Kitchen").map(|d| d.host.clone()), Some("10.0.0.3".to_string()));
    assert!(find_device(&found, "Garage").is_none());
}

#[test]
fn connections_are_kept_by_name() {
    let mut pool = CastConnections::new();
    assert!(pool.first_device().is_none());
    assert!(pool.remember(device("TV", "10.0.0.2")));
    assert!(!pool.remember(device("TV", "10.0.0.9")));
    assert!(pool.remember(device("Kitchen", "10.0.0.3")));
    assert_eq!(pool.lookup("TV"), Some(("10.0.0.2".to_string(), 8009)));
    assert_eq!(pool.lookup("Garage"), None);
    assert_eq!(pool.first_device(), Some("TV".to_string()));
}

#[test]
fn receiver_content() {
    assert_eq!(watch_url("abc"), "https://www.youtube.com/watch?v=abc");
    let titled = VideoInfo { id: "abc".to_string(), title: Some("Song".to_string()), url: "u".to_string() };
    let untitled = VideoInfo { id: "abc".to_string(), title: None, url: "u".to_string() };
    assert_eq!(cast_title(&titled), "Song");
    assert_eq!(cast_title(&untitled), "YouTube Video");
}

#[test]
fn discovery_listing_is_parsed() {
    let output = "Timestamp A/R Flags if Hostname Address TTL\n\
                  LivingRoom _googlecast._tcp. local. 4 tv-1.local. 10.0.0.5\n\
                  garbage line\n\
                  Short _googlecast._tcp.local.\n\
                  Kitchen _googlecast._tcp.local. x y kitchen.local. z\n";
    let devices = parse_discovery_output(output);
    assert_eq!(devices.len(), 1);
    assert_eq!(devices[0].name, "Kitchen");
    assert_eq!(devices[0].host, "kitchen.local");
    assert_eq!(devices[0].port, 8009);
    assert!(parse_device_line("Short _googlecast._tcp.local.").is_none());
    let d = parse_device_line("TV _googlecast._tcp.local. a b host.. c").unwrap();
    assert_eq!(d.host, "host");
}
