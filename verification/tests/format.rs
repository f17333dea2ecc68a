use device_cache::device::Device;
use device_cache::errors::CacheError;
use device_cache::reader::parse_devices;
use device_cache::writer::serialize_devices;

fn device(rtsp: Option<&str>, onvif: &str) -> Device {
    Device {
        url_rtsp: rtsp.map(|u| u.to_string()),
        url_onvif: onvif.to_string(),
    }
}

#[test]
fn round_trip_two_records() {
    let devices = vec![
        device(Some("rtsp://192.168.1.5:554/stream"), "http://192.168.1.5:80/onvif/device_service"),
        device(None, "http://192.168.1.6:80/onvif/device_service"),
    ];
    let text = serialize_devices(&devices).unwrap();
    let loaded = parse_devices(&text).unwrap();
    assert_eq!(loaded, devices);
}

#[test]
fn round_trip_single_record() {
    let devices = vec![device(Some("rtsp://10.0.0.9/live"), "http://10.0.0.9/onvif")];
    let text = serialize_devices(&devices).unwrap();
    let loaded = parse_devices(&text).unwrap();
    assert_eq!(loaded, devices);
}

#[test]
fn save_empty_fails_with_empty_input() {
    let devices: Vec<Device> = vec![];
    assert_eq!(serialize_devices(&devices), Err(CacheError::EmptyInput));
}

#[test]
fn save_two_records_gives_two_lines_in_order() {
    let devices = vec![
        device(Some("rtsp://10.0.0.1/live"), "http://10.0.0.1/onvif"),
        device(None, "http://10.0.0.2/onvif"),
    ];
    let text = serialize_devices(&devices).unwrap();
    assert_eq!(
        text,
        "IP: rtsp://10.0.0.1/live ONVIF: http://10.0.0.1/onvif\nIP:  ONVIF: http://10.0.0.2/onvif\n"
    );
}

#[test]
fn load_empty_text_fails_with_empty_file() {
    assert_eq!(parse_devices(""), Err(CacheError::EmptyFile));
}

#[test]
fn load_text_without_marker_fails_with_no_devices_found() {
    assert_eq!(
        parse_devices("hello world\nnothing of note here\n"),
        Err(CacheError::NoDevicesFound)
    );
}

#[test]
fn marker_check_is_case_sensitive() {
    assert_eq!(
        parse_devices("ip:  onvif: http://10.0.0.1/onvif\n"),
        Err(CacheError::NoDevicesFound)
    );
}

#[test]
fn marker_inside_other_text_reaches_the_parser() {
    // the marker check is structural only: `IP` inside a word passes it,
    // and the line then fails as malformed
    assert_eq!(parse_devices("WIP notes\n"), Err(CacheError::MalformedRecord));
}

#[test]
fn load_record_without_streaming_url() {
    let loaded = parse_devices("IP:  ONVIF: http://10.0.0.1/onvif\n").unwrap();
    assert_eq!(loaded, vec![device(None, "http://10.0.0.1/onvif")]);
}

#[test]
fn load_record_with_streaming_url() {
    let loaded = parse_devices("IP: rtsp://10.0.0.1/live ONVIF: http://10.0.0.1/onvif\n").unwrap();
    assert_eq!(
        loaded,
        vec![device(Some("rtsp://10.0.0.1/live"), "http://10.0.0.1/onvif")]
    );
}

#[test]
fn load_final_line_without_newline_still_parses() {
    let loaded = parse_devices("IP:  ONVIF: http://10.0.0.1/onvif").unwrap();
    assert_eq!(loaded, vec![device(None, "http://10.0.0.1/onvif")]);
}

#[test]
fn load_bad_management_url_fails_with_malformed_record() {
    assert_eq!(
        parse_devices("IP:  ONVIF: not-a-url\n"),
        Err(CacheError::MalformedRecord)
    );
}

#[test]
fn load_bad_streaming_url_fails_with_malformed_record() {
    assert_eq!(
        parse_devices("IP: broken ONVIF: http://10.0.0.1/onvif\n"),
        Err(CacheError::MalformedRecord)
    );
}

#[test]
fn load_short_line_fails_with_malformed_record() {
    assert_eq!(
        parse_devices("IP: http://10.0.0.1/onvif\n"),
        Err(CacheError::MalformedRecord)
    );
}

#[test]
fn load_one_bad_line_spoils_the_whole_load() {
    let text = "IP:  ONVIF: http://10.0.0.1/onvif\nIP:  ONVIF: bad\n";
    assert_eq!(parse_devices(text), Err(CacheError::MalformedRecord));
}
