use device_cache::urls::check_url;

#[test]
fn accepts_common_urls() {
    assert!(check_url("http://192.168.1.5:80/onvif/device_service"));
    assert!(check_url("rtsp://192.168.1.5:554/stream"));
    assert!(check_url("rtsp+play://host/x"));
    assert!(check_url("a://b"));
}

#[test]
fn rejects_empty_and_bare_text() {
    assert!(!check_url(""));
    assert!(!check_url("not-a-url"));
    assert!(!check_url("devices"));
}

#[test]
fn rejects_missing_or_empty_scheme() {
    assert!(!check_url("://host/x"));
    assert!(!check_url("http:/host/x"));
    assert!(!check_url("http//host/x"));
}

#[test]
fn rejects_empty_remainder() {
    assert!(!check_url("http://"));
}

#[test]
fn rejects_separator_characters() {
    assert!(!check_url("http://a b"));
    assert!(!check_url("http://a\nb"));
    assert!(!check_url("http://a\rb"));
}
