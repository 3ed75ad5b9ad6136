use voice_dictate::health::authority;

#[test]
fn reads_host_and_port_from_a_base_url() {
    assert_eq!(
        authority("http://127.0.0.1:8080/v1").as_deref(),
        Some("127.0.0.1:8080")
    );
    assert_eq!(
        authority("https://example.com/v1").as_deref(),
        Some("example.com:443")
    );
    assert_eq!(
        authority("http://example.com").as_deref(),
        Some("example.com:80")
    );
    assert_eq!(authority("127.0.0.1:8080"), None);
}

#[test]
fn authority_edges() {
    // No host.
    assert_eq!(authority("http:///v1"), None);
    // A port too large to be one gets the default added.
    assert_eq!(authority("http://h:70000/").as_deref(), Some("h:70000:80"));
    // The scheme is matched in any case.
    assert_eq!(authority("HTTPS://h/").as_deref(), Some("h:443"));
    // A leading plus sign still reads as a port, as `u16::from_str` accepts it.
    assert_eq!(authority("http://h:+81").as_deref(), Some("h:+81"));
    assert_eq!(authority("http://h:").as_deref(), Some("h::80"));
}
