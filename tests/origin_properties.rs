use cerberus::{Origin, OriginParseError};

fn origin(s: &str) -> Origin<'_> {
    Origin::try_from(s).unwrap()
}

#[test]
fn round_trip_canonical_form() {
    for s in [
        "https://app.example.com:8080",
        "http://a.b.c:1",
        "custom-schema://x.y:65535",
        "ws://host:0",
    ] {
        assert_eq!(origin(s).to_string(), s);
    }
}

#[test]
fn round_trip_drops_trailing_path() {
    assert_eq!(
        origin("https://app.example.com:8080/path?query#frag").to_string(),
        "https://app.example.com:8080"
    );
    assert_eq!(origin("https://app.example.com/").to_string(), "https://app.example.com");
    assert_eq!(origin("a.b:12/").to_string(), "a.b:12");
}

#[test]
fn port_written_without_leading_zeros() {
    let o = origin("http://host:00080");
    assert_eq!(o.port(), Some(80));
    assert_eq!(o.to_string(), "http://host:80");
}

#[test]
fn wildcard_matches_any_middle_segment() {
    let pattern = origin("http://a.*.domain.name:123");
    for middle in ["b", "xyz", "", "*", "0", "long-segment"] {
        let text = format!("http://a.{middle}.domain.name:123");
        assert!(pattern.matches(&origin(&text)), "{text}");
    }
    assert!(!pattern.matches(&origin("http://b.x.domain.name:123")));
    assert!(!pattern.matches(&origin("http://a.x.domain.other:123")));
}

#[test]
fn wildcard_only_on_pattern_side() {
    let pattern = origin("a.b.domain.name");
    assert!(!pattern.matches(&origin("a.*.domain.name")));
}

#[test]
fn scheme_leniency() {
    let bare = origin("a.b.domain.name:123");
    let http = origin("http://a.b.domain.name:123");
    let https = origin("https://a.b.domain.name:123");
    assert!(bare.matches(&http));
    assert!(http.matches(&bare));
    assert!(!http.matches(&https));
    assert!(!https.matches(&http));
}

#[test]
fn port_leniency() {
    let no_port = origin("http://a.b");
    let port_1 = origin("http://a.b:1");
    let port_2 = origin("http://a.b:2");
    assert!(no_port.matches(&port_1));
    assert!(port_1.matches(&no_port));
    assert!(port_1.matches(&port_1));
    assert!(!port_1.matches(&port_2));
    assert!(!port_2.matches(&port_1));
}

#[test]
fn segment_count_must_agree() {
    assert!(!origin("a.b.c").matches(&origin("a.b")));
    assert!(!origin("a.b").matches(&origin("a.b.c")));
    assert!(!origin("*.*.*").matches(&origin("a.b")));
    assert!(!origin("*.*").matches(&origin("a.b.c")));
    assert!(!origin("*.*.*").matches_rev(&origin("a.b")));
}

#[test]
fn reverse_matching() {
    let o1 = origin("a.b.domain.name");
    let o2 = origin("name.domain.b.a");
    assert!(o1.matches_rev(&o2));
    assert!(!o1.matches(&o2));
    assert!(origin("com.*.app").matches_rev(&origin("app.example.com")));
    assert!(!origin("com.example.app").matches_rev(&origin("com.example.app")));
}

#[test]
fn parse_errors() {
    assert_eq!(Origin::try_from(""), Err(OriginParseError::InvalidFormat));
    assert_eq!(Origin::try_from(":123"), Err(OriginParseError::InvalidFormat));
    assert_eq!(Origin::try_from("/path"), Err(OriginParseError::InvalidFormat));
    assert_eq!(Origin::try_from("h:65536"), Err(OriginParseError::InvalidPortNumber));
    assert_eq!(
        Origin::try_from("h:123456789012345678901234567890"),
        Err(OriginParseError::InvalidPortNumber)
    );
}

#[test]
fn parse_edges() {
    assert_eq!(origin("h:65535").port(), Some(65535));
    assert_eq!(origin("h:0").port(), Some(0));

    let o = origin("h:abc");
    assert_eq!(o.hostname(), "h");
    assert_eq!(o.port(), None);

    let o = origin("h:");
    assert_eq!(o.hostname(), "h");
    assert_eq!(o.port(), None);

    // No hostname after `://`: the scheme is read as the hostname.
    let o = origin("http://");
    assert_eq!(o.scheme(), None);
    assert_eq!(o.hostname(), "http");

    let o = origin("a..b");
    assert_eq!(o.hostname_parts().to_vec(), vec!["a", "", "b"]);

    let o = origin("http://bücher.de:1");
    assert_eq!(o.scheme(), Some("http"));
    assert_eq!(o.hostname_parts().to_vec(), vec!["bücher", "de"]);
    assert_eq!(o.port(), Some(1));

    let o = origin("localhost");
    assert_eq!(o.hostname(), "localhost");
    assert_eq!(o.hostname_parts().to_vec(), vec!["localhost"]);
}
