use gemini_client::uri::{percent_decode, round_trip, Uri, UriOwned};

#[test]
fn percent() {
    assert_eq!(
        percent_decode(
            "%21%40%23%24%25%2A%28%29With Some Text in the middle%7E%7B%7D%3A%3C%3E%3F_%2B"
        )
        .unwrap(),
        "!@#$%*()With Some Text in the middle~{}:<>?_+"
    );
}

#[test]
fn uri() {
    let test1 = "ftp://ftp.is.co.za/rfc/rfc1808.txt";
    let test2 = "http://www.ietf.org/rfc/rfc2396.txt";
    let test3 = "ldap://[2001:db8::7]/c=GB?objectClass?one";
    let test4 = "mailto:John.Doe@example.com";
    let test5 = "news:comp.infosystems.www.servers.unix";
    let test6 = "tel:+1-816-555-1212";
    let test7 = "telnet://192.0.2.16:80/";
    let test8 = "urn:oasis:names:specification:docbook:dtd:xml:4.1.2";
    let test9 = "https://datatracker.ietf.org/doc/html/rfc3986#section-1.1.2";
    let test10 = "https://www.youtube.com/watch?v=QyjyWUrHsFc";
    let test11 = "https://john.doe@www.example.com:1234/forum/questions/?query#Frag";
    Uri::new(test1).unwrap();
    Uri::new(test2).unwrap();
    Uri::new(test3).unwrap();
    Uri::new(test4).unwrap();
    Uri::new(test5).unwrap();
    Uri::new(test6).unwrap();
    Uri::new(test7).unwrap();
    let uri2 = Uri::new(test8).unwrap();
    assert_eq!(
        uri2.path.as_deref(),
        Some("oasis:names:specification:docbook:dtd:xml:4.1.2")
    );
    Uri::new(test9).unwrap();
    Uri::new(test10).unwrap();
    let uri = Uri::new(test11).unwrap();
    assert_eq!(uri.scheme, Some("https"));
    assert_eq!(uri.userinfo, Some("john.doe"));
    assert_eq!(uri.host, Some("www.example.com"));
    assert_eq!(uri.port, Some("1234"));
    assert_eq!(uri.path, Some("forum/questions/"));
    assert_eq!(uri.query, Some("query"));
    assert_eq!(uri.fragment, Some("Frag"));
}

#[test]
fn uri_owned() {
    let test1 = "https://www.youtube.com/watch?v=QyjyWUrHsFc";
    let test2 = "http://www.ietf.org/rfc/rfc2396.txt";
    let test3 = "ldap://[2001:db8::7]/c=GB?objectClass?one";
    let test4 = "mailto:John.Doe@example.com";
    let test5 = "news:comp.infosystems.www.servers.unix";
    let test6 = "tel:+1-816-555-1212";
    let test7 = "telnet://192.0.2.16:80/";
    let test8 = "urn:oasis:names:specification:docbook:dtd:xml:4.1.2";

    let uri1 = Uri::new(test1).unwrap();
    assert_eq!(UriOwned::from(uri1).to_string(), test1);
    let uri2 = Uri::new(test2).unwrap();
    assert_eq!(UriOwned::from(uri2).to_string(), test2);
    let uri3 = Uri::new(test3).unwrap();
    assert_eq!(UriOwned::from(uri3).to_string(), test3);
    let uri4 = Uri::new(test4).unwrap();
    assert_eq!(UriOwned::from(uri4).to_string(), test4);
    let uri5 = Uri::new(test5).unwrap();
    assert_eq!(UriOwned::from(uri5).to_string(), test5);
    let uri6 = Uri::new(test6).unwrap();
    assert_eq!(UriOwned::from(uri6).to_string(), test6);
    let uri7 = Uri::new(test7).unwrap();
    assert_eq!(UriOwned::from(uri7).to_string(), test7);
    let uri8 = Uri::new(test8).unwrap();
    assert_eq!(UriOwned::from(uri8).to_string(), test8);
}

#[test]
fn uri_scheme_needs_alphabetic_start() {
    let uri = Uri::new("9p://example.org/x").unwrap();
    assert_eq!(uri.scheme, None);
    assert_eq!(uri.host, None);
    assert_eq!(uri.path, Some("9p://example.org/x"));
}

#[test]
fn uri_port_number_defaults_and_bounds() {
    let uri = Uri::new("gemini://example.org/page").unwrap();
    assert_eq!(uri.port, None);
    assert_eq!(uri.port_number(), Some(1965));

    let uri = Uri::new("gemini://example.org:1234/page").unwrap();
    assert_eq!(uri.port_number(), Some(1234));

    let uri = Uri::new("gemini://example.org:/page").unwrap();
    assert_eq!(uri.port, Some(""));
    assert_eq!(uri.port_number(), None);

    let uri = Uri::new("gemini://example.org:99999/page").unwrap();
    assert_eq!(uri.port, Some("99999"));
    assert_eq!(uri.port_number(), None);
}

#[test]
fn uri_borrowed_from_owned_round_trip() {
    let text = "gemini://example.org:1965/docs?x=1#top";
    let owned = UriOwned::from(Uri::new(text).unwrap());
    let view = Uri::from(&owned);
    assert_eq!(view.scheme, Some("gemini"));
    assert_eq!(view.host, Some("example.org"));
    assert_eq!(view.port, Some("1965"));
    assert_eq!(view.path, Some("docs"));
    assert_eq!(view.query, Some("x=1"));
    assert_eq!(view.fragment, Some("top"));
    assert_eq!(view.to_string(), text);
}

#[test]
fn uri_round_trip_checker_accepts_the_example_set() {
    // `round_trip` only hands the reconstruction out when the proof that
    // it equals the input applies, so each Some here is machine-checked
    for t in [
        "ftp://ftp.is.co.za/rfc/rfc1808.txt",
        "http://www.ietf.org/rfc/rfc2396.txt",
        "ldap://[2001:db8::7]/c=GB?objectClass?one",
        "mailto:John.Doe@example.com",
        "news:comp.infosystems.www.servers.unix",
        "tel:+1-816-555-1212",
        "telnet://192.0.2.16:80/",
        "urn:oasis:names:specification:docbook:dtd:xml:4.1.2",
        "https://datatracker.ietf.org/doc/html/rfc3986#section-1.1.2",
        "https://www.youtube.com/watch?v=QyjyWUrHsFc",
        "https://john.doe@www.example.com:1234/forum/questions/?query#Frag",
    ] {
        assert_eq!(round_trip(t).as_deref(), Some(t));
    }
    // the one shape the reconstruction can normalize away is refused
    assert_eq!(round_trip("http://h//x"), None);
}

#[test]
fn uri_collapses_extra_leading_path_slashes() {
    // printing puts exactly one `/` before the path, so extra leading
    // slashes in the path are the one thing a round trip can lose
    let uri = Uri::new("http://h//x").unwrap();
    assert_eq!(uri.path, Some("/x"));
    assert_eq!(UriOwned::from(uri).to_string(), "http://h/x");
}

#[test]
fn uri_fragment_splits_at_the_last_hash() {
    let uri = Uri::new("a#b#c").unwrap();
    assert_eq!(uri.fragment, Some("c"));
    assert_eq!(uri.path, Some("a#b"));
    assert_eq!(UriOwned::from(uri).to_string(), "a#b#c");
}

#[test]
fn percent_full_printable_ascii_escapes() {
    let mut plain = String::new();
    let mut escaped = String::new();
    for b in 32u8..127u8 {
        plain.push(b as char);
        escaped.push_str(&format!("%{:02X}", b));
    }
    assert_eq!(percent_decode(&escaped).unwrap(), plain);
    let mut lower = String::new();
    for b in 32u8..127u8 {
        lower.push_str(&format!("%{:02x}", b));
    }
    assert_eq!(percent_decode(&lower).unwrap(), plain);
}

#[test]
fn percent_edge_cases() {
    assert_eq!(percent_decode("").unwrap(), "");
    assert_eq!(percent_decode("plain text").unwrap(), "plain text");
    // an escape cut short by the end of the input is dropped
    assert_eq!(percent_decode("abc%4").unwrap(), "abc");
    assert_eq!(percent_decode("%").unwrap(), "");
    // a malformed escape fails
    assert!(percent_decode("%zz").is_none());
    assert!(percent_decode("x%1g").is_none());
}
