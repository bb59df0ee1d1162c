use exchange::uri_serde::UriSerde;

fn err(text: &str) -> Result<(), String> {
    Err(text.to_string())
}

#[test]
fn scheme() {
    assert_eq!(UriSerde::validate_scheme(""), Ok(()));
    assert_eq!(UriSerde::validate_scheme("http"), Ok(()));
    assert_eq!(UriSerde::validate_scheme("svn+ssh-1.0"), Ok(()));
    assert_eq!(
        UriSerde::validate_scheme("1http"),
        err("Scheme must start with letter, found '1'")
    );
    assert_eq!(
        UriSerde::validate_scheme("ht_tp~"),
        err("Invalid character '_' in scheme")
    );
    assert_eq!(
        UriSerde::validate_scheme("é"),
        err("Scheme must start with letter, found 'é'")
    );
}

#[test]
fn port() {
    assert_eq!(UriSerde::validate_port("0"), Ok(()));
    assert_eq!(UriSerde::validate_port("65535"), Ok(()));
    assert_eq!(UriSerde::validate_port("00000000000000000080"), Ok(()));
    assert_eq!(UriSerde::validate_port(""), err("Port cannot be empty"));
    assert_eq!(
        UriSerde::validate_port("80a"),
        err("Invalid character 'a' in port")
    );
    assert_eq!(
        UriSerde::validate_port("+80"),
        err("Invalid character '+' in port")
    );
    assert_eq!(
        UriSerde::validate_port("65536"),
        err("Port must be 0-65535")
    );
    assert_eq!(
        UriSerde::validate_port("4294967295"),
        err("Port must be 0-65535")
    );
    assert_eq!(
        UriSerde::validate_port("4294967296"),
        err("Port number too large")
    );
    assert_eq!(
        UriSerde::validate_port("99999999999999999999999999"),
        err("Port number too large")
    );
}

#[test]
fn every_port_number_passes() {
    for n in 0..=u16::MAX {
        assert_eq!(UriSerde::validate_port(&n.to_string()), Ok(()));
    }
}

#[test]
fn ipv4_addresses() {
    assert!(UriSerde::is_ipv4("127.0.0.1"));
    assert!(UriSerde::is_ipv4("255.255.255.255"));
    assert!(UriSerde::is_ipv4("001.02.3.4"));
    assert!(UriSerde::is_ipv4("+1.+12.3.4"));
    for s in [
        "",
        "1.2.3",
        "1.2.3.4.5",
        "1.2.3.256",
        "1.2.3.0001",
        "1.2.3.",
        "1.2.3.+",
        "1.2.3.-1",
        "1.2.3.++1",
        "1.2.3.+100",
        "1.2.3.a",
        "1.2.3.é",
        "....",
    ] {
        assert!(!UriSerde::is_ipv4(s), "{s}");
    }
}

#[test]
fn ipv4_is_accepted_as_host() {
    for s in ["127.0.0.1", "+1.2.3.4"] {
        assert!(UriSerde::is_ipv4(s));
        assert_eq!(UriSerde::validate_host(s), Ok(()));
        assert!(s.chars().all(UriSerde::is_reg_name_char));
    }
}

#[test]
fn ipv6_addresses() {
    for s in ["::1", "::", "", "2001:db8:0:0:0:0:0:1", "fe80::ABCD", "1::2::3"] {
        assert_eq!(UriSerde::validate_ipv6(s), Ok(()), "{s}");
    }
    assert_eq!(
        UriSerde::validate_ipv6("1:2:3:4:5:6:7:8:9"),
        err("IPv6 address has too many parts")
    );
    assert_eq!(
        UriSerde::validate_ipv6("::12345"),
        err("IPv6 part '12345' too long")
    );
    assert_eq!(
        UriSerde::validate_ipv6("::12g4"),
        err("Invalid hex digit 'g' in IPv6")
    );
    assert_eq!(UriSerde::validate_ipv6(":"), err("Invalid IPv6 format"));
}

#[test]
fn ipv6_parts_are_measured_in_bytes() {
    assert_eq!(
        UriSerde::validate_ipv6("éé"),
        err("Invalid hex digit 'é' in IPv6")
    );
    assert_eq!(
        UriSerde::validate_ipv6("ééé"),
        err("IPv6 part 'ééé' too long")
    );
}

#[test]
fn ipv6_complaints_come_in_order() {
    assert_eq!(
        UriSerde::validate_ipv6("g:12345"),
        err("Invalid hex digit 'g' in IPv6")
    );
    assert_eq!(
        UriSerde::validate_ipv6("12345:g"),
        err("IPv6 part '12345' too long")
    );
}

#[test]
fn hosts() {
    assert_eq!(UriSerde::validate_host("users-service"), Ok(()));
    assert_eq!(UriSerde::validate_host("a%20b"), Ok(()));
    assert_eq!(UriSerde::validate_host("[::1]"), Ok(()));
    assert_eq!(UriSerde::validate_host("[]"), Ok(()));
    assert_eq!(UriSerde::validate_host(""), err("Host cannot be empty"));
    assert_eq!(
        UriSerde::validate_host("a b"),
        err("Invalid character ' ' in host")
    );
    assert_eq!(
        UriSerde::validate_host("[::1"),
        err("Invalid character '[' in host")
    );
    assert_eq!(
        UriSerde::validate_host("[:]"),
        err("Invalid IPv6 format")
    );
}

#[test]
fn host_and_port() {
    assert_eq!(UriSerde::parse_host_port("h"), Ok(("h", None)));
    assert_eq!(UriSerde::parse_host_port("h:80"), Ok(("h", Some("80"))));
    assert_eq!(UriSerde::parse_host_port("a:b:c"), Ok(("a:b", Some("c"))));
    assert_eq!(UriSerde::parse_host_port(""), Ok(("", None)));
    assert_eq!(UriSerde::parse_host_port("h:"), Ok(("h", Some(""))));
    assert_eq!(UriSerde::parse_host_port("[::1]"), Ok(("[::1]", None)));
    assert_eq!(
        UriSerde::parse_host_port("[::1]:80"),
        Ok(("[::1]", Some("80")))
    );
    assert_eq!(
        UriSerde::parse_host_port("[::1]x"),
        Err("Expected ':' after IPv6 address".to_string())
    );
    assert_eq!(
        UriSerde::parse_host_port("[::1]é"),
        Err("Expected ':' after IPv6 address".to_string())
    );
    assert_eq!(
        UriSerde::parse_host_port("[::1"),
        Err("Unclosed '[' in IPv6 address".to_string())
    );
}

#[test]
fn authorities() {
    for s in ["", "h", "u:p@h:1", "a%40b@[::1]:443", "@h"] {
        assert_eq!(UriSerde::validate_authority(s), Ok(()), "{s}");
    }
    assert_eq!(
        UriSerde::validate_authority("u[@h"),
        err("Invalid character '[' in userinfo")
    );
    assert_eq!(
        UriSerde::validate_authority("a@b@h"),
        err("Invalid character '@' in userinfo")
    );
    assert_eq!(
        UriSerde::validate_authority("u@"),
        err("Host cannot be empty")
    );
    assert_eq!(
        UriSerde::validate_authority("h:"),
        err("Port cannot be empty")
    );
    assert_eq!(
        UriSerde::validate_authority("a:b:c"),
        err("Invalid character ':' in host")
    );
}

#[test]
fn paths_queries_and_fragments() {
    assert_eq!(UriSerde::validate_path("/a/b;c=1@:%20"), Ok(()));
    assert_eq!(
        UriSerde::validate_path("/a b?"),
        err("Invalid character ' ' in path")
    );
    assert_eq!(
        UriSerde::validate_query_or_fragment("a=b&c?/", "query"),
        Ok(())
    );
    assert_eq!(
        UriSerde::validate_query_or_fragment("a#b", "fragment"),
        err("Invalid character '#' in fragment")
    );
    assert_eq!(UriSerde::validate_userinfo("user:pass"), Ok(()));
    assert_eq!(
        UriSerde::validate_userinfo("us/er"),
        err("Invalid character '/' in userinfo")
    );
}

#[test]
fn uris() {
    for s in [
        "/api/users",
        "/",
        "*",
        "http://users-service:3000",
        "https://u:p@example.org:8443/a/b?c=d#e",
        "//host/path",
        "mailto:someone@example.org",
        ":",
        ":/a",
        "?q",
        "#f",
        "http://",
        "http://[::1]:80/?#",
    ] {
        assert_eq!(UriSerde::validate(s), Ok(()), "{s}");
    }
}

#[test]
fn complaints_about_uris() {
    let cases = [
        ("", "URI cannot be empty"),
        ("1http://h", "Scheme must start with letter, found '1'"),
        ("/a:b", "Scheme must start with letter, found '/'"),
        ("ht tp://h", "Invalid character ' ' in scheme"),
        ("http://h:99999", "Port must be 0-65535"),
        ("http://h^", "Invalid character '^' in host"),
        ("http://h/a b", "Invalid character ' ' in path"),
        ("http://h/a?b c", "Invalid character ' ' in query"),
        ("http://h/a?b#c d", "Invalid character ' ' in fragment"),
        ("/a#b c", "Invalid character ' ' in fragment"),
        ("/a#b#c", "Invalid character '#' in fragment"),
        ("/é", "Invalid character 'é' in path"),
        ("http://[::1/x", "Unclosed '[' in IPv6 address"),
        // The first component that is wrong is complained about.
        ("1http://h^/ ?^#^", "Scheme must start with letter, found '1'"),
        ("http://h^/ ?^#^", "Invalid character '^' in host"),
        ("http://h/ ?^#^", "Invalid character ' ' in path"),
        ("http://h/?^# ", "Invalid character '^' in query"),
    ];
    for (uri, complaint) in cases {
        assert_eq!(UriSerde::validate(uri), err(complaint), "{uri}");
    }
}

#[test]
fn checked_text_is_kept() {
    let text = "http://users-service:3000/a?b#c";
    let uri = UriSerde::new(text).unwrap();
    assert_eq!(uri.as_str(), text);
    assert_eq!(uri.as_ref(), text);
    assert!(uri.valid());
    assert_eq!(uri.clone().as_str(), text);
    assert_eq!(uri.into_string(), text);
    assert_eq!(
        UriSerde::new("").map(UriSerde::into_string),
        Err("URI cannot be empty".to_string())
    );
}

#[test]
fn valid_uris_are_ascii() {
    for s in ["/a", "http://h/x?y#z", "/ä", "http://ä", "http://[ä]"] {
        if let Ok(uri) = UriSerde::new(s) {
            assert!(uri.as_str().is_ascii());
        }
    }
    assert!(UriSerde::new("http://[ä]").is_err());
}
