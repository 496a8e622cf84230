use porta::proxy::{
    authorised, connect_target, credentialed, host_matches, policy_allows, requested_policy, split_authority, tunnel_reply,
    wt_is_host_allowed, wt_proxy_start, wt_proxy_stop, Proxies, ProxyMode, ProxyPolicy,
};
use porta::proxy_audit::{audit_record, decision, report_line};
use porta::proxy_egress::{basic_credential, blocked_address, encode_base64, reachable_address, Dial, IpAddress};

fn policy(mode: ProxyMode, patterns: &[&str]) -> ProxyPolicy {
    ProxyPolicy {
        mode,
        patterns: patterns.iter().map(|p| p.to_string()).collect(),
        credential: "Basic abc".to_string(),
    }
}

#[test]
fn a_wildcard_matches_its_domain_and_subdomains_only() {
    assert!(host_matches("example.com", "example.com"));
    assert!(host_matches("api.example.com", "*.example.com"));
    assert!(host_matches("a.b.example.com", "*.example.com"));
    assert!(host_matches("example.com", "*.example.com"));
    assert!(!host_matches("evilexample.com", "*.example.com"));
    assert!(!host_matches("example.org", "*.example.com"));
}

#[test]
fn case_and_one_trailing_dot_do_not_count() {
    assert!(host_matches("EXAMPLE.com.", "example.COM"));
    assert!(host_matches("evil.com.", "evil.com"));
    assert!(host_matches("Api.Example.Com", "*.example.com."));
    assert!(!host_matches("evil.com..", "evil.com"));
}

#[test]
fn allow_and_deny_lists_are_opposites() {
    let allow = policy(ProxyMode::Allow, &["*.example.com"]);
    let deny = policy(ProxyMode::Deny, &["*.example.com"]);
    assert!(policy_allows(&allow, "x.example.com"));
    assert!(!policy_allows(&allow, "other.com"));
    assert!(!policy_allows(&deny, "x.example.com"));
    assert!(policy_allows(&deny, "other.com"));
}

#[test]
fn exactly_one_list_makes_a_policy() {
    let p = requested_policy(r#"["a.com"]"#, "").unwrap();
    assert_eq!(p.mode, ProxyMode::Allow);
    assert_eq!(p.patterns, vec!["a.com".to_string()]);
    assert_eq!(p.credential, "");
    let d = requested_policy("not json", r#"["b.com"]"#).unwrap();
    assert_eq!(d.mode, ProxyMode::Deny);
    assert_eq!(requested_policy("[]", "[]").err().unwrap(), "neither allow nor deny list provided");
    assert_eq!(requested_policy(r#"["a"]"#, r#"["b"]"#).err().unwrap(), "allow and deny are mutually exclusive");
}

#[test]
fn only_this_runs_client_is_served() {
    assert!(!authorised(&[], "Basic abc"));
    assert!(authorised(&["proxy-AUTHORIZATION:   Basic abc  ".to_string()], "Basic abc"));
    assert!(!authorised(&["Proxy-Authorization: Basic abd".to_string()], "Basic abc"));
    assert!(!authorised(&["Authorization: Basic abc".to_string()], "Basic abc"));
}

#[test]
fn every_refusal_has_its_status_and_record() {
    let p = policy(ProxyMode::Allow, &["example.com"]);
    let creds = vec!["Proxy-Authorization: Basic abc".to_string()];
    let bad = connect_target("GET / HTTP/1.1", &creds, &p).err().unwrap();
    assert_eq!(bad.status, "HTTP/1.1 400 Bad Request\r\n\r\n");
    assert_eq!((bad.decision.host.as_str(), bad.decision.port), ("<invalid>", 0));
    assert_eq!(bad.decision.reason, "non-CONNECT method");
    let anonymous = connect_target("CONNECT example.com:443 HTTP/1.1", &[], &p).err().unwrap();
    assert!(anonymous.status.starts_with("HTTP/1.1 407 Proxy Authentication Required\r\n"));
    assert_eq!(anonymous.decision.reason, "not this run's client: no proxy credential");
    assert_eq!(anonymous.decision.host, "example.com");
    let port = connect_target("CONNECT example.com:80 HTTP/1.1", &creds, &p).err().unwrap();
    assert_eq!(port.status, "HTTP/1.1 403 Forbidden\r\n\r\n");
    assert_eq!((port.decision.port, port.decision.reason.as_str()), (80, "non-443 port"));
    let other = connect_target("CONNECT other.com:443 HTTP/1.1", &creds, &p).err().unwrap();
    assert_eq!((other.decision.verdict.as_str(), other.decision.reason.as_str()), ("deny", "policy"));
    assert_eq!(connect_target("  connect example.com:443 HTTP/1.1\r\n", &creds, &p).ok().unwrap(), ("example.com".to_string(), 443));
}

#[test]
fn an_authority_splits_at_its_last_colon() {
    assert_eq!(split_authority("host:8080"), ("host".to_string(), 8080));
    assert_eq!(split_authority("host"), ("host".to_string(), 443));
    assert_eq!(split_authority("h:x"), ("h".to_string(), 0));
    assert_eq!(split_authority("[::1]:443"), ("[::1]".to_string(), 443));
}

#[test]
fn proxies_are_registered_and_stopped_by_handle() {
    let mut proxies: Proxies<u8> = Proxies::new();
    assert_eq!(wt_proxy_start(&mut proxies, Ok((7, 4000, "tok".to_string()))), r#"{"handle":0,"port":4000,"token":"tok"}"#);
    assert_eq!(wt_proxy_start(&mut proxies, Ok((8, 4001, "t2".to_string()))), r#"{"handle":1,"port":4001,"token":"t2"}"#);
    assert_eq!(wt_proxy_start(&mut proxies, Err("bind failed: busy".to_string())), r#"{"error":"bind failed: busy"}"#);
    assert_eq!(wt_proxy_stop(&mut proxies, 0), (0, Some(7)));
    assert_eq!(wt_proxy_stop(&mut proxies, 0), (0, None));
    assert_eq!(wt_proxy_stop(&mut proxies, 5), (-1, None));
    assert_eq!(wt_proxy_stop(&mut proxies, -1), (-1, None));
    assert_eq!(wt_proxy_start(&mut proxies, Ok((9, 4002, "t3".to_string()))), r#"{"handle":2,"port":4002,"token":"t3"}"#);
    assert_eq!(wt_proxy_start(&mut proxies, Err("policy \"x\"".to_string())), r#"{"error":"policy \"x\""}"#);
    assert_eq!(wt_proxy_stop(&mut proxies, i64::MIN), (-1, None));
}

#[test]
fn a_direct_request_needs_a_matching_host_and_port() {
    assert!(wt_is_host_allowed("https://api.example.com/v1", r#"["api.example.com:443"]"#));
    assert!(wt_is_host_allowed("https://API.example.com/v1", r#"["api.example.com:443"]"#));
    assert!(wt_is_host_allowed("http://x.com/", r#"["x.com:*"]"#));
    assert!(wt_is_host_allowed("http://x.com:8080/", r#"["*:8080"]"#));
    assert!(!wt_is_host_allowed("http://x.com/", r#"["x.com:443"]"#));
    assert!(!wt_is_host_allowed("https://user@x.com/", r#"["x.com:443"]"#));
    assert!(!wt_is_host_allowed("ftp://x.com/", r#"["*:*"]"#));
    assert!(!wt_is_host_allowed("https://x.com/", "not json"));
    assert!(!wt_is_host_allowed("not a url", r#"["*:*"]"#));
}

#[test]
fn a_tunnel_answers_by_how_the_dial_went() {
    let (status, d) = tunnel_reply("h", 443, &Ok(()));
    assert_eq!(status, "HTTP/1.1 200 Connection Established\r\n\r\n");
    assert_eq!((d.verdict.as_str(), d.reason.as_str()), ("allow", "policy match"));
    let (status, d) = tunnel_reply("h", 443, &Err(Dial::Blocked("r".to_string())));
    assert_eq!((status, d.verdict.as_str(), d.reason.as_str()), ("HTTP/1.1 403 Forbidden\r\n\r\n", "deny", "r"));
    let (status, d) = tunnel_reply("h", 443, &Err(Dial::Failed("down".to_string())));
    assert_eq!((status, d.verdict.as_str(), d.reason.as_str()), ("HTTP/1.1 502 Bad Gateway\r\n\r\n", "error", "down"));
}

#[test]
fn base64_follows_the_standard_vectors() {
    assert_eq!(encode_base64(b""), "");
    assert_eq!(encode_base64(b"f"), "Zg==");
    assert_eq!(encode_base64(b"fo"), "Zm8=");
    assert_eq!(encode_base64(b"foo"), "Zm9v");
    assert_eq!(encode_base64(b"foob"), "Zm9vYg==");
    assert_eq!(encode_base64(b"fooba"), "Zm9vYmE=");
    assert_eq!(encode_base64(b"foobar"), "Zm9vYmFy");
    assert_eq!(encode_base64(&[0xff, 0xfe]), "//4=");
}

#[test]
fn the_credential_is_basic_porta_and_the_token() {
    assert_eq!(basic_credential("abc"), "Basic cG9ydGE6YWJj");
    let p = credentialed(policy(ProxyMode::Allow, &["a"]), "abc");
    assert_eq!(p.credential, "Basic cG9ydGE6YWJj");
    assert_eq!(p.patterns, vec!["a".to_string()]);
}

#[test]
fn local_link_metadata_and_multicast_addresses_are_blocked() {
    for octets in [[127, 0, 0, 1], [169, 254, 169, 254], [255, 255, 255, 255], [224, 0, 0, 1], [0, 1, 2, 3], [0, 0, 0, 0]] {
        assert!(blocked_address(&IpAddress::V4(octets)), "{:?}", octets);
    }
    for octets in [[10, 0, 0, 1], [8, 8, 8, 8], [192, 168, 1, 1]] {
        assert!(!blocked_address(&IpAddress::V4(octets)), "{:?}", octets);
    }
    let blocked6 = [
        [0, 0, 0, 0, 0, 0, 0, 1],
        [0, 0, 0, 0, 0, 0, 0, 0],
        [0, 0, 0, 0, 0, 0xffff, 0x7f00, 0x0001],
        [0xfe80, 0, 0, 0, 0, 0, 0, 1],
        [0xfd00, 0xec2, 0, 0, 0, 0, 0, 0x254],
        [0xff02, 0, 0, 0, 0, 0, 0, 1],
    ];
    for segments in blocked6 {
        assert!(blocked_address(&IpAddress::V6(segments)), "{:?}", segments);
    }
    assert!(!blocked_address(&IpAddress::V6([0, 0, 0, 0, 0, 0xffff, 0x0808, 0x0808])));
    assert!(!blocked_address(&IpAddress::V6([0x2001, 0xdb8, 0, 0, 0, 0, 0, 1])));
}

#[test]
fn the_first_reachable_address_is_dialled() {
    match reachable_address(&[], &[]) {
        Err(Dial::Failed(reason)) => assert_eq!(reason, "resolve failed: no addr"),
        _ => panic!("an empty resolution fails"),
    }
    match reachable_address(&[IpAddress::V4([127, 0, 0, 1])], &["127.0.0.1".to_string()]) {
        Err(Dial::Blocked(reason)) => assert_eq!(
            reason,
            "resolves only to blocked addresses (127.0.0.1): loopback, link-local, metadata and multicast are never reached by name"
        ),
        _ => panic!("a loopback-only name is blocked"),
    }
    let mixed = [IpAddress::V4([127, 0, 0, 1]), IpAddress::V4([8, 8, 8, 8])];
    assert!(matches!(reachable_address(&mixed, &["127.0.0.1".to_string(), "8.8.8.8".to_string()]), Ok(1)));
}

#[test]
fn decisions_are_reported_and_recorded() {
    assert_eq!(report_line(&decision("h", 443, "allow", "policy match")), "[porta proxy] allow h:443 (policy match)");
    assert_eq!(
        audit_record(5, &decision("a\"b", 1, "deny", "x\ny")),
        "{\"ts\":5,\"host\":\"a\\\"b\",\"port\":1,\"decision\":\"deny\",\"reason\":\"x\\ny\"}\n"
    );
}

#[test]
fn a_token_is_thirty_two_lowercase_hex_digits() {
    let mut random = [0u8; 16];
    for (k, b) in random.iter_mut().enumerate() {
        *b = (k as u8).wrapping_mul(37).wrapping_add(250);
    }
    let token = porta::proxy_egress::mint_token(&random);
    let expected: String = random.iter().map(|byte| format!("{byte:02x}")).collect();
    assert_eq!(token, expected);
    assert_eq!(token.len(), 32);
    assert!(token.chars().all(|c| c.is_ascii_digit() || ('a'..='f').contains(&c)));
}
