use synth::url_validator::{check_host, is_private_ip, page_domain, validate_parsed, validate_url, IpAddress};

#[test]
fn test_blocks_private_ips() {
    assert!(validate_url("http://10.0.0.1/secret").is_err());
    assert!(validate_url("http://172.16.0.1/secret").is_err());
    assert!(validate_url("http://192.168.1.1/secret").is_err());
    assert!(validate_url("http://127.0.0.1/secret").is_err());
    assert!(validate_url("http://169.254.1.1/secret").is_err());
    assert!(validate_url("http://[::1]/secret").is_err());
    assert!(validate_url("http://localhost/secret").is_err());
}

#[test]
fn test_allows_public_urls() {
    assert!(validate_url("https://example.com").is_ok());
    assert!(validate_url("https://github.com/owner/repo").is_ok());
}

#[test]
fn test_blocks_non_http() {
    assert!(validate_url("file:///etc/passwd").is_err());
    assert!(validate_url("ftp://example.com").is_err());
}

#[test]
fn refusal_messages_name_the_cause() {
    assert_eq!(
        validate_url("ftp://example.com"),
        Err("URL must start with http:// or https://".to_string())
    );
    assert_eq!(
        validate_url("http://10.0.0.1/secret"),
        Err("Access to private/internal IP 10.0.0.1 is blocked".to_string())
    );
    assert_eq!(
        validate_url("http://[::1]/secret"),
        Err("Access to private/internal IP ::1 is blocked".to_string())
    );
    assert_eq!(
        validate_url("http://printer.local/"),
        Err("Access to hostname 'printer.local' is blocked".to_string())
    );
    assert!(validate_url("http://").is_err());
}

#[test]
fn parsed_outcomes_are_judged_exactly() {
    assert_eq!(
        validate_parsed("http://x", Err("bad".to_string())),
        Err("Invalid URL: bad".to_string())
    );
    assert_eq!(validate_parsed("http://x", Ok(None)), Err("URL has no host".to_string()));
    assert_eq!(validate_parsed("https://x", Ok(Some(("example.org".to_string(), None)))), Ok(()));
}

#[test]
fn private_ranges() {
    assert!(is_private_ip(&IpAddress::V4([172, 31, 255, 255])));
    assert!(!is_private_ip(&IpAddress::V4([172, 32, 0, 1])));
    assert!(is_private_ip(&IpAddress::V4([0, 0, 0, 0])));
    assert!(!is_private_ip(&IpAddress::V4([8, 8, 8, 8])));
    assert!(is_private_ip(&IpAddress::V6([0xfd00, 0, 0, 0, 0, 0, 0, 1])));
    assert!(is_private_ip(&IpAddress::V6([0xfe80, 0, 0, 0, 0, 0, 0, 1])));
    assert!(is_private_ip(&IpAddress::V6([0, 0, 0, 0, 0, 0, 0, 0])));
    assert!(!is_private_ip(&IpAddress::V6([0x2001, 0xdb8, 0, 0, 0, 0, 0, 1])));
}

#[test]
fn host_names_ending_internal_are_refused() {
    assert!(check_host("db.internal", None).is_err());
    assert!(check_host("localhost", None).is_err());
    assert!(check_host("example.com", None).is_ok());
}

#[test]
fn page_domains() {
    assert_eq!(page_domain("https://Example.com/x"), Ok("example.com".to_string()));
    assert_eq!(page_domain("mailto:me@example.com"), Ok(String::new()));
    assert!(page_domain("not a url").is_err());
}
