use synth::config::{cache_root, cache_ttl_seconds, cleanup_schedule, parse_i64, parse_u16, port_setting, text_setting, DEFAULT_MCP_PORT, DEFAULT_PORT};

#[test]
fn numbers_are_read_like_from_str() {
    for s in ["0", "8765", "+80", "65535", "65536", "", "+", "-1", "12a", " 1", "007"] {
        assert_eq!(parse_u16(s), s.parse::<u16>().ok(), "{:?}", s);
    }
    for s in ["0", "-0", "86400", "-9223372036854775808", "9223372036854775807", "9223372036854775808", "-9223372036854775809", "+5", "-", "x"] {
        assert_eq!(parse_i64(s), s.parse::<i64>().ok(), "{:?}", s);
    }
}

#[test]
fn settings_and_defaults() {
    assert_eq!(port_setting(None, DEFAULT_PORT, "PORT"), Ok(8765));
    assert_eq!(port_setting(Some("9000"), DEFAULT_PORT, "PORT"), Ok(9000));
    assert_eq!(port_setting(Some("nope"), DEFAULT_MCP_PORT, "MCP_PORT"), Err("Invalid MCP_PORT".to_string()));
    assert_eq!(cache_ttl_seconds(None), 86400);
    assert_eq!(cache_ttl_seconds(Some("60")), 60);
    assert_eq!(cache_ttl_seconds(Some("soon")), 86400);
    assert_eq!(text_setting(None, "./index"), "./index");
    assert_eq!(text_setting(Some("/data"), "./index"), "/data");
    assert_eq!(cache_root("./index"), "./index/cache");
    let plan = cleanup_schedule();
    assert_eq!(plan.len(), 9);
    assert_eq!(plan[0], ("pages".to_string(), 24));
    assert_eq!(plan[8], ("extractors_code".to_string(), 168));
}

#[test]
fn printed_ports_read_back() {
    for p in [0u16, 7, 80, 8765, 65535] {
        assert_eq!(parse_u16(&format!("{}", p)), Some(p));
    }
}
