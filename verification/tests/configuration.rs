//! The configuration and the command line.

use mapecd::cli::{
    chosen_log_level, Cli, Command, Job, DEFAULT_CONFIG, DEFAULT_LOG_LEVEL,
};
use mapecd::config::{
    default_duid_file, default_map_rules_cache_file, default_pid_file, validate_interface_name,
    Config, ConfigFile, DhcpV6Mode, RawConfig,
};
use mapecd::daemon::pid::{pid_line, read_pid, status_line};
use mapecd::error::MapEError;
use mapecd::map::rule::CeFormat;

fn invalid(text: &str) -> MapEError {
    MapEError::InvalidConfig(text.to_string())
}

fn string(table: &toml::Table, key: &str) -> Option<String> {
    table.get(key).and_then(|v| v.as_str()).map(|s| s.to_string())
}

fn parse(text: &str) -> Result<Config, MapEError> {
    let table: toml::Table = match text.parse() {
        Ok(t) => t,
        Err(_) => return load(ConfigFile::Unusable("not a table".to_string())),
    };
    load(ConfigFile::Read(RawConfig {
        upstream_interface: string(&table, "upstream_interface").ok_or(invalid("missing"))?,
        tunnel_interface: string(&table, "tunnel_interface").ok_or(invalid("missing"))?,
        tunnel_mtu: table.get("tunnel_mtu").and_then(|v| v.as_integer()).map(|m| m as u32),
        pid_file: string(&table, "pid_file"),
        map_rules_cache_file: string(&table, "map_rules_cache_file"),
        duid_file: string(&table, "duid_file"),
        dhcpv6_mode: string(&table, "dhcpv6_mode").map(|m| {
            if m == "client" {
                DhcpV6Mode::Client
            } else {
                DhcpV6Mode::Capture
            }
        }),
        use_v6plus_static_rules: table.get("use_v6plus_static_rules").and_then(|v| v.as_bool()),
    }))
}

fn load(file: ConfigFile) -> Result<Config, MapEError> {
    Config::load("/etc/mapecd/config.toml", file, &vec![])
}

#[test]
fn test_deserialize_minimal() {
    let cfg = parse(
        r#"
            upstream_interface = "eth0"
            tunnel_interface = "ip6tnl0"
        "#,
    )
    .unwrap();
    assert_eq!(cfg.upstream_interface, "eth0");
    assert_eq!(cfg.tunnel_interface, "ip6tnl0");
    assert_eq!(cfg.tunnel_mtu, None);
    assert_eq!(cfg.map_rules_cache_file, "/run/mapecd/rules.cache");
    assert_eq!(cfg.duid_file, "/var/lib/mapecd/duid");
    assert_eq!(cfg.dhcpv6_mode, DhcpV6Mode::Capture);
}

#[test]
fn test_deserialize_with_tunnel_mtu() {
    let cfg = parse(
        r#"
            upstream_interface = "eth0"
            tunnel_interface = "ip6tnl0"
            tunnel_mtu = 1500
        "#,
    )
    .unwrap();
    assert_eq!(cfg.tunnel_mtu, Some(1500));
}

#[test]
fn test_deserialize_custom_paths() {
    let cfg = parse(
        r#"
            upstream_interface = "eth0"
            tunnel_interface = "ip6tnl0"
            map_rules_cache_file = "/tmp/rules.cache"
            duid_file = "/tmp/duid"
        "#,
    )
    .unwrap();
    assert_eq!(cfg.map_rules_cache_file, "/tmp/rules.cache");
    assert_eq!(cfg.duid_file, "/tmp/duid");
}

#[test]
fn test_missing_upstream_interface() {
    let result = parse(
        r#"
            tunnel_interface = "ip6tnl0"
        "#,
    );
    assert!(result.is_err());
}

#[test]
fn test_missing_tunnel_interface() {
    let result = parse(
        r#"
            upstream_interface = "eth0"
        "#,
    );
    assert!(result.is_err());
}

#[test]
fn test_empty_upstream_interface() {
    let result = parse(
        r#"
            upstream_interface = ""
            tunnel_interface = "ip6tnl0"
        "#,
    );
    assert!(matches!(result, Err(MapEError::InvalidConfig(_))));
}

#[test]
fn test_interface_name_too_long() {
    let result = parse(
        r#"
            upstream_interface = "eth0123456789012"
            tunnel_interface = "ip6tnl0"
        "#,
    );
    assert!(
        matches!(result, Err(MapEError::InvalidConfig(msg)) if msg.contains("exceeds 15 characters"))
    );
}

#[test]
fn test_interface_name_exactly_15_chars() {
    let cfg = parse(
        r#"
            upstream_interface = "eth012345678901"
            tunnel_interface = "ip6tnl0"
        "#,
    )
    .unwrap();
    assert_eq!(cfg.upstream_interface.len(), 15);
}

#[test]
fn test_interface_name_invalid_chars() {
    let cases = ["eth 0", "eth;0", "eth\\0", "eth\"0", "eth'0", "eth/0", "eth\x000"];
    for name in cases {
        let text = format!(r#"upstream_interface = "{name}" tunnel_interface = "ip6tnl0""#);
        let result = parse(&text);
        assert!(
            matches!(result, Err(MapEError::InvalidConfig(_))),
            "expected error for interface name: {name:?}"
        );
        assert!(
            matches!(validate_interface_name(name), Err(MapEError::InvalidConfig(_))),
            "expected error for interface name: {name:?}"
        );
    }
}

#[test]
fn test_interface_name_valid_chars() {
    let cfg = parse(
        r#"
            upstream_interface = "eth0.100-_x"
            tunnel_interface = "ip6tnl0"
        "#,
    )
    .unwrap();
    assert_eq!(cfg.upstream_interface, "eth0.100-_x");
}

#[test]
fn test_same_interface_names() {
    let result = parse(
        r#"
            upstream_interface = "eth0"
            tunnel_interface = "eth0"
        "#,
    );
    assert!(
        matches!(result, Err(MapEError::InvalidConfig(msg)) if msg.contains("must be different"))
    );
}

#[test]
fn test_tunnel_mtu_minimum_valid() {
    let cfg = parse(
        r#"
            upstream_interface = "eth0"
            tunnel_interface = "ip6tnl0"
            tunnel_mtu = 1280
        "#,
    )
    .unwrap();
    assert_eq!(cfg.tunnel_mtu, Some(1280));
}

#[test]
fn test_tunnel_mtu_below_minimum() {
    let result = parse(
        r#"
            upstream_interface = "eth0"
            tunnel_interface = "ip6tnl0"
            tunnel_mtu = 1279
        "#,
    );
    assert!(matches!(result, Err(MapEError::InvalidConfig(msg)) if msg.contains("1280")));
}

#[test]
fn test_tunnel_mtu_maximum_valid() {
    let cfg = parse(
        r#"
            upstream_interface = "eth0"
            tunnel_interface = "ip6tnl0"
            tunnel_mtu = 65535
        "#,
    )
    .unwrap();
    assert_eq!(cfg.tunnel_mtu, Some(65535));
}

#[test]
fn test_tunnel_mtu_above_maximum() {
    let result = parse(
        r#"
            upstream_interface = "eth0"
            tunnel_interface = "ip6tnl0"
            tunnel_mtu = 65536
        "#,
    );
    assert!(matches!(result, Err(MapEError::InvalidConfig(_))));
}

#[test]
fn test_tunnel_mtu_zero() {
    let result = parse(
        r#"
            upstream_interface = "eth0"
            tunnel_interface = "ip6tnl0"
            tunnel_mtu = 0
        "#,
    );
    assert!(matches!(result, Err(MapEError::InvalidConfig(_))));
}

#[test]
fn test_dhcpv6_mode_default_is_capture() {
    let cfg = parse(
        r#"
            upstream_interface = "eth0"
            tunnel_interface = "ip6tnl0"
        "#,
    )
    .unwrap();
    assert_eq!(cfg.dhcpv6_mode, DhcpV6Mode::Capture);
}

#[test]
fn test_dhcpv6_mode_client() {
    let cfg = parse(
        r#"
            upstream_interface = "eth0"
            tunnel_interface = "ip6tnl0"
            dhcpv6_mode = "client"
        "#,
    )
    .unwrap();
    assert_eq!(cfg.dhcpv6_mode, DhcpV6Mode::Client);
}

#[test]
fn test_use_v6plus_static_rules_default_false() {
    let cfg = parse(
        r#"
            upstream_interface = "eth0"
            tunnel_interface = "ip6tnl0"
        "#,
    )
    .unwrap();
    assert!(!cfg.use_v6plus_static_rules);
    assert_eq!(cfg.ce_format(), CeFormat::Rfc7597);
}

#[test]
fn test_use_v6plus_static_rules_true() {
    let cfg = parse(
        r#"
            upstream_interface = "eth0"
            tunnel_interface = "ip6tnl0"
            use_v6plus_static_rules = true
        "#,
    )
    .unwrap();
    assert!(cfg.use_v6plus_static_rules);
    assert_eq!(cfg.ce_format(), CeFormat::V6Plus);
}

#[test]
fn letters_of_any_script_are_allowed_in_names() {
    assert!(validate_interface_name("\u{e9}th\u{30a2}9").is_ok());
    assert!(validate_interface_name("eth!").is_err());
    assert!(validate_interface_name("\u{2603}").is_err());
}

#[test]
fn default_paths() {
    assert_eq!(default_map_rules_cache_file(), "/run/mapecd/rules.cache");
    assert_eq!(default_duid_file(), "/var/lib/mapecd/duid");
    assert!(default_pid_file().ends_with("mapecd.pid"));
}

#[test]
fn files_that_hold_no_configuration() {
    let missing = load(ConfigFile::Missing).unwrap_err();
    assert_eq!(missing.message(), "config file not found: /etc/mapecd/config.toml");
    let broken = load(ConfigFile::Unusable("at line 1".to_string())).unwrap_err();
    assert_eq!(broken.message(), "invalid config: at line 1");
}

#[test]
fn commands() {
    let cli = |command: Option<Command>| Cli {
        config: DEFAULT_CONFIG.to_string(),
        log_level: DEFAULT_LOG_LEVEL.to_string(),
        command,
    };
    assert_eq!(DEFAULT_CONFIG, "/etc/mapecd/config.toml");
    assert_eq!(DEFAULT_LOG_LEVEL, "info");
    assert!(matches!(cli(None).job(), Job::Run));
    assert!(matches!(cli(Some(Command::Start)).job(), Job::Run));
    assert!(matches!(cli(Some(Command::Status)).job(), Job::Show));
    assert!(matches!(cli(Some(Command::Stop)).job(), Job::End));
}

#[test]
fn the_process_id_of_the_daemon() {
    assert_eq!(pid_line(4711), "4711\n");
    for pid in [1, 10, 4711, 0x7fff_ffff] {
        assert_eq!(read_pid(&pid_line(pid)), Some(pid));
    }
    assert_eq!(read_pid(" 12\t"), Some(12));
    for text in ["", "\n", "0", "x", "1x", "-1", "1 2", "2147483648", "99999999999999999999"] {
        assert_eq!(read_pid(text), None);
    }
    assert_eq!(status_line(Some(12)), "running (pid=12)");
    assert_eq!(status_line(None), "stopped");
}

#[test]
fn error_messages() {
    let text = || "x".to_string();
    let cases = [
        (MapEError::ConfigNotFound { path: text() }, "config file not found: x"),
        (MapEError::InvalidConfig(text()), "invalid config: x"),
        (
            MapEError::InvalidCePrefix,
            "invalid CE prefix: EA-bits length and CE prefix length mismatch",
        ),
        (
            MapEError::NoPrefixMatch,
            "no prefix match: IA_PD prefix does not match any MAP rule",
        ),
        (
            MapEError::MissingBrAddress,
            "missing BR address: OPTION_S46_BR is required but not present",
        ),
        (
            MapEError::EmptyPortRanges,
            "empty port ranges: cannot apply nftables ruleset with no port ranges",
        ),
        (MapEError::NetlinkError(text()), "netlink error: x"),
        (MapEError::NftError(text()), "nft error: x"),
        (MapEError::EbpfError(text()), "ebpf error: x"),
    ];
    for (e, message) in cases {
        assert_eq!(e.message(), message);
    }
}

fn vars(pairs: &[(&str, &str)]) -> Vec<(String, String)> {
    pairs.iter().map(|(name, value)| (name.to_string(), value.to_string())).collect()
}

fn minimal() -> RawConfig {
    RawConfig {
        upstream_interface: "eth0".to_string(),
        tunnel_interface: "ip6tnl0".to_string(),
        tunnel_mtu: Some(1500),
        pid_file: Some("/run/a.pid".to_string()),
        map_rules_cache_file: None,
        duid_file: None,
        dhcpv6_mode: None,
        use_v6plus_static_rules: None,
    }
}

fn load_with(pairs: &[(&str, &str)]) -> Result<Config, MapEError> {
    Config::load("/etc/mapecd/config.toml", ConfigFile::Read(minimal()), &vars(pairs))
}

#[test]
fn a_variable_overrides_its_key() {
    let config = load_with(&[("MAPECD_TUNNEL_MTU", "1400")]).unwrap();
    assert_eq!(config.tunnel_mtu, Some(1400));
    assert_eq!(config.upstream_interface, "eth0");
    let config = load_with(&[
        ("PATH", "/bin"),
        ("MAPECD_UPSTREAM_INTERFACE", "wan0"),
        ("MAPECD_TUNNEL_INTERFACE", "mape0"),
        ("MAPECD_PID_FILE", "/run/b.pid"),
        ("MAPECD_MAP_RULES_CACHE_FILE", "/run/c"),
        ("MAPECD_DUID_FILE", "/run/d"),
        ("MAPECD_DHCPV6_MODE", "client"),
        ("MAPECD_USE_V6PLUS_STATIC_RULES", "true"),
    ])
    .unwrap();
    assert_eq!(config.upstream_interface, "wan0");
    assert_eq!(config.tunnel_interface, "mape0");
    assert_eq!(config.tunnel_mtu, Some(1500));
    assert_eq!(config.pid_file, "/run/b.pid");
    assert_eq!(config.map_rules_cache_file, "/run/c");
    assert_eq!(config.duid_file, "/run/d");
    assert_eq!(config.dhcpv6_mode, DhcpV6Mode::Client);
    assert!(config.use_v6plus_static_rules);
}

#[test]
fn two_keys_have_a_second_variable() {
    let second = [("MAPECD_WAN_INTERFACE", "wan1"), ("MAPECD_DHCPV6__MODE", "client")];
    let config = load_with(&second).unwrap();
    assert_eq!(config.upstream_interface, "wan1");
    assert_eq!(config.dhcpv6_mode, DhcpV6Mode::Client);
    let first = [("MAPECD_UPSTREAM_INTERFACE", "wan0"), ("MAPECD_DHCPV6_MODE", "capture")];
    let config = load_with(&[second, first].concat()).unwrap();
    assert_eq!(config.upstream_interface, "wan0");
    assert_eq!(config.dhcpv6_mode, DhcpV6Mode::Capture);
}

#[test]
fn variables_of_others_change_nothing() {
    let config = load_with(&[("TUNNEL_MTU", "x"), ("mapecd_tunnel_mtu", "1400")]).unwrap();
    assert_eq!(config.tunnel_mtu, Some(1500));
    assert_eq!(config.pid_file, "/run/a.pid");
    assert_eq!(config.map_rules_cache_file, "/run/mapecd/rules.cache");
    assert_eq!(config.dhcpv6_mode, DhcpV6Mode::Capture);
}

#[test]
fn values_that_a_key_cannot_have() {
    for (name, value, text) in [
        ("MAPECD_TUNNEL_MTU", "", "MAPECD_TUNNEL_MTU: '' is not a number"),
        ("MAPECD_TUNNEL_MTU", "1e3", "MAPECD_TUNNEL_MTU: '1e3' is not a number"),
        ("MAPECD_TUNNEL_MTU", "4294967296", "MAPECD_TUNNEL_MTU: '4294967296' is not a number"),
        (
            "MAPECD_DHCPV6_MODE",
            "Client",
            "MAPECD_DHCPV6_MODE: 'Client' is neither capture nor client",
        ),
        (
            "MAPECD_USE_V6PLUS_STATIC_RULES",
            "1",
            "MAPECD_USE_V6PLUS_STATIC_RULES: '1' is neither true nor false",
        ),
        ("MAPECD_TUNNEL_MTU", "1279", "tunnel_mtu must be between 1280 and 65535, got 1279"),
        (
            "MAPECD_TUNNEL_INTERFACE",
            "eth0",
            "upstream_interface and tunnel_interface must be different",
        ),
    ] {
        match load_with(&[(name, value)]) {
            Err(MapEError::InvalidConfig(e)) => assert_eq!(e, text),
            other => panic!("unexpected {other:?}"),
        }
    }
    let missing = Config::load("/x", ConfigFile::Missing, &vars(&[("MAPECD_TUNNEL_MTU", "x")]));
    assert!(matches!(missing, Err(MapEError::ConfigNotFound { path }) if path == "/x"));
}

#[test]
fn who_says_what_is_logged() {
    let set = vars(&[("MAPECD_LOG_LEVEL", "debug")]);
    assert_eq!(chosen_log_level(Some("trace".to_string()), &set), "trace");
    assert_eq!(chosen_log_level(None, &set), "debug");
    assert_eq!(chosen_log_level(None, &vec![]), DEFAULT_LOG_LEVEL);
}
