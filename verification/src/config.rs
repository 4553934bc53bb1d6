//! The configuration of the daemon.

use vstd::prelude::*;
use vstd::string::*;
use vstd::utf8::encode_utf8;

use crate::error::{ErrorView, MapEError};
use crate::map::rule::CeFormat;
use crate::text::{
    decimal, is_digit, lemma_number_reads_back, number_in, read_number, text_of, with_number,
};
use crate::variables::{
    either, find_either, find_variable, is_own, lemma_others_are_no_own, variable,
};

verus! {

/// The longest name that an interface can have, in bytes.
pub const IFNAME_MAX: usize = 15;

/// The smallest and the largest tunnel MTU.
pub const MTU_MIN: u32 = 1280;

pub const MTU_MAX: u32 = 65535;

/// How DHCPv6 replies are received.
#[derive(Clone, Copy, Debug, PartialEq, Eq, Structural)]
pub enum DhcpV6Mode {
    /// By listening to those of another client.
    Capture,
    /// By being a client.
    Client,
}

impl Default for DhcpV6Mode {
    fn default() -> (r: DhcpV6Mode)
        ensures
            r == DhcpV6Mode::Capture,
    {
        DhcpV6Mode::Capture
    }
}

/// The configuration.
#[derive(Clone, Debug)]
pub struct Config {
    pub upstream_interface: String,
    pub tunnel_interface: String,
    pub tunnel_mtu: Option<u32>,
    pub pid_file: String,
    pub map_rules_cache_file: String,
    pub duid_file: String,
    pub dhcpv6_mode: DhcpV6Mode,
    /// Whether mapping rules come from a fixed set only: those in replies are then neither taken
    /// over nor kept for the next start.
    pub use_v6plus_static_rules: bool,
}

/// A configuration in which everything that has a default may be missing.
#[derive(Clone, Debug)]
pub struct RawConfig {
    pub upstream_interface: String,
    pub tunnel_interface: String,
    pub tunnel_mtu: Option<u32>,
    pub pid_file: Option<String>,
    pub map_rules_cache_file: Option<String>,
    pub duid_file: Option<String>,
    pub dhcpv6_mode: Option<DhcpV6Mode>,
    pub use_v6plus_static_rules: Option<bool>,
}

/// What was found in the place of a configuration file.
#[derive(Clone, Debug)]
pub enum ConfigFile {
    /// There is no file.
    Missing,
    /// The file cannot be read, or its text is no configuration: why.
    Unusable(String),
    /// The file holds a configuration.
    Read(RawConfig),
}

pub fn default_pid_file() -> (r: String)
    ensures
        r@ == "/run/mapecd.pid"@,
{
    String::from_str("/run/mapecd.pid")
}

pub fn default_map_rules_cache_file() -> (r: String)
    ensures
        r@ == "/run/mapecd/rules.cache"@,
{
    String::from_str("/run/mapecd/rules.cache")
}

pub fn default_duid_file() -> (r: String)
    ensures
        r@ == "/var/lib/mapecd/duid"@,
{
    String::from_str("/var/lib/mapecd/duid")
}

/// Whether a character is alphabetic or numeric in Unicode.
pub uninterp spec fn is_alphanumeric(c: char) -> bool;

/// `char::is_alphanumeric` tells letters and digits, of all scripts, from other characters.
/// Among the ASCII characters those are `0` to `9`, `A` to `Z` and `a` to `z`.
pub assume_specification[ char::is_alphanumeric ](c: char) -> (r: bool)
    ensures
        r == is_alphanumeric(c),
        (c as u32) < 128 ==> r == ('0' <= c <= '9' || 'A' <= c <= 'Z' || 'a' <= c <= 'z'),
;

/// Whether a character may stand in the name of an interface.
pub open spec fn is_name_char(c: char) -> bool {
    is_alphanumeric(c) || c == '-' || c == '_' || c == '.'
}

/// The text of the error in the name of an interface, if it has one.
pub open spec fn name_error(name: Seq<char>) -> Option<Seq<char>> {
    if name.len() == 0 {
        Some("interface name must not be empty"@)
    } else if encode_utf8(name).len() > IFNAME_MAX {
        Some("interface name '"@ + name + "' exceeds 15 characters (IFNAMSIZ-1)"@)
    } else if exists|i: int| 0 <= i < name.len() && !is_name_char(#[trigger] name[i]) {
        Some(
            "interface name '"@ + name
                + "' contains invalid characters (allowed: alphanumeric, -, _, .)"@,
        )
    } else {
        None
    }
}

/// The text of the first error in a configuration, if it has one.
pub open spec fn config_error(upstream: Seq<char>, tunnel: Seq<char>, mtu: Option<u32>) -> Option<
    Seq<char>,
> {
    match (name_error(upstream), name_error(tunnel)) {
        (Some(text), _) => Some(text),
        (None, Some(text)) => Some(text),
        (None, None) => if upstream == tunnel {
            Some("upstream_interface and tunnel_interface must be different"@)
        } else {
            match mtu {
                Some(m) if m < MTU_MIN || m > MTU_MAX => Some(
                    "tunnel_mtu must be between 1280 and 65535, got "@ + decimal(m as nat),
                ),
                _ => None,
            }
        },
    }
}

/// Text between two others.
fn quoted(before: &str, name: &str, after: &str) -> (r: String)
    ensures
        r@ == before@ + name@ + after@,
{
    let mut out = String::from_str(before);
    out.append(name);
    out.append(after);
    out
}

/// Checks the name of an interface.
pub fn validate_interface_name(name: &str) -> (r: Result<(), MapEError>)
    ensures
        match name_error(name@) {
            Some(text) => r matches Err(e) && e@ == ErrorView::InvalidConfig(text),
            None => r is Ok,
        },
{
    let n: usize = name.unicode_len();
    if n == 0 {
        return Err(MapEError::InvalidConfig(String::from_str("interface name must not be empty")));
    }
    if name.as_bytes().len() > IFNAME_MAX {
        return Err(
            MapEError::InvalidConfig(
                quoted("interface name '", name, "' exceeds 15 characters (IFNAMSIZ-1)"),
            ),
        );
    }
    let mut i: usize = 0;
    while i < n
        invariant
            i <= n,
            n == name@.len(),
            n > 0,
            encode_utf8(name@).len() <= IFNAME_MAX,
            forall|j: int| 0 <= j < i ==> is_name_char(#[trigger] name@[j]),
        decreases n - i,
    {
        let c = name.get_char(i);
        if !(c.is_alphanumeric() || c == '-' || c == '_' || c == '.') {
            assert(!is_name_char(name@[i as int]));
            return Err(
                MapEError::InvalidConfig(
                    quoted(
                        "interface name '",
                        name,
                        "' contains invalid characters (allowed: alphanumeric, -, _, .)",
                    ),
                ),
            );
        }
        i = i + 1;
    }
    Ok(())
}

/// A raw configuration, with its texts as character sequences.
pub struct RawView {
    pub upstream_interface: Seq<char>,
    pub tunnel_interface: Seq<char>,
    pub tunnel_mtu: Option<u32>,
    pub pid_file: Option<Seq<char>>,
    pub map_rules_cache_file: Option<Seq<char>>,
    pub duid_file: Option<Seq<char>>,
    pub dhcpv6_mode: Option<DhcpV6Mode>,
    pub use_v6plus_static_rules: Option<bool>,
}

impl View for RawConfig {
    type V = RawView;

    open spec fn view(&self) -> RawView {
        RawView {
            upstream_interface: self.upstream_interface@,
            tunnel_interface: self.tunnel_interface@,
            tunnel_mtu: self.tunnel_mtu,
            pid_file: text_of(self.pid_file),
            map_rules_cache_file: text_of(self.map_rules_cache_file),
            duid_file: text_of(self.duid_file),
            dhcpv6_mode: self.dhcpv6_mode,
            use_v6plus_static_rules: self.use_v6plus_static_rules,
        }
    }
}

/// The variables that override the keys of the configuration. Two keys have a second name.
pub const VAR_UPSTREAM_INTERFACE: &'static str = "MAPECD_UPSTREAM_INTERFACE";

pub const VAR_WAN_INTERFACE: &'static str = "MAPECD_WAN_INTERFACE";

pub const VAR_TUNNEL_INTERFACE: &'static str = "MAPECD_TUNNEL_INTERFACE";

pub const VAR_TUNNEL_MTU: &'static str = "MAPECD_TUNNEL_MTU";

pub const VAR_PID_FILE: &'static str = "MAPECD_PID_FILE";

pub const VAR_MAP_RULES_CACHE_FILE: &'static str = "MAPECD_MAP_RULES_CACHE_FILE";

pub const VAR_DUID_FILE: &'static str = "MAPECD_DUID_FILE";

pub const VAR_DHCPV6_MODE: &'static str = "MAPECD_DHCPV6_MODE";

pub const VAR_DHCPV6_NESTED_MODE: &'static str = "MAPECD_DHCPV6__MODE";

pub const VAR_STATIC_RULES: &'static str = "MAPECD_USE_V6PLUS_STATIC_RULES";

/// The mode of that name.
pub open spec fn mode_in(text: Seq<char>) -> Option<DhcpV6Mode> {
    if text == "capture"@ {
        Some(DhcpV6Mode::Capture)
    } else if text == "client"@ {
        Some(DhcpV6Mode::Client)
    } else {
        None
    }
}

/// The truth value of that name.
pub open spec fn flag_in(text: Seq<char>) -> Option<bool> {
    if text == "true"@ {
        Some(true)
    } else if text == "false"@ {
        Some(false)
    } else {
        None
    }
}

/// The text of the first error in the values of variables, if there is one: a number, a mode or a
/// truth value that is none.
pub open spec fn variable_error(vars: Seq<(String, String)>) -> Option<Seq<char>> {
    let mtu = variable(vars, VAR_TUNNEL_MTU@);
    let mode = either(vars, VAR_DHCPV6_MODE@, VAR_DHCPV6_NESTED_MODE@);
    let flag = variable(vars, VAR_STATIC_RULES@);
    if mtu is Some && number_in(mtu->Some_0, u32::MAX) is None {
        Some("MAPECD_TUNNEL_MTU: '"@ + mtu->Some_0 + "' is not a number"@)
    } else if mode is Some && mode_in(mode->Some_0) is None {
        Some("MAPECD_DHCPV6_MODE: '"@ + mode->Some_0 + "' is neither capture nor client"@)
    } else if flag is Some && flag_in(flag->Some_0) is None {
        Some(
            "MAPECD_USE_V6PLUS_STATIC_RULES: '"@ + flag->Some_0 + "' is neither true nor false"@,
        )
    } else {
        None
    }
}

/// The first of two texts that is there.
pub open spec fn over(v: Option<Seq<char>>, under: Option<Seq<char>>) -> Option<Seq<char>> {
    match v {
        Some(text) => Some(text),
        None => under,
    }
}

/// Variables laid over a configuration: each key has the value of its variable where there is one,
/// and else keeps its own.
pub open spec fn laid_over(raw: RawView, vars: Seq<(String, String)>) -> RawView {
    RawView {
        upstream_interface: match either(vars, VAR_UPSTREAM_INTERFACE@, VAR_WAN_INTERFACE@) {
            Some(text) => text,
            None => raw.upstream_interface,
        },
        tunnel_interface: match variable(vars, VAR_TUNNEL_INTERFACE@) {
            Some(text) => text,
            None => raw.tunnel_interface,
        },
        tunnel_mtu: match variable(vars, VAR_TUNNEL_MTU@) {
            Some(text) => number_in(text, u32::MAX),
            None => raw.tunnel_mtu,
        },
        pid_file: over(variable(vars, VAR_PID_FILE@), raw.pid_file),
        map_rules_cache_file: over(
            variable(vars, VAR_MAP_RULES_CACHE_FILE@),
            raw.map_rules_cache_file,
        ),
        duid_file: over(variable(vars, VAR_DUID_FILE@), raw.duid_file),
        dhcpv6_mode: match either(vars, VAR_DHCPV6_MODE@, VAR_DHCPV6_NESTED_MODE@) {
            Some(text) => mode_in(text),
            None => raw.dhcpv6_mode,
        },
        use_v6plus_static_rules: match variable(vars, VAR_STATIC_RULES@) {
            Some(text) => flag_in(text),
            None => raw.use_v6plus_static_rules,
        },
    }
}

/// Reads the name of a mode.
fn read_mode(text: &String) -> (r: Option<DhcpV6Mode>)
    ensures
        r == mode_in(text@),
{
    if *text == String::from_str("capture") {
        Some(DhcpV6Mode::Capture)
    } else if *text == String::from_str("client") {
        Some(DhcpV6Mode::Client)
    } else {
        None
    }
}

/// Reads the name of a truth value.
fn read_flag(text: &String) -> (r: Option<bool>)
    ensures
        r == flag_in(text@),
{
    if *text == String::from_str("true") {
        Some(true)
    } else if *text == String::from_str("false") {
        Some(false)
    } else {
        None
    }
}

/// The first of two texts that is there.
fn first_of(v: Option<String>, under: Option<String>) -> (r: Option<String>)
    ensures
        text_of(r) == over(text_of(v), text_of(under)),
{
    match v {
        Some(text) => Some(text),
        None => under,
    }
}

impl RawConfig {
    /// Lays variables, given as names and values, over the configuration. Fails if and only if one
    /// of them should be a number, a mode or a truth value and is none.
    pub fn with_variables(self, vars: &Vec<(String, String)>) -> (r: Result<RawConfig, MapEError>)
        ensures
            match variable_error(vars@) {
                Some(text) => r matches Err(e) && e@ == ErrorView::InvalidConfig(text),
                None => r matches Ok(c) && c@ == laid_over(self@, vars@),
            },
    {
        let tunnel_mtu = match find_variable(vars, VAR_TUNNEL_MTU) {
            Some(text) => match read_number(text.as_str(), u32::MAX) {
                Some(n) => Some(n),
                None => {
                    return Err(
                        MapEError::InvalidConfig(
                            quoted("MAPECD_TUNNEL_MTU: '", text.as_str(), "' is not a number"),
                        ),
                    );
                },
            },
            None => self.tunnel_mtu,
        };
        let dhcpv6_mode = match find_either(vars, VAR_DHCPV6_MODE, VAR_DHCPV6_NESTED_MODE) {
            Some(text) => match read_mode(&text) {
                Some(m) => Some(m),
                None => {
                    return Err(
                        MapEError::InvalidConfig(
                            quoted(
                                "MAPECD_DHCPV6_MODE: '",
                                text.as_str(),
                                "' is neither capture nor client",
                            ),
                        ),
                    );
                },
            },
            None => self.dhcpv6_mode,
        };
        let use_v6plus_static_rules = match find_variable(vars, VAR_STATIC_RULES) {
            Some(text) => match read_flag(&text) {
                Some(b) => Some(b),
                None => {
                    return Err(
                        MapEError::InvalidConfig(
                            quoted(
                                "MAPECD_USE_V6PLUS_STATIC_RULES: '",
                                text.as_str(),
                                "' is neither true nor false",
                            ),
                        ),
                    );
                },
            },
            None => self.use_v6plus_static_rules,
        };
        Ok(
            RawConfig {
                upstream_interface: match find_either(
                    vars,
                    VAR_UPSTREAM_INTERFACE,
                    VAR_WAN_INTERFACE,
                ) {
                    Some(text) => text,
                    None => self.upstream_interface,
                },
                tunnel_interface: match find_variable(vars, VAR_TUNNEL_INTERFACE) {
                    Some(text) => text,
                    None => self.tunnel_interface,
                },
                tunnel_mtu,
                pid_file: first_of(find_variable(vars, VAR_PID_FILE), self.pid_file),
                map_rules_cache_file: first_of(
                    find_variable(vars, VAR_MAP_RULES_CACHE_FILE),
                    self.map_rules_cache_file,
                ),
                duid_file: first_of(find_variable(vars, VAR_DUID_FILE), self.duid_file),
                dhcpv6_mode,
                use_v6plus_static_rules,
            },
        )
    }
}

/// The variables that override keys are all the daemon's own.
proof fn lemma_names_are_own()
    ensures
        is_own(VAR_UPSTREAM_INTERFACE@),
        is_own(VAR_WAN_INTERFACE@),
        is_own(VAR_TUNNEL_INTERFACE@),
        is_own(VAR_TUNNEL_MTU@),
        is_own(VAR_PID_FILE@),
        is_own(VAR_MAP_RULES_CACHE_FILE@),
        is_own(VAR_DUID_FILE@),
        is_own(VAR_DHCPV6_MODE@),
        is_own(VAR_DHCPV6_NESTED_MODE@),
        is_own(VAR_STATIC_RULES@),
{
    reveal_strlit("MAPECD_");
    reveal_strlit("MAPECD_UPSTREAM_INTERFACE");
    reveal_strlit("MAPECD_WAN_INTERFACE");
    reveal_strlit("MAPECD_TUNNEL_INTERFACE");
    reveal_strlit("MAPECD_TUNNEL_MTU");
    reveal_strlit("MAPECD_PID_FILE");
    reveal_strlit("MAPECD_MAP_RULES_CACHE_FILE");
    reveal_strlit("MAPECD_DUID_FILE");
    reveal_strlit("MAPECD_DHCPV6_MODE");
    reveal_strlit("MAPECD_DHCPV6__MODE");
    reveal_strlit("MAPECD_USE_V6PLUS_STATIC_RULES");
    assert(VAR_UPSTREAM_INTERFACE@.take(7) =~= "MAPECD_"@);
    assert(VAR_WAN_INTERFACE@.take(7) =~= "MAPECD_"@);
    assert(VAR_TUNNEL_INTERFACE@.take(7) =~= "MAPECD_"@);
    assert(VAR_TUNNEL_MTU@.take(7) =~= "MAPECD_"@);
    assert(VAR_PID_FILE@.take(7) =~= "MAPECD_"@);
    assert(VAR_MAP_RULES_CACHE_FILE@.take(7) =~= "MAPECD_"@);
    assert(VAR_DUID_FILE@.take(7) =~= "MAPECD_"@);
    assert(VAR_DHCPV6_MODE@.take(7) =~= "MAPECD_"@);
    assert(VAR_DHCPV6_NESTED_MODE@.take(7) =~= "MAPECD_"@);
    assert(VAR_STATIC_RULES@.take(7) =~= "MAPECD_"@);
}

/// Variables of others leave the configuration as it is.
pub proof fn lemma_variables_of_others_change_nothing(raw: RawView, vars: Seq<(String, String)>)
    requires
        forall|i: int| 0 <= i < vars.len() ==> !is_own((#[trigger] vars[i]).0@),
    ensures
        variable_error(vars) is None,
        laid_over(raw, vars) == raw,
{
    lemma_names_are_own();
    lemma_others_are_no_own(vars, VAR_UPSTREAM_INTERFACE@);
    lemma_others_are_no_own(vars, VAR_WAN_INTERFACE@);
    lemma_others_are_no_own(vars, VAR_TUNNEL_INTERFACE@);
    lemma_others_are_no_own(vars, VAR_TUNNEL_MTU@);
    lemma_others_are_no_own(vars, VAR_PID_FILE@);
    lemma_others_are_no_own(vars, VAR_MAP_RULES_CACHE_FILE@);
    lemma_others_are_no_own(vars, VAR_DUID_FILE@);
    lemma_others_are_no_own(vars, VAR_DHCPV6_MODE@);
    lemma_others_are_no_own(vars, VAR_DHCPV6_NESTED_MODE@);
    lemma_others_are_no_own(vars, VAR_STATIC_RULES@);
}

/// The text that a field holds, or its default.
pub open spec fn or_default(v: Option<Seq<char>>, default: Seq<char>) -> Seq<char> {
    match v {
        Some(text) => text,
        None => default,
    }
}

/// Whether a configuration is a raw one with the defaults filled in.
pub open spec fn filled_in(c: Config, raw: RawView) -> bool {
    &&& c.upstream_interface@ == raw.upstream_interface
    &&& c.tunnel_interface@ == raw.tunnel_interface
    &&& c.tunnel_mtu == raw.tunnel_mtu
    &&& c.pid_file@ == or_default(raw.pid_file, "/run/mapecd.pid"@)
    &&& c.map_rules_cache_file@ == or_default(raw.map_rules_cache_file, "/run/mapecd/rules.cache"@)
    &&& c.duid_file@ == or_default(raw.duid_file, "/var/lib/mapecd/duid"@)
    &&& c.dhcpv6_mode == (match raw.dhcpv6_mode {
        Some(m) => m,
        None => DhcpV6Mode::Capture,
    })
    &&& c.use_v6plus_static_rules == (raw.use_v6plus_static_rules == Some(true))
}

impl Config {
    /// Fills in the defaults.
    pub fn from_raw(raw: RawConfig) -> (r: Config)
        ensures
            filled_in(r, raw@),
    {
        Config {
            upstream_interface: raw.upstream_interface,
            tunnel_interface: raw.tunnel_interface,
            tunnel_mtu: raw.tunnel_mtu,
            pid_file: match raw.pid_file {
                Some(p) => p,
                None => default_pid_file(),
            },
            map_rules_cache_file: match raw.map_rules_cache_file {
                Some(p) => p,
                None => default_map_rules_cache_file(),
            },
            duid_file: match raw.duid_file {
                Some(p) => p,
                None => default_duid_file(),
            },
            dhcpv6_mode: match raw.dhcpv6_mode {
                Some(m) => m,
                None => DhcpV6Mode::default(),
            },
            use_v6plus_static_rules: match raw.use_v6plus_static_rules {
                Some(b) => b,
                None => false,
            },
        }
    }

    /// The configuration in a file, with variables laid over it. Fails if and only if the file is
    /// missing or cannot be read, its text is no configuration, a variable has a value that its
    /// key cannot have, or the configuration breaks a rule.
    pub fn load(path: &str, file: ConfigFile, vars: &Vec<(String, String)>) -> (r: Result<
        Config,
        MapEError,
    >)
        ensures
            match file {
                ConfigFile::Missing => r matches Err(e) && e@ == ErrorView::ConfigNotFound(path@),
                ConfigFile::Unusable(text) => r matches Err(e) && e@
                    == ErrorView::InvalidConfig(text@),
                ConfigFile::Read(raw) => {
                    let laid = laid_over(raw@, vars@);
                    match (
                        variable_error(vars@),
                        config_error(
                            laid.upstream_interface,
                            laid.tunnel_interface,
                            laid.tunnel_mtu,
                        ),
                    ) {
                        (Some(text), _) => r matches Err(e) && e@ == ErrorView::InvalidConfig(text),
                        (None, Some(text)) => r matches Err(e) && e@
                            == ErrorView::InvalidConfig(text),
                        (None, None) => r matches Ok(c) && filled_in(c, laid),
                    }
                },
            },
    {
        let raw = match file {
            ConfigFile::Missing => {
                return Err(MapEError::ConfigNotFound { path: String::from_str(path) });
            },
            ConfigFile::Unusable(text) => {
                return Err(MapEError::InvalidConfig(text));
            },
            ConfigFile::Read(raw) => raw,
        };
        match raw.with_variables(vars) {
            Ok(raw) => {
                let config = Config::from_raw(raw);
                match config.validate() {
                    Ok(()) => Ok(config),
                    Err(e) => Err(e),
                }
            },
            Err(e) => Err(e),
        }
    }

    /// Checks the configuration: both names, that they differ, and the MTU.
    pub fn validate(&self) -> (r: Result<(), MapEError>)
        ensures
            match config_error(
                self.upstream_interface@,
                self.tunnel_interface@,
                self.tunnel_mtu,
            ) {
                Some(text) => r matches Err(e) && e@ == ErrorView::InvalidConfig(text),
                None => r is Ok,
            },
    {
        match validate_interface_name(self.upstream_interface.as_str()) {
            Ok(()) => {},
            Err(e) => {
                return Err(e);
            },
        }
        match validate_interface_name(self.tunnel_interface.as_str()) {
            Ok(()) => {},
            Err(e) => {
                return Err(e);
            },
        }
        if self.upstream_interface == self.tunnel_interface {
            return Err(
                MapEError::InvalidConfig(
                    String::from_str("upstream_interface and tunnel_interface must be different"),
                ),
            );
        }
        if let Some(mtu) = self.tunnel_mtu {
            if mtu < MTU_MIN || mtu > MTU_MAX {
                return Err(
                    MapEError::InvalidConfig(
                        with_number(
                            "tunnel_mtu must be between 1280 and 65535, got ",
                            mtu as u64,
                        ),
                    ),
                );
            }
        }
        Ok(())
    }

    /// The layout of the CE address under this configuration.
    pub open spec fn spec_ce_format(self) -> CeFormat {
        if self.use_v6plus_static_rules {
            CeFormat::V6Plus
        } else {
            CeFormat::Rfc7597
        }
    }

    /// The layout of the CE address under this configuration.
    pub fn ce_format(&self) -> (r: CeFormat)
        ensures
            r == self.spec_ce_format(),
    {
        if self.use_v6plus_static_rules {
            CeFormat::V6Plus
        } else {
            CeFormat::Rfc7597
        }
    }
}

/// A name of an interface is usable just where it has a character, takes 15 bytes at most, and
/// consists of letters, digits, dashes, underscores and dots.
pub proof fn lemma_usable_name(name: Seq<char>)
    ensures
        name_error(name) is None <==> {
            &&& name.len() > 0
            &&& encode_utf8(name).len() <= 15
            &&& forall|i: int|
                0 <= i < name.len() ==> is_alphanumeric(#[trigger] name[i]) || name[i] == '-'
                    || name[i] == '_' || name[i] == '.'
        },
        name.len() == 0 ==> name_error(name) == Some("interface name must not be empty"@),
        encode_utf8(name).len() > 15 && name.len() > 0 ==> name_error(name) == Some(
            "interface name '"@ + name + "' exceeds 15 characters (IFNAMSIZ-1)"@,
        ),
{
    if name_error(name) is None {
        assert forall|i: int| 0 <= i < name.len() implies is_alphanumeric(#[trigger] name[i])
            || name[i] == '-' || name[i] == '_' || name[i] == '.' by {
            assert(is_name_char(name[i]));
        }
    } else if name.len() > 0 && encode_utf8(name).len() <= 15 {
        let i = choose|i: int| 0 <= i < name.len() && !is_name_char(#[trigger] name[i]);
        assert(!is_name_char(name[i]));
    }
}

/// A configuration is usable just where both names are, they differ, and the MTU, if one is given,
/// is 1280 to 65535. What is wrong with the upstream interface is told before what is wrong with
/// the tunnel, and that before all else.
pub proof fn lemma_usable_configuration(upstream: Seq<char>, tunnel: Seq<char>, mtu: Option<u32>)
    ensures
        config_error(upstream, tunnel, mtu) is None <==> {
            &&& name_error(upstream) is None
            &&& name_error(tunnel) is None
            &&& upstream != tunnel
            &&& mtu is None || 1280 <= mtu->Some_0 <= 65535
        },
        name_error(upstream) is Some ==> config_error(upstream, tunnel, mtu) == name_error(
            upstream,
        ),
        name_error(upstream) is None && name_error(tunnel) is Some ==> config_error(
            upstream,
            tunnel,
            mtu,
        ) == name_error(tunnel),
        name_error(upstream) is None && upstream == tunnel ==> config_error(upstream, tunnel, mtu)
            == Some("upstream_interface and tunnel_interface must be different"@),
{
}

/// What a variable sets: the key of its name, and nothing else. `MAPECD_WAN_INTERFACE` and
/// `MAPECD_DHCPV6__MODE` count where `MAPECD_UPSTREAM_INTERFACE` and `MAPECD_DHCPV6_MODE` are not
/// there.
pub proof fn lemma_what_a_variable_sets(raw: RawView, vars: Seq<(String, String)>)
    ensures
        ({
            let laid = laid_over(raw, vars);
            let upstream = variable(vars, "MAPECD_UPSTREAM_INTERFACE"@);
            let wan = variable(vars, "MAPECD_WAN_INTERFACE"@);
            let tunnel = variable(vars, "MAPECD_TUNNEL_INTERFACE"@);
            let mtu = variable(vars, "MAPECD_TUNNEL_MTU"@);
            let pid = variable(vars, "MAPECD_PID_FILE"@);
            let cache = variable(vars, "MAPECD_MAP_RULES_CACHE_FILE"@);
            let duid = variable(vars, "MAPECD_DUID_FILE"@);
            let mode = variable(vars, "MAPECD_DHCPV6_MODE"@);
            let nested = variable(vars, "MAPECD_DHCPV6__MODE"@);
            let fixed = variable(vars, "MAPECD_USE_V6PLUS_STATIC_RULES"@);
            &&& upstream is Some ==> laid.upstream_interface == upstream->Some_0
            &&& upstream is None && wan is Some ==> laid.upstream_interface == wan->Some_0
            &&& upstream is None && wan is None ==> laid.upstream_interface
                == raw.upstream_interface
            &&& tunnel is Some ==> laid.tunnel_interface == tunnel->Some_0
            &&& tunnel is None ==> laid.tunnel_interface == raw.tunnel_interface
            &&& forall|n: u32|
                mtu == Some(#[trigger] decimal(n as nat)) ==> laid.tunnel_mtu == Some(n)
            &&& mtu is None ==> laid.tunnel_mtu == raw.tunnel_mtu
            &&& pid is Some ==> laid.pid_file == pid
            &&& pid is None ==> laid.pid_file == raw.pid_file
            &&& cache is Some ==> laid.map_rules_cache_file == cache
            &&& cache is None ==> laid.map_rules_cache_file == raw.map_rules_cache_file
            &&& duid is Some ==> laid.duid_file == duid
            &&& duid is None ==> laid.duid_file == raw.duid_file
            &&& mode == Some("capture"@) ==> laid.dhcpv6_mode == Some(DhcpV6Mode::Capture)
            &&& mode == Some("client"@) ==> laid.dhcpv6_mode == Some(DhcpV6Mode::Client)
            &&& mode is None && nested == Some("capture"@) ==> laid.dhcpv6_mode == Some(
                DhcpV6Mode::Capture,
            )
            &&& mode is None && nested == Some("client"@) ==> laid.dhcpv6_mode == Some(
                DhcpV6Mode::Client,
            )
            &&& mode is None && nested is None ==> laid.dhcpv6_mode == raw.dhcpv6_mode
            &&& fixed == Some("true"@) ==> laid.use_v6plus_static_rules == Some(true)
            &&& fixed == Some("false"@) ==> laid.use_v6plus_static_rules == Some(false)
            &&& fixed is None ==> laid.use_v6plus_static_rules == raw.use_v6plus_static_rules
        }),
{
    reveal_strlit("capture");
    reveal_strlit("client");
    reveal_strlit("true");
    reveal_strlit("false");
    assert("capture"@.len() != "client"@.len());
    assert("true"@.len() != "false"@.len());
    assert forall|n: u32|
        variable(vars, "MAPECD_TUNNEL_MTU"@) == Some(#[trigger] decimal(n as nat)) implies laid_over(
        raw,
        vars,
    ).tunnel_mtu == Some(n) by {
        lemma_number_reads_back(n, u32::MAX);
    }
}

/// Which values are refused: an MTU that is not made of digits, a mode that is neither `capture`
/// nor `client`, and a truth value that is neither `true` nor `false`.
pub proof fn lemma_which_values_are_refused(vars: Seq<(String, String)>)
    ensures
        ({
            let mtu = variable(vars, "MAPECD_TUNNEL_MTU"@);
            let mode = variable(vars, "MAPECD_DHCPV6_MODE"@);
            let nested = variable(vars, "MAPECD_DHCPV6__MODE"@);
            let fixed = variable(vars, "MAPECD_USE_V6PLUS_STATIC_RULES"@);
            let named = |m: Option<Seq<char>>| m is None || m == Some("capture"@) || m == Some("client"@);
            &&& variable_error(vars) is None ==> {
                &&& mtu is Some ==> mtu->Some_0.len() > 0 && forall|i: int|
                    0 <= i < mtu->Some_0.len() ==> '0' <= #[trigger] mtu->Some_0[i] <= '9'
                &&& named(mode) && (mode is None ==> named(nested))
                &&& fixed is None || fixed == Some("true"@) || fixed == Some("false"@)
            }
            &&& mtu is None && named(mode) && named(nested) && (fixed is None || fixed == Some(
                "true"@,
            ) || fixed == Some("false"@)) ==> variable_error(vars) is None
        }),
{
    reveal_strlit("capture");
    reveal_strlit("client");
    reveal_strlit("true");
    reveal_strlit("false");
    if variable_error(vars) is None {
        if let Some(text) = variable(vars, "MAPECD_TUNNEL_MTU"@) {
            assert(number_in(text, u32::MAX) is Some);
            assert forall|i: int| 0 <= i < text.len() implies '0' <= #[trigger] text[i] <= '9' by {
                assert(is_digit(text[i]));
            }
        }
    }
}

/// What is missing has its default: `/run/mapecd.pid`, `/run/mapecd/rules.cache` and
/// `/var/lib/mapecd/duid`, capture, and no fixed rules. What is there is kept.
pub proof fn lemma_defaults(c: Config, raw: RawView)
    requires
        filled_in(c, raw),
    ensures
        c.upstream_interface@ == raw.upstream_interface,
        c.tunnel_interface@ == raw.tunnel_interface,
        c.tunnel_mtu == raw.tunnel_mtu,
        raw.pid_file is None ==> c.pid_file@ == "/run/mapecd.pid"@,
        raw.pid_file matches Some(text) ==> c.pid_file@ == text,
        raw.map_rules_cache_file is None ==> c.map_rules_cache_file@ == "/run/mapecd/rules.cache"@,
        raw.map_rules_cache_file matches Some(text) ==> c.map_rules_cache_file@ == text,
        raw.duid_file is None ==> c.duid_file@ == "/var/lib/mapecd/duid"@,
        raw.duid_file matches Some(text) ==> c.duid_file@ == text,
        raw.dhcpv6_mode is None ==> c.dhcpv6_mode == DhcpV6Mode::Capture,
        raw.dhcpv6_mode matches Some(m) ==> c.dhcpv6_mode == m,
        raw.use_v6plus_static_rules is None ==> !c.use_v6plus_static_rules,
        raw.use_v6plus_static_rules matches Some(b) ==> c.use_v6plus_static_rules == b,
{
}

/// The layout of CE addresses: that of v6 Plus with the fixed rules, that of RFC 7597 without.
pub proof fn lemma_layout_of_addresses(c: Config)
    ensures
        c.use_v6plus_static_rules <==> c.spec_ce_format() is V6Plus,
        !c.use_v6plus_static_rules <==> c.spec_ce_format() is Rfc7597,
{
}

} // verus!
