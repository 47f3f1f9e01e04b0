//! The configuration of the client, and what is wrong with one.
use vstd::prelude::*;

use crate::table::Table;
use crate::text::{
    is_space, join2, join3, opt_view, own, str_eq, trim, trimmed, trimming_takes_white_space_off,
};

verus! {

// ---------------------------------------------------------------------------------------------
// Settings
// ---------------------------------------------------------------------------------------------

/// The configuration of the client.
#[derive(Debug)]
pub struct ClientConfig {
    pub general: GeneralConfig,
    pub remote: RemoteConfig,
    pub frontends: FrontendsConfig,
}

/// General settings.
#[derive(Debug)]
pub struct GeneralConfig {
    /// The call sign or owner to show.
    pub callsign: Option<String>,
    /// One of trace, debug, info, warn and error.
    pub log_level: Option<String>,
}

/// The connection to a server.
#[derive(Debug)]
pub struct RemoteConfig {
    /// `host:port` or `tcp://host:port`.
    pub url: Option<String>,
    /// The rig to control, on a server with several.
    pub rig_id: Option<String>,
    pub auth: RemoteAuthConfig,
    /// How often the state is asked for, in milliseconds.
    pub poll_interval_ms: u64,
}

/// How the client authenticates itself to a server.
#[derive(Debug)]
pub struct RemoteAuthConfig {
    /// The token that goes with each command.
    pub token: Option<String>,
}

/// The frontends.
#[derive(Debug)]
pub struct FrontendsConfig {
    pub http: HttpFrontendConfig,
    pub rigctl: RigctlFrontendConfig,
    pub http_json: HttpJsonFrontendConfig,
    pub audio: AudioClientConfig,
}

/// Audio streaming.
#[derive(Debug)]
pub struct AudioClientConfig {
    pub enabled: bool,
    /// The audio port of the server.
    pub server_port: u16,
    /// The audio ports of rigs that have their own.
    pub rig_ports: Table<u16>,
    /// The URL that the audio of all rigs comes from, in place of their servers.
    pub server_url: Option<String>,
    /// The URLs that the audio of single rigs comes from.
    pub rig_urls: Table<String>,
    pub bridge: AudioBridgeConfig,
}

/// The bridge between the stream and local audio devices.
#[derive(Debug)]
pub struct AudioBridgeConfig {
    pub enabled: bool,
    pub rx_output_device: Option<String>,
    pub tx_input_device: Option<String>,
    /// The bit rate of what is sent, in bits per second.
    pub bitrate_bps: u32,
    /// The factor for what is played, as the bits of a single precision number.
    pub rx_gain_bits: u32,
    /// The factor for what is captured, as the bits of a single precision number.
    pub tx_gain_bits: u32,
}

/// When a browser sends the cookie along.
#[derive(Clone, Copy, Debug, PartialEq, Eq, Structural)]
pub enum CookieSameSite {
    /// Only from the site itself.
    Strict,
    /// Also when the user follows a link to the site.
    Lax,
    /// Always.
    Unrestricted,
}

/// Who may use the HTTP frontend.
#[derive(Debug)]
pub struct HttpAuthConfig {
    pub enabled: bool,
    /// The passphrase for read-only access.
    pub rx_passphrase: Option<String>,
    /// The passphrase for full control.
    pub control_passphrase: Option<String>,
    /// Whether transmitting is for users with full control only.
    pub tx_access_control_enabled: bool,
    /// How long a session lives, in minutes.
    pub session_ttl_min: u64,
    pub cookie_secure: bool,
    pub cookie_same_site: CookieSameSite,
}

/// The HTTP frontend.
#[derive(Debug)]
pub struct HttpFrontendConfig {
    pub enabled: bool,
    /// The address to listen on.
    pub listen: String,
    pub port: u16,
    /// The rig that is selected at first.
    pub default_rig_id: Option<String>,
    /// Whether the gain control is shown.
    pub show_sdr_gain_control: bool,
    pub auth: HttpAuthConfig,
}

/// The rigctl frontend.
#[derive(Debug)]
pub struct RigctlFrontendConfig {
    pub enabled: bool,
    /// The address to listen on.
    pub listen: String,
    /// Not used: each rig has a port of its own.
    pub port: u16,
    /// The port of each rig.
    pub rig_ports: Table<u16>,
}

/// The JSON frontend.
#[derive(Debug)]
pub struct HttpJsonFrontendConfig {
    pub enabled: bool,
    /// The address to listen on.
    pub listen: String,
    /// The port; any free one where it is 0.
    pub port: u16,
    pub auth: HttpJsonAuthConfig,
}

/// Who may use the JSON frontend.
#[derive(Debug)]
pub struct HttpJsonAuthConfig {
    /// The tokens that are accepted.
    pub tokens: Vec<String>,
}

/// The bits of the single precision number 1.
pub const UNIT_GAIN_BITS: u32 = 0x3f80_0000;

impl Default for GeneralConfig {
    fn default() -> (res: Self)
        ensures
            opt_view(res.callsign) == Some("N0CALL"@),
            res.log_level is None,
    {
        GeneralConfig { callsign: Some(own("N0CALL")), log_level: None }
    }
}

impl Default for RemoteAuthConfig {
    fn default() -> (res: Self)
        ensures
            res.token is None,
    {
        RemoteAuthConfig { token: None }
    }
}

impl Default for RemoteConfig {
    fn default() -> (res: Self)
        ensures
            res.url is None,
            res.rig_id is None,
            res.auth.token is None,
            res.poll_interval_ms == 750,
    {
        RemoteConfig {
            url: None,
            rig_id: None,
            auth: RemoteAuthConfig { token: None },
            poll_interval_ms: 750,
        }
    }
}

impl Default for AudioBridgeConfig {
    fn default() -> (res: Self)
        ensures
            !res.enabled,
            res.rx_output_device is None,
            res.tx_input_device is None,
            res.bitrate_bps == 192000,
            res.rx_gain_bits == UNIT_GAIN_BITS,
            res.tx_gain_bits == UNIT_GAIN_BITS,
    {
        AudioBridgeConfig {
            enabled: false,
            rx_output_device: None,
            tx_input_device: None,
            bitrate_bps: 192000,
            rx_gain_bits: UNIT_GAIN_BITS,
            tx_gain_bits: UNIT_GAIN_BITS,
        }
    }
}

impl Default for AudioClientConfig {
    fn default() -> (res: Self)
        ensures
            res.enabled,
            res.server_port == 4531,
            res.rig_ports.wf(),
            res.rig_ports.entries@.len() == 0,
            res.server_url is None,
            res.rig_urls.wf(),
            res.rig_urls.entries@.len() == 0,
            !res.bridge.enabled,
            res.bridge.rx_output_device is None,
            res.bridge.tx_input_device is None,
            res.bridge.bitrate_bps == 192000,
            res.bridge.rx_gain_bits == UNIT_GAIN_BITS,
            res.bridge.tx_gain_bits == UNIT_GAIN_BITS,
    {
        AudioClientConfig {
            enabled: true,
            server_port: 4531,
            rig_ports: Table::new(),
            server_url: None,
            rig_urls: Table::new(),
            bridge: AudioBridgeConfig::default(),
        }
    }
}

impl Default for CookieSameSite {
    fn default() -> (res: Self)
        ensures
            res == CookieSameSite::Lax,
    {
        CookieSameSite::Lax
    }
}

impl CookieSameSite {
    /// The value of the cookie's attribute.
    pub fn as_str(&self) -> (res: &'static str)
        ensures
            res@ == (match self {
                CookieSameSite::Strict => "Strict"@,
                CookieSameSite::Lax => "Lax"@,
                CookieSameSite::Unrestricted => "None"@,
            }),
    {
        match self {
            CookieSameSite::Strict => "Strict",
            CookieSameSite::Lax => "Lax",
            CookieSameSite::Unrestricted => "None",
        }
    }
}

impl Default for HttpAuthConfig {
    fn default() -> (res: Self)
        ensures
            !res.enabled,
            res.rx_passphrase is None,
            res.control_passphrase is None,
            res.tx_access_control_enabled,
            res.session_ttl_min == 480,
            !res.cookie_secure,
            res.cookie_same_site == CookieSameSite::Lax,
    {
        HttpAuthConfig {
            enabled: false,
            rx_passphrase: None,
            control_passphrase: None,
            tx_access_control_enabled: true,
            session_ttl_min: 480,
            cookie_secure: false,
            cookie_same_site: CookieSameSite::Lax,
        }
    }
}

impl HttpAuthConfig {
    /// How long a session lives, in seconds.
    pub fn session_ttl(&self) -> (res: u64)
        requires
            self.session_ttl_min * 60 <= u64::MAX,
        ensures
            res == self.session_ttl_min * 60,
    {
        self.session_ttl_min * 60
    }
}

impl Default for HttpFrontendConfig {
    fn default() -> (res: Self)
        ensures
            res.enabled,
            res.listen@ == "127.0.0.1"@,
            res.port == 8080,
            res.default_rig_id is None,
            res.show_sdr_gain_control,
            !res.auth.enabled,
            res.auth.rx_passphrase is None,
            res.auth.control_passphrase is None,
            res.auth.tx_access_control_enabled,
            res.auth.session_ttl_min == 480,
            !res.auth.cookie_secure,
            res.auth.cookie_same_site == CookieSameSite::Lax,
    {
        HttpFrontendConfig {
            enabled: true,
            listen: own("127.0.0.1"),
            port: 8080,
            default_rig_id: None,
            show_sdr_gain_control: true,
            auth: HttpAuthConfig::default(),
        }
    }
}

impl Default for RigctlFrontendConfig {
    fn default() -> (res: Self)
        ensures
            !res.enabled,
            res.listen@ == "127.0.0.1"@,
            res.port == 4532,
            res.rig_ports.wf(),
            res.rig_ports.entries@.len() == 0,
    {
        RigctlFrontendConfig {
            enabled: false,
            listen: own("127.0.0.1"),
            port: 4532,
            rig_ports: Table::new(),
        }
    }
}

impl Default for HttpJsonAuthConfig {
    fn default() -> (res: Self)
        ensures
            res.tokens@.len() == 0,
    {
        HttpJsonAuthConfig { tokens: Vec::new() }
    }
}

impl Default for HttpJsonFrontendConfig {
    fn default() -> (res: Self)
        ensures
            res.enabled,
            res.listen@ == "127.0.0.1"@,
            res.port == 0,
            res.auth.tokens@.len() == 0,
    {
        HttpJsonFrontendConfig {
            enabled: true,
            listen: own("127.0.0.1"),
            port: 0,
            auth: HttpJsonAuthConfig { tokens: Vec::new() },
        }
    }
}

// ---------------------------------------------------------------------------------------------
// What is wrong
// ---------------------------------------------------------------------------------------------

/// Whether a text is empty but for white space.
pub open spec fn is_blank(s: Seq<char>) -> bool {
    trimmed(s).len() == 0
}

/// Whether a text that may be missing is there and blank.
pub open spec fn is_set_blank(s: Option<String>) -> bool {
    match s {
        Some(t) => is_blank(t@),
        None => false,
    }
}

fn blank(s: &str) -> (res: bool)
    ensures
        res == is_blank(s@),
{
    let t = trim(s);
    t.as_str().is_empty()
}

fn set_blank(s: &Option<String>) -> (res: bool)
    ensures
        res == is_set_blank(*s),
{
    match s {
        Some(t) => blank(t.as_str()),
        None => false,
    }
}

/// Whether the bits are those of a number that is finite and not negative.
pub open spec fn is_gain(bits: u32) -> bool {
    bits / 0x80_0000 % 256 != 255 && bits <= 0x8000_0000
}

/// What is wrong with a log level, if something is.
pub open spec fn log_level_error(level: Option<Seq<char>>) -> Option<Seq<char>> {
    match level {
        Some(l) => if l == "trace"@ || l == "debug"@ || l == "info"@ || l == "warn"@ || l
            == "error"@ {
            None
        } else {
            Some(
                "[general].log_level '"@ + l
                    + "' is invalid (expected one of: trace, debug, info, warn, error)"@,
            )
        },
        None => None,
    }
}

/// Accepts a known log level.
pub fn validate_log_level(level: &Option<String>) -> (res: Result<(), String>)
    ensures
        match res {
            Ok(_) => log_level_error(opt_view(*level)) is None,
            Err(m) => log_level_error(opt_view(*level)) == Some(m@),
        },
{
    match level {
        Some(level) => {
            let l = level.as_str();
            if str_eq(l, "trace") || str_eq(l, "debug") || str_eq(l, "info") || str_eq(l, "warn")
                || str_eq(l, "error") {
                Ok(())
            } else {
                Err(
                    join3(
                        "[general].log_level '",
                        l,
                        "' is invalid (expected one of: trace, debug, info, warn, error)",
                    ),
                )
            }
        },
        None => Ok(()),
    }
}

/// Whether a list holds a blank text.
pub open spec fn has_blank(tokens: Seq<String>) -> bool {
    exists|i: int| 0 <= i < tokens.len() && is_blank((#[trigger] tokens[i])@)
}

/// Accepts tokens none of which is blank.
pub fn validate_tokens(path: &str, tokens: &Vec<String>) -> (res: Result<(), String>)
    ensures
        match res {
            Ok(_) => !has_blank(tokens@),
            Err(m) => has_blank(tokens@) && m@ == path@ + " must not contain empty tokens"@,
        },
{
    let mut i: usize = 0;
    while i < tokens.len()
        invariant
            i <= tokens@.len(),
            forall|j: int| 0 <= j < i ==> !is_blank((#[trigger] tokens@[j])@),
        decreases tokens@.len() - i,
    {
        if blank(tokens[i].as_str()) {
            return Err(join2(path, " must not contain empty tokens"));
        }
        i = i + 1;
    }
    Ok(())
}

/// What is wrong with the settings of who may use the HTTP frontend. Where nobody is asked, nothing
/// is.
pub open spec fn http_auth_error(auth: HttpAuthConfig) -> Option<Seq<char>> {
    if !auth.enabled {
        None
    } else if auth.rx_passphrase is None && auth.control_passphrase is None {
        Some(
            "[frontends.http.auth] enabled=true requires at least one passphrase (rx_passphrase and/or control_passphrase)"@,
        )
    } else if is_set_blank(auth.rx_passphrase) {
        Some("[frontends.http.auth].rx_passphrase must not be empty if set"@)
    } else if is_set_blank(auth.control_passphrase) {
        Some("[frontends.http.auth].control_passphrase must not be empty if set"@)
    } else if auth.session_ttl_min == 0 {
        Some("[frontends.http.auth].session_ttl_min must be > 0"@)
    } else {
        None
    }
}

/// Accepts settings of who may use the HTTP frontend.
pub fn validate_http_auth(auth: &HttpAuthConfig) -> (res: Result<(), String>)
    ensures
        match res {
            Ok(_) => http_auth_error(*auth) is None,
            Err(m) => http_auth_error(*auth) == Some(m@),
        },
{
    if !auth.enabled {
        return Ok(());
    }
    if auth.rx_passphrase.is_none() && auth.control_passphrase.is_none() {
        return Err(
            own(
                "[frontends.http.auth] enabled=true requires at least one passphrase (rx_passphrase and/or control_passphrase)",
            ),
        );
    }
    if set_blank(&auth.rx_passphrase) {
        return Err(own("[frontends.http.auth].rx_passphrase must not be empty if set"));
    }
    if set_blank(&auth.control_passphrase) {
        return Err(own("[frontends.http.auth].control_passphrase must not be empty if set"));
    }
    if auth.session_ttl_min == 0 {
        return Err(own("[frontends.http.auth].session_ttl_min must be > 0"));
    }
    Ok(())
}

/// What is wrong with the ports of rigs, from the one at `k` on: of each, the name must not be blank
/// and the port not 0.
pub open spec fn ports_error(
    section: Seq<char>,
    ports: Seq<(String, u16)>,
    k: nat,
) -> Option<Seq<char>>
    decreases ports.len() - k,
{
    if k >= ports.len() {
        None
    } else if is_blank(ports[k as int].0@) {
        Some(section + ".rig_ports keys must not be empty"@)
    } else if ports[k as int].1 == 0 {
        Some(section + ".rig_ports[\""@ + ports[k as int].0@ + "\"] must be > 0"@)
    } else {
        ports_error(section, ports, k + 1)
    }
}

fn validate_ports(section: &str, ports: &Table<u16>) -> (res: Result<(), String>)
    ensures
        match res {
            Ok(_) => ports_error(section@, ports.entries@, 0) is None,
            Err(m) => ports_error(section@, ports.entries@, 0) == Some(m@),
        },
{
    let mut k: usize = 0;
    while k < ports.entries.len()
        invariant
            k <= ports.entries@.len(),
            ports_error(section@, ports.entries@, 0) == ports_error(
                section@,
                ports.entries@,
                k as nat,
            ),
        decreases ports.entries@.len() - k,
    {
        let rig_id = ports.entries[k].0.as_str();
        if blank(rig_id) {
            return Err(join2(section, ".rig_ports keys must not be empty"));
        }
        if ports.entries[k].1 == 0 {
            let head = join3(section, ".rig_ports[\"", rig_id);
            return Err(join2(head.as_str(), "\"] must be > 0"));
        }
        k = k + 1;
    }
    Ok(())
}

/// What is wrong with the connection to a server.
pub open spec fn remote_error_of(remote: RemoteConfig) -> Option<Seq<char>> {
    if remote.poll_interval_ms == 0 {
        Some("[remote].poll_interval_ms must be > 0"@)
    } else if is_set_blank(remote.url) {
        Some("[remote].url must not be empty when set"@)
    } else if is_set_blank(remote.rig_id) {
        Some("[remote].rig_id must not be empty when set"@)
    } else if is_set_blank(remote.auth.token) {
        Some("[remote.auth].token must not be empty when set"@)
    } else {
        None
    }
}

/// What is wrong with the HTTP and rigctl frontends, but for who may use them.
pub open spec fn listeners_error(f: FrontendsConfig) -> Option<Seq<char>> {
    if f.http.enabled && f.http.port == 0 {
        Some("[frontends.http].port must be > 0 when enabled"@)
    } else if is_set_blank(f.http.default_rig_id) {
        Some("[frontends.http].default_rig_id must not be empty when set"@)
    } else if f.rigctl.enabled && f.rigctl.rig_ports.entries@.len() == 0 {
        Some("[frontends.rigctl].rig_ports must contain at least one rig when enabled"@)
    } else {
        ports_error("[frontends.rigctl]"@, f.rigctl.rig_ports.entries@, 0)
    }
}

/// What is wrong with the audio settings.
pub open spec fn audio_error(audio: AudioClientConfig) -> Option<Seq<char>> {
    if audio.enabled && audio.server_port == 0 {
        Some("[frontends.audio].server_port must be > 0 when enabled"@)
    } else if ports_error("[frontends.audio]"@, audio.rig_ports.entries@, 0) is Some {
        ports_error("[frontends.audio]"@, audio.rig_ports.entries@, 0)
    } else if !is_gain(audio.bridge.rx_gain_bits) {
        Some("[frontends.audio.bridge].rx_gain must be finite and >= 0"@)
    } else if !is_gain(audio.bridge.tx_gain_bits) {
        Some("[frontends.audio.bridge].tx_gain must be finite and >= 0"@)
    } else if audio.bridge.bitrate_bps == 0 {
        Some("[frontends.audio.bridge].bitrate_bps must be > 0"@)
    } else {
        None
    }
}

/// The first that is something.
pub open spec fn first_of(a: Option<Seq<char>>, b: Option<Seq<char>>) -> Option<Seq<char>> {
    match a {
        Some(_) => a,
        None => b,
    }
}

/// What is wrong with a configuration: the first of all that is.
pub open spec fn config_error(c: ClientConfig) -> Option<Seq<char>> {
    first_of(
        log_level_error(opt_view(c.general.log_level)),
        first_of(
            remote_error_of(c.remote),
            first_of(
                listeners_error(c.frontends),
                first_of(
                    audio_error(c.frontends.audio),
                    if has_blank(c.frontends.http_json.auth.tokens@) {
                        Some("[frontends.http_json.auth].tokens"@ + " must not contain empty tokens"@)
                    } else {
                        http_auth_error(c.frontends.http.auth)
                    },
                ),
            ),
        ),
    )
}

fn validate_remote(remote: &RemoteConfig) -> (res: Result<(), String>)
    ensures
        match res {
            Ok(_) => remote_error_of(*remote) is None,
            Err(m) => remote_error_of(*remote) == Some(m@),
        },
{
    if remote.poll_interval_ms == 0 {
        return Err(own("[remote].poll_interval_ms must be > 0"));
    }
    if set_blank(&remote.url) {
        return Err(own("[remote].url must not be empty when set"));
    }
    if set_blank(&remote.rig_id) {
        return Err(own("[remote].rig_id must not be empty when set"));
    }
    if set_blank(&remote.auth.token) {
        return Err(own("[remote.auth].token must not be empty when set"));
    }
    Ok(())
}

fn validate_listeners(f: &FrontendsConfig) -> (res: Result<(), String>)
    ensures
        match res {
            Ok(_) => listeners_error(*f) is None,
            Err(m) => listeners_error(*f) == Some(m@),
        },
{
    if f.http.enabled && f.http.port == 0 {
        return Err(own("[frontends.http].port must be > 0 when enabled"));
    }
    if set_blank(&f.http.default_rig_id) {
        return Err(own("[frontends.http].default_rig_id must not be empty when set"));
    }
    if f.rigctl.enabled && f.rigctl.rig_ports.entries.len() == 0 {
        return Err(
            own("[frontends.rigctl].rig_ports must contain at least one rig when enabled"),
        );
    }
    validate_ports("[frontends.rigctl]", &f.rigctl.rig_ports)
}

fn gain(bits: u32) -> (res: bool)
    ensures
        res == is_gain(bits),
{
    bits / 0x80_0000 % 256 != 255 && bits <= 0x8000_0000
}

fn validate_audio(audio: &AudioClientConfig) -> (res: Result<(), String>)
    ensures
        match res {
            Ok(_) => audio_error(*audio) is None,
            Err(m) => audio_error(*audio) == Some(m@),
        },
{
    if audio.enabled && audio.server_port == 0 {
        return Err(own("[frontends.audio].server_port must be > 0 when enabled"));
    }
    match validate_ports("[frontends.audio]", &audio.rig_ports) {
        Ok(_) => {},
        Err(m) => {
            return Err(m);
        },
    }
    if !gain(audio.bridge.rx_gain_bits) {
        return Err(own("[frontends.audio.bridge].rx_gain must be finite and >= 0"));
    }
    if !gain(audio.bridge.tx_gain_bits) {
        return Err(own("[frontends.audio.bridge].tx_gain must be finite and >= 0"));
    }
    if audio.bridge.bitrate_bps == 0 {
        return Err(own("[frontends.audio.bridge].bitrate_bps must be > 0"));
    }
    Ok(())
}

impl ClientConfig {
    /// Accepts a configuration, or says what is wrong with it first.
    pub fn validate(&self) -> (res: Result<(), String>)
        ensures
            match res {
                Ok(_) => config_error(*self) is None,
                Err(m) => config_error(*self) == Some(m@),
            },
    {
        match validate_log_level(&self.general.log_level) {
            Ok(_) => {},
            Err(m) => {
                return Err(m);
            },
        }
        match validate_remote(&self.remote) {
            Ok(_) => {},
            Err(m) => {
                return Err(m);
            },
        }
        match validate_listeners(&self.frontends) {
            Ok(_) => {},
            Err(m) => {
                return Err(m);
            },
        }
        match validate_audio(&self.frontends.audio) {
            Ok(_) => {},
            Err(m) => {
                return Err(m);
            },
        }
        match validate_tokens(
            "[frontends.http_json.auth].tokens",
            &self.frontends.http_json.auth.tokens,
        ) {
            Ok(_) => {},
            Err(m) => {
                return Err(m);
            },
        }
        validate_http_auth(&self.frontends.http.auth)
    }
}

impl Default for FrontendsConfig {
    fn default() -> (res: Self)
        ensures
            res.is_default(),
    {
        FrontendsConfig {
            http: HttpFrontendConfig::default(),
            rigctl: RigctlFrontendConfig::default(),
            http_json: HttpJsonFrontendConfig::default(),
            audio: AudioClientConfig::default(),
        }
    }
}

impl FrontendsConfig {
    /// Whether these are the frontends where nothing is configured.
    pub open spec fn is_default(&self) -> bool {
        &&& self.http.enabled
        &&& self.http.listen@ == "127.0.0.1"@
        &&& self.http.port == 8080
        &&& self.http.default_rig_id is None
        &&& self.http.show_sdr_gain_control
        &&& !self.http.auth.enabled
        &&& self.http.auth.rx_passphrase is None
        &&& self.http.auth.control_passphrase is None
        &&& self.http.auth.tx_access_control_enabled
        &&& self.http.auth.session_ttl_min == 480
        &&& !self.http.auth.cookie_secure
        &&& self.http.auth.cookie_same_site == CookieSameSite::Lax
        &&& !self.rigctl.enabled
        &&& self.rigctl.listen@ == "127.0.0.1"@
        &&& self.rigctl.port == 4532
        &&& self.rigctl.rig_ports.wf()
        &&& self.rigctl.rig_ports.entries@.len() == 0
        &&& self.http_json.enabled
        &&& self.http_json.listen@ == "127.0.0.1"@
        &&& self.http_json.port == 0
        &&& self.http_json.auth.tokens@.len() == 0
        &&& self.audio.enabled
        &&& self.audio.server_port == 4531
        &&& self.audio.rig_ports.wf()
        &&& self.audio.rig_ports.entries@.len() == 0
        &&& self.audio.server_url is None
        &&& self.audio.rig_urls.wf()
        &&& self.audio.rig_urls.entries@.len() == 0
        &&& !self.audio.bridge.enabled
        &&& self.audio.bridge.rx_output_device is None
        &&& self.audio.bridge.tx_input_device is None
        &&& self.audio.bridge.bitrate_bps == 192000
        &&& self.audio.bridge.rx_gain_bits == UNIT_GAIN_BITS
        &&& self.audio.bridge.tx_gain_bits == UNIT_GAIN_BITS
    }
}

impl ClientConfig {
    /// Whether this is the configuration where nothing is configured.
    pub open spec fn is_default(&self) -> bool {
        &&& opt_view(self.general.callsign) == Some("N0CALL"@)
        &&& self.general.log_level is None
        &&& self.remote.url is None
        &&& self.remote.rig_id is None
        &&& self.remote.auth.token is None
        &&& self.remote.poll_interval_ms == 750
        &&& self.frontends.is_default()
    }
}

impl Default for ClientConfig {
    fn default() -> (res: Self)
        ensures
            res.is_default(),
    {
        ClientConfig {
            general: GeneralConfig::default(),
            remote: RemoteConfig::default(),
            frontends: FrontendsConfig::default(),
        }
    }
}

/// Nothing is wrong with the configuration where nothing is configured.
pub proof fn default_is_valid(c: ClientConfig)
    requires
        c.is_default(),
    ensures
        config_error(c) is None,
{
}

/// The configuration that is printed as an example.
pub fn example_config() -> (res: ClientConfig)
    ensures
        config_error(res) is None,
        opt_view(res.general.callsign) == Some("N0CALL"@),
        opt_view(res.general.log_level) == Some("info"@),
        opt_view(res.remote.url) == Some("192.168.1.100:9000"@),
        opt_view(res.remote.rig_id) == Some("hf"@),
        opt_view(res.remote.auth.token) == Some("my-token"@),
        res.remote.poll_interval_ms == 750,
        opt_view(res.frontends.http.default_rig_id) == Some("hf"@),
        opt_view(res.frontends.http.auth.rx_passphrase) == Some("rx-passphrase-example"@),
        opt_view(res.frontends.http.auth.control_passphrase) == Some(
            "control-passphrase-example"@,
        ),
        exists|f: FrontendsConfig| #[trigger]
            f.is_default() && res.frontends == (FrontendsConfig {
                http: HttpFrontendConfig {
                    default_rig_id: res.frontends.http.default_rig_id,
                    auth: HttpAuthConfig {
                        rx_passphrase: res.frontends.http.auth.rx_passphrase,
                        control_passphrase: res.frontends.http.auth.control_passphrase,
                        ..f.http.auth
                    },
                    ..f.http
                },
                ..f
            }),
{
    let mut config = ClientConfig::default();
    let ghost plain = config.frontends;
    config.general.log_level = Some(own("info"));
    config.remote.url = Some(own("192.168.1.100:9000"));
    config.remote.rig_id = Some(own("hf"));
    config.remote.auth.token = Some(own("my-token"));
    config.frontends.http.default_rig_id = Some(own("hf"));
    config.frontends.http.auth.rx_passphrase = Some(own("rx-passphrase-example"));
    config.frontends.http.auth.control_passphrase = Some(own("control-passphrase-example"));
    proof {
        lemma_example_texts();
        assert(plain.is_default());
    }
    config
}

proof fn lemma_example_texts()
    ensures
        !is_blank("192.168.1.100:9000"@),
        !is_blank("hf"@),
        !is_blank("my-token"@),
{
    reveal_strlit("192.168.1.100:9000");
    reveal_strlit("hf");
    reveal_strlit("my-token");
    lemma_not_blank("192.168.1.100:9000"@);
    lemma_not_blank("hf"@);
    lemma_not_blank("my-token"@);
}

proof fn lemma_not_blank(s: Seq<char>)
    requires
        s.len() > 0,
        !crate::text::is_space(s[0]),
        !crate::text::is_space(s.last()),
    ensures
        !is_blank(s),
{
    crate::text::trimmed_fixed(s);
}

// ---------------------------------------------------------------------------------------------
// What a configuration must be
// ---------------------------------------------------------------------------------------------

/// A text is blank where it is white space throughout.
pub proof fn blank_texts(s: Seq<char>, t: String)
    ensures
        is_blank(s) <==> forall|i: int| 0 <= i < s.len() ==> is_space(#[trigger] s[i]),
        is_set_blank(None) == false,
        is_set_blank(Some(t)) == is_blank(t@),
{
    trimming_takes_white_space_off(s);
    let (from, to) = choose|from: int, to: int|
        {
            &&& 0 <= from <= to <= s.len()
            &&& trimmed(s) == #[trigger] s.subrange(from, to)
            &&& forall|i: int| 0 <= i < from || to <= i < s.len() ==> is_space(#[trigger] s[i])
        };
    if from < to {
        assert(trimmed(s)[0] == s[from]);
    }
}

/// A configuration is taken where all of this holds: the log level is one of the five; polling has an
/// interval; nothing that names something is blank; what listens has a port; every rig that is given a
/// port has a name and a port above zero; gains are finite and not below zero; audio has a bitrate; and
/// a login, where there is one, has a passphrase and a time.
pub proof fn configurations_that_are_taken(c: ClientConfig)
    ensures
        config_error(c) is None <==> {
            &&& c.general.log_level matches Some(l) ==> l@ == "trace"@ || l@ == "debug"@ || l@
                == "info"@ || l@ == "warn"@ || l@ == "error"@
            &&& c.remote.poll_interval_ms > 0
            &&& c.remote.url matches Some(t) ==> !is_blank(t@)
            &&& c.remote.rig_id matches Some(t) ==> !is_blank(t@)
            &&& c.remote.auth.token matches Some(t) ==> !is_blank(t@)
            &&& c.frontends.http.enabled ==> c.frontends.http.port > 0
            &&& c.frontends.http.default_rig_id matches Some(t) ==> !is_blank(t@)
            &&& c.frontends.rigctl.enabled ==> c.frontends.rigctl.rig_ports.entries@.len() > 0
            &&& forall|i: int|
                0 <= i < c.frontends.rigctl.rig_ports.entries@.len() ==> !is_blank(
                    (#[trigger] c.frontends.rigctl.rig_ports.entries@[i]).0@,
                ) && c.frontends.rigctl.rig_ports.entries@[i].1 > 0
            &&& c.frontends.audio.enabled ==> c.frontends.audio.server_port > 0
            &&& forall|i: int|
                0 <= i < c.frontends.audio.rig_ports.entries@.len() ==> !is_blank(
                    (#[trigger] c.frontends.audio.rig_ports.entries@[i]).0@,
                ) && c.frontends.audio.rig_ports.entries@[i].1 > 0
            &&& is_gain(c.frontends.audio.bridge.rx_gain_bits)
            &&& is_gain(c.frontends.audio.bridge.tx_gain_bits)
            &&& c.frontends.audio.bridge.bitrate_bps > 0
            &&& forall|i: int|
                0 <= i < c.frontends.http_json.auth.tokens@.len() ==> !is_blank(
                    (#[trigger] c.frontends.http_json.auth.tokens@[i])@,
                )
            &&& c.frontends.http.auth.enabled ==> {
                &&& c.frontends.http.auth.rx_passphrase is Some
                    || c.frontends.http.auth.control_passphrase is Some
                &&& c.frontends.http.auth.rx_passphrase matches Some(t) ==> !is_blank(t@)
                &&& c.frontends.http.auth.control_passphrase matches Some(t) ==> !is_blank(t@)
                &&& c.frontends.http.auth.session_ttl_min > 0
            }
        },
{
    lemma_ports("[frontends.rigctl]"@, c.frontends.rigctl.rig_ports.entries@, 0);
    lemma_ports("[frontends.audio]"@, c.frontends.audio.rig_ports.entries@, 0);
}

proof fn lemma_ports(section: Seq<char>, ports: Seq<(String, u16)>, k: nat)
    ensures
        ports_error(section, ports, k) is None <==> forall|i: int|
            k <= i < ports.len() ==> !is_blank((#[trigger] ports[i]).0@) && ports[i].1 > 0,
    decreases ports.len() - k,
{
    if k < ports.len() {
        lemma_ports(section, ports, k + 1);
        assert(ports_error(section, ports, k) is None ==> !is_blank(ports[k as int].0@)
            && ports[k as int].1 > 0);
    }
}

/// The bits of a gain are those of a finite number that is not below zero: the sign may be set for
/// zero alone, and the exponent is not the highest.
pub proof fn bits_of_gains(bits: u32)
    ensures
        is_gain(bits) <==> bits < 0x7f80_0000 || bits == 0x8000_0000,
{
}

/// The first rig that has no name or no port is the one complained of.
pub proof fn the_first_bad_port_is_named(
    section: Seq<char>,
    ports: Seq<(String, u16)>,
    k: nat,
    i: int,
)
    requires
        k <= i < ports.len(),
        forall|j: int| k <= j < i ==> !is_blank((#[trigger] ports[j]).0@) && ports[j].1 > 0,
    ensures
        is_blank(ports[i].0@) ==> ports_error(section, ports, k) == Some(
            section + ".rig_ports keys must not be empty"@,
        ),
        !is_blank(ports[i].0@) && ports[i].1 == 0 ==> ports_error(section, ports, k) == Some(
            section + ".rig_ports[\""@ + ports[i].0@ + "\"] must be > 0"@,
        ),
    decreases i - k,
{
    if k < i {
        assert(!is_blank(ports[k as int].0@) && ports[k as int].1 > 0);
        the_first_bad_port_is_named(section, ports, k + 1, i);
    }
}

/// The sections are looked at in their order, and the first fault is the one complained of.
pub proof fn faults_in_the_order_of_the_sections(c: ClientConfig, a: Seq<char>, b: Option<Seq<char>>)
    ensures
        ({
            let log = log_level_error(opt_view(c.general.log_level));
            let remote = remote_error_of(c.remote);
            let listeners = listeners_error(c.frontends);
            let audio = audio_error(c.frontends.audio);
            &&& log is Some ==> config_error(c) == log
            &&& log is None && remote is Some ==> config_error(c) == remote
            &&& log is None && remote is None && listeners is Some ==> config_error(c) == listeners
            &&& log is None && remote is None && listeners is None && audio is Some ==> config_error(
                c,
            ) == audio
            &&& log is None && remote is None && listeners is None && audio is None && has_blank(
                c.frontends.http_json.auth.tokens@,
            ) ==> config_error(c) == Some(
                "[frontends.http_json.auth].tokens"@ + " must not contain empty tokens"@,
            )
            &&& log is None && remote is None && listeners is None && audio is None && !has_blank(
                c.frontends.http_json.auth.tokens@,
            ) ==> config_error(c) == http_auth_error(c.frontends.http.auth)
        }),
        first_of(Some(a), b) == Some(a),
        first_of(None, b) == b,
{
}

/// What is wrong with the general section, the servers and the login is said.
pub proof fn faults_of_servers_and_logins(
    level: Seq<char>,
    remote: RemoteConfig,
    auth: HttpAuthConfig,
)
    ensures
        log_level_error(None) is None,
        level != "trace"@ && level != "debug"@ && level != "info"@ && level != "warn"@ && level
            != "error"@ ==> log_level_error(Some(level)) == Some(
            "[general].log_level '"@ + level
                + "' is invalid (expected one of: trace, debug, info, warn, error)"@,
        ),
        remote.poll_interval_ms == 0 ==> remote_error_of(remote) == Some(
            "[remote].poll_interval_ms must be > 0"@,
        ),
        remote.poll_interval_ms > 0 && is_set_blank(remote.url) ==> remote_error_of(remote) == Some(
            "[remote].url must not be empty when set"@,
        ),
        remote.poll_interval_ms > 0 && !is_set_blank(remote.url) && is_set_blank(remote.rig_id)
            ==> remote_error_of(remote) == Some("[remote].rig_id must not be empty when set"@),
        remote.poll_interval_ms > 0 && !is_set_blank(remote.url) && !is_set_blank(remote.rig_id)
            && is_set_blank(remote.auth.token) ==> remote_error_of(remote) == Some(
            "[remote.auth].token must not be empty when set"@,
        ),
        auth.enabled && auth.rx_passphrase is None && auth.control_passphrase is None
            ==> http_auth_error(auth) == Some(
            "[frontends.http.auth] enabled=true requires at least one passphrase (rx_passphrase and/or control_passphrase)"@,
        ),
        auth.enabled && is_set_blank(auth.rx_passphrase) ==> http_auth_error(auth) == Some(
            "[frontends.http.auth].rx_passphrase must not be empty if set"@,
        ),
        auth.enabled && !is_set_blank(auth.rx_passphrase) && is_set_blank(auth.control_passphrase)
            ==> http_auth_error(auth) == Some(
            "[frontends.http.auth].control_passphrase must not be empty if set"@,
        ),
        auth.enabled && auth.rx_passphrase is Some && !is_set_blank(auth.rx_passphrase)
            && !is_set_blank(auth.control_passphrase) && auth.session_ttl_min == 0
            ==> http_auth_error(auth) == Some(
            "[frontends.http.auth].session_ttl_min must be > 0"@,
        ),
        !auth.enabled ==> http_auth_error(auth) is None,
{
}

/// What is wrong with the frontends is said.
pub proof fn faults_of_frontends(f: FrontendsConfig)
    ensures
        f.http.enabled && f.http.port == 0 ==> listeners_error(f) == Some(
            "[frontends.http].port must be > 0 when enabled"@,
        ),
        f.http.port > 0 && is_set_blank(f.http.default_rig_id) ==> listeners_error(f) == Some(
            "[frontends.http].default_rig_id must not be empty when set"@,
        ),
        f.http.port > 0 && f.http.default_rig_id is None && f.rigctl.enabled
            && f.rigctl.rig_ports.entries@.len() == 0 ==> listeners_error(f) == Some(
            "[frontends.rigctl].rig_ports must contain at least one rig when enabled"@,
        ),
        f.http.port > 0 && f.http.default_rig_id is None && f.rigctl.rig_ports.entries@.len() > 0
            ==> listeners_error(f) == ports_error(
            "[frontends.rigctl]"@,
            f.rigctl.rig_ports.entries@,
            0,
        ),
{
}

/// What is wrong with the audio is said.
pub proof fn faults_of_audio(audio: AudioClientConfig)
    ensures
        audio.enabled && audio.server_port == 0 ==> audio_error(audio) == Some(
            "[frontends.audio].server_port must be > 0 when enabled"@,
        ),
        ({
            let ports = ports_error("[frontends.audio]"@, audio.rig_ports.entries@, 0);
            &&& audio.server_port > 0 && ports is Some ==> audio_error(audio) == ports
            &&& audio.server_port > 0 && ports is None && !is_gain(audio.bridge.rx_gain_bits)
                ==> audio_error(audio) == Some(
                "[frontends.audio.bridge].rx_gain must be finite and >= 0"@,
            )
            &&& audio.server_port > 0 && ports is None && is_gain(audio.bridge.rx_gain_bits)
                && !is_gain(audio.bridge.tx_gain_bits) ==> audio_error(audio) == Some(
                "[frontends.audio.bridge].tx_gain must be finite and >= 0"@,
            )
            &&& audio.server_port > 0 && ports is None && is_gain(audio.bridge.rx_gain_bits)
                && is_gain(audio.bridge.tx_gain_bits) && audio.bridge.bitrate_bps == 0
                ==> audio_error(audio) == Some(
                "[frontends.audio.bridge].bitrate_bps must be > 0"@,
            )
        }),
{
}

/// Unless something else is said, the web and the JSON frontends listen on this machine alone, the web
/// frontend at 8080 and the JSON one at a free port; the audio of the server is taken from port 4531;
/// rigctl and the audio bridge are off; nobody logs in; and the server is polled every 750 ms.
pub proof fn what_is_set_unless_said(c: ClientConfig)
    requires
        c.is_default(),
    ensures
        c.general.callsign is Some && c.general.callsign->0@ == "N0CALL"@,
        c.general.log_level is None,
        c.remote.url is None && c.remote.rig_id is None && c.remote.auth.token is None,
        c.remote.poll_interval_ms == 750,
        c.frontends.http.enabled && c.frontends.http.port == 8080,
        c.frontends.http.listen@ == "127.0.0.1"@,
        c.frontends.http.default_rig_id is None && c.frontends.http.show_sdr_gain_control,
        !c.frontends.http.auth.enabled && c.frontends.http.auth.tx_access_control_enabled,
        c.frontends.http.auth.rx_passphrase is None && c.frontends.http.auth.control_passphrase is None,
        c.frontends.http.auth.session_ttl_min == 8 * 60 && !c.frontends.http.auth.cookie_secure,
        c.frontends.http.auth.cookie_same_site == CookieSameSite::Lax,
        !c.frontends.rigctl.enabled && c.frontends.rigctl.port == 4532,
        c.frontends.rigctl.listen@ == "127.0.0.1"@,
        c.frontends.rigctl.rig_ports.wf() && c.frontends.rigctl.rig_ports.entries@.len() == 0,
        c.frontends.http_json.enabled && c.frontends.http_json.port == 0,
        c.frontends.http_json.listen@ == "127.0.0.1"@,
        c.frontends.http_json.auth.tokens@.len() == 0,
        c.frontends.audio.enabled && c.frontends.audio.server_port == 4531,
        c.frontends.audio.server_url is None,
        c.frontends.audio.rig_ports.wf() && c.frontends.audio.rig_ports.entries@.len() == 0,
        c.frontends.audio.rig_urls.wf() && c.frontends.audio.rig_urls.entries@.len() == 0,
        !c.frontends.audio.bridge.enabled && c.frontends.audio.bridge.bitrate_bps == 192_000,
        c.frontends.audio.bridge.rx_output_device is None,
        c.frontends.audio.bridge.tx_input_device is None,
        c.frontends.audio.bridge.rx_gain_bits == 127 * 0x80_0000,
        c.frontends.audio.bridge.tx_gain_bits == 127 * 0x80_0000,
{
}

} // verus!
