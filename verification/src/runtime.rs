//! What the frontends know while they run, and what they tell browsers of it.
use vstd::prelude::*;

use crate::auth::{AuthConfig, SameSite};
use crate::config;
use crate::history::{decode_history_retention_min, retention_min_of};
use crate::sse::server_connected_for;
use crate::startup::{accepted_tokens, auth_tokens};
use crate::table::Table;
use crate::text::{list_clone, list_view, opt_clone, opt_view, own};

verus! {

// ---------------------------------------------------------------------------------------------
// Settings
// ---------------------------------------------------------------------------------------------

/// Who owns the station.
#[derive(Debug)]
pub struct OwnerInfo {
    pub callsign: Option<String>,
    pub website_url: Option<String>,
    pub website_name: Option<String>,
    pub ais_vessel_url_base: Option<String>,
}

impl Default for OwnerInfo {
    fn default() -> (res: Self)
        ensures
            res == (OwnerInfo {
                callsign: None,
                website_url: None,
                website_name: None,
                ais_vessel_url_base: None,
            }),
    {
        OwnerInfo {
            callsign: None,
            website_url: None,
            website_name: None,
            ais_vessel_url_base: None,
        }
    }
}

/// Who may use the frontends.
#[derive(Debug)]
pub struct HttpAuthConfig {
    pub enabled: bool,
    pub rx_passphrase: Option<String>,
    pub control_passphrase: Option<String>,
    pub tx_access_control_enabled: bool,
    pub session_ttl_secs: u64,
    pub cookie_secure: bool,
    pub cookie_same_site: String,
    /// The tokens that the JSON frontend accepts.
    pub tokens: Vec<String>,
}

impl Default for HttpAuthConfig {
    fn default() -> (res: Self)
        ensures
            !res.enabled,
            res.rx_passphrase is None,
            res.control_passphrase is None,
            res.tx_access_control_enabled,
            res.session_ttl_secs == 480 * 60,
            !res.cookie_secure,
            res.cookie_same_site@ == "Lax"@,
            res.tokens@.len() == 0,
    {
        HttpAuthConfig {
            enabled: false,
            rx_passphrase: None,
            control_passphrase: None,
            tx_access_control_enabled: true,
            session_ttl_secs: 480 * 60,
            cookie_secure: false,
            cookie_same_site: own("Lax"),
            tokens: Vec::new(),
        }
    }
}

/// The name of a cookie setting.
pub open spec fn same_site_name(s: config::CookieSameSite) -> Seq<char> {
    match s {
        config::CookieSameSite::Strict => "Strict"@,
        config::CookieSameSite::Lax => "Lax"@,
        config::CookieSameSite::Unrestricted => "None"@,
    }
}

/// The cookie setting with the name; `Lax` where there is none.
pub open spec fn same_site_of(name: Seq<char>) -> SameSite {
    if name == "Strict"@ {
        SameSite::Strict
    } else if name == "None"@ {
        SameSite::Unrestricted
    } else {
        SameSite::Lax
    }
}

impl HttpAuthConfig {
    /// The settings of a configuration, with the tokens of its JSON frontend.
    pub fn from_config(auth: &config::HttpAuthConfig, tokens: &Vec<String>) -> (res: Self)
        requires
            auth.session_ttl_min * 60 <= u64::MAX,
        ensures
            res.enabled == auth.enabled,
            opt_view(res.rx_passphrase) == opt_view(auth.rx_passphrase),
            opt_view(res.control_passphrase) == opt_view(auth.control_passphrase),
            res.tx_access_control_enabled == auth.tx_access_control_enabled,
            res.session_ttl_secs == auth.session_ttl_min * 60,
            res.cookie_secure == auth.cookie_secure,
            res.cookie_same_site@ == same_site_name(auth.cookie_same_site),
            list_view(res.tokens@) == accepted_tokens(list_view(tokens@)),
    {
        HttpAuthConfig {
            enabled: auth.enabled,
            rx_passphrase: opt_clone(&auth.rx_passphrase),
            control_passphrase: opt_clone(&auth.control_passphrase),
            tx_access_control_enabled: auth.tx_access_control_enabled,
            session_ttl_secs: auth.session_ttl(),
            cookie_secure: auth.cookie_secure,
            cookie_same_site: own(auth.cookie_same_site.as_str()),
            tokens: auth_tokens(tokens),
        }
    }

    /// The settings of the HTTP server.
    pub fn server_config(&self) -> (res: AuthConfig)
        ensures
            res.enabled == self.enabled,
            opt_view(res.rx_passphrase) == opt_view(self.rx_passphrase),
            opt_view(res.control_passphrase) == opt_view(self.control_passphrase),
            res.tx_access_control_enabled == self.tx_access_control_enabled,
            res.session_ttl == self.session_ttl_secs,
            res.cookie_secure == self.cookie_secure,
            res.cookie_same_site == same_site_of(self.cookie_same_site@),
    {
        AuthConfig::new(
            self.enabled,
            opt_clone(&self.rx_passphrase),
            opt_clone(&self.control_passphrase),
            self.tx_access_control_enabled,
            self.session_ttl_secs,
            self.cookie_secure,
            SameSite::from_name(self.cookie_same_site.as_str()),
        )
    }
}

/// The HTTP server sets the cookie attribute that is configured.
pub proof fn cookie_setting_arrives(s: config::CookieSameSite)
    ensures
        same_site_of(same_site_name(s)) == (match s {
            config::CookieSameSite::Strict => SameSite::Strict,
            config::CookieSameSite::Lax => SameSite::Lax,
            config::CookieSameSite::Unrestricted => SameSite::Unrestricted,
        }),
{
    reveal_strlit("Strict");
    reveal_strlit("Lax");
    reveal_strlit("None");
    assert("Lax"@.len() == 3 && "None"@.len() == 4 && "Strict"@.len() == 6);
}

/// What the pages show.
#[derive(Debug)]
pub struct HttpUiConfig {
    pub show_sdr_gain_control: bool,
    pub initial_map_zoom: u8,
    pub spectrum_coverage_margin_hz: u32,
    /// The part of the spectrum that can be used, as the bits of a single precision number.
    pub spectrum_usable_span_ratio_bits: u32,
    pub decode_history_retention_min: u64,
    pub decode_history_retention_min_by_rig: Table<u64>,
}

impl Default for HttpUiConfig {
    fn default() -> (res: Self)
        ensures
            res.show_sdr_gain_control,
            res.initial_map_zoom == 10,
            res.spectrum_coverage_margin_hz == 50_000,
            res.spectrum_usable_span_ratio_bits == 0x3f6b851f,
            res.decode_history_retention_min == 24 * 60,
            res.decode_history_retention_min_by_rig.wf(),
            res.decode_history_retention_min_by_rig@ == Map::<Seq<char>, u64>::empty(),
    {
        HttpUiConfig {
            show_sdr_gain_control: true,
            initial_map_zoom: 10,
            spectrum_coverage_margin_hz: 50_000,
            spectrum_usable_span_ratio_bits: 0x3f6b851f,
            decode_history_retention_min: 24 * 60,
            decode_history_retention_min_by_rig: Table::new(),
        }
    }
}

// ---------------------------------------------------------------------------------------------
// What browsers are told
// ---------------------------------------------------------------------------------------------

/// How many clients each frontend has.
#[derive(Clone, Copy, Debug, PartialEq, Eq, Structural)]
pub struct ClientCounts {
    pub http: usize,
    pub rigctl: usize,
    pub audio: usize,
}

/// The rigs and their servers.
#[derive(Debug)]
pub struct RigRouting {
    /// The selected rig.
    pub active_rig_id: Option<String>,
    /// The rigs that are known.
    pub rig_ids: Vec<String>,
    /// Whether any server is connected.
    pub server_connected: bool,
    /// Whether the server of a rig is connected.
    pub rig_server_connected: Table<bool>,
}

/// What browsers are told along with the state of a rig.
#[derive(Debug)]
pub struct FrontendMeta {
    pub http_clients: usize,
    pub rigctl_clients: usize,
    pub audio_clients: usize,
    pub rigctl_addr: Option<String>,
    pub active_remote: Option<String>,
    pub remotes: Vec<String>,
    pub owner_callsign: Option<String>,
    pub owner_website_url: Option<String>,
    pub owner_website_name: Option<String>,
    pub ais_vessel_url_base: Option<String>,
    pub show_sdr_gain_control: bool,
    pub initial_map_zoom: u8,
    pub spectrum_coverage_margin_hz: u32,
    /// The part of the spectrum that can be used, as the bits of a single precision number.
    pub spectrum_usable_span_ratio_bits: u32,
    pub decode_history_retention_min: u64,
    pub server_connected: bool,
}

/// Whether the server of a rig is connected: as the rig's own state says, or else as that of all
/// does.
pub open spec fn connected_for(
    rig_id: Option<Seq<char>>,
    per_rig: Map<Seq<char>, bool>,
    any: bool,
) -> bool {
    match rig_id {
        Some(r) => if per_rig.contains_key(r) {
            per_rig[r]
        } else {
            any
        },
        None => any,
    }
}

/// What browsers are told along with the state of a rig. The connection is that of the rig, and the
/// history's length that of the selected one.
pub fn frontend_meta(
    counts: ClientCounts,
    rigctl_addr: &Option<String>,
    routing: &RigRouting,
    owner: &OwnerInfo,
    ui: &HttpUiConfig,
    rig_id: &Option<String>,
) -> (res: FrontendMeta)
    requires
        routing.rig_server_connected.wf(),
        ui.decode_history_retention_min_by_rig.wf(),
    ensures
        res.http_clients == counts.http,
        res.rigctl_clients == counts.rigctl,
        res.audio_clients == counts.audio,
        opt_view(res.rigctl_addr) == opt_view(*rigctl_addr),
        opt_view(res.active_remote) == opt_view(routing.active_rig_id),
        list_view(res.remotes@) == list_view(routing.rig_ids@),
        opt_view(res.owner_callsign) == opt_view(owner.callsign),
        opt_view(res.owner_website_url) == opt_view(owner.website_url),
        opt_view(res.owner_website_name) == opt_view(owner.website_name),
        opt_view(res.ais_vessel_url_base) == opt_view(owner.ais_vessel_url_base),
        res.show_sdr_gain_control == ui.show_sdr_gain_control,
        res.initial_map_zoom == ui.initial_map_zoom,
        res.spectrum_coverage_margin_hz == ui.spectrum_coverage_margin_hz,
        res.spectrum_usable_span_ratio_bits == ui.spectrum_usable_span_ratio_bits,
        res.decode_history_retention_min == retention_min_of(
            ui.decode_history_retention_min,
            ui.decode_history_retention_min_by_rig@,
            opt_view(routing.active_rig_id),
        ),
        res.server_connected == connected_for(
            opt_view(*rig_id),
            routing.rig_server_connected@,
            routing.server_connected,
        ),
{
    FrontendMeta {
        http_clients: counts.http,
        rigctl_clients: counts.rigctl,
        audio_clients: counts.audio,
        rigctl_addr: opt_clone(rigctl_addr),
        active_remote: opt_clone(&routing.active_rig_id),
        remotes: list_clone(&routing.rig_ids),
        owner_callsign: opt_clone(&owner.callsign),
        owner_website_url: opt_clone(&owner.website_url),
        owner_website_name: opt_clone(&owner.website_name),
        ais_vessel_url_base: opt_clone(&owner.ais_vessel_url_base),
        show_sdr_gain_control: ui.show_sdr_gain_control,
        initial_map_zoom: ui.initial_map_zoom,
        spectrum_coverage_margin_hz: ui.spectrum_coverage_margin_hz,
        spectrum_usable_span_ratio_bits: ui.spectrum_usable_span_ratio_bits,
        decode_history_retention_min: decode_history_retention_min(
            ui.decode_history_retention_min,
            &ui.decode_history_retention_min_by_rig,
            &routing.active_rig_id,
        ),
        server_connected: server_connected_for(
            rig_id,
            &routing.rig_server_connected,
            routing.server_connected,
        ),
    }
}

/// When the server of one rig drops, the others are told the same as before.
pub proof fn rigs_drop_alone(
    rig: Seq<char>,
    other: Seq<char>,
    per_rig: Map<Seq<char>, bool>,
    any: bool,
    connected: bool,
)
    requires
        rig != other,
    ensures
        connected_for(Some(other), per_rig.insert(rig, connected), any) == connected_for(
            Some(other),
            per_rig,
            any,
        ),
        connected_for(Some(rig), per_rig.insert(rig, connected), any) == connected,
{
}

/// A rig is connected as is known of it, or else as is known of all.
pub proof fn connections_of_rigs(rig: Seq<char>, per_rig: Map<Seq<char>, bool>, any: bool)
    ensures
        connected_for(None, per_rig, any) == any,
        per_rig.contains_key(rig) ==> connected_for(Some(rig), per_rig, any) == per_rig[rig],
        !per_rig.contains_key(rig) ==> connected_for(Some(rig), per_rig, any) == any,
{
}

/// The names that the cookie policies go by; a name that is none of them stands for the lax one.
pub proof fn names_of_cookie_policies(name: Seq<char>)
    ensures
        same_site_name(config::CookieSameSite::Strict) == "Strict"@,
        same_site_name(config::CookieSameSite::Lax) == "Lax"@,
        same_site_name(config::CookieSameSite::Unrestricted) == "None"@,
        same_site_of(name) == SameSite::Strict <==> name == "Strict"@,
        same_site_of(name) == SameSite::Unrestricted <==> name == "None"@,
        name != "Strict"@ && name != "None"@ ==> same_site_of(name) == SameSite::Lax,
{
    reveal_strlit("Strict");
    reveal_strlit("None");
    assert("Strict"@.len() != "None"@.len());
}

} // verus!
