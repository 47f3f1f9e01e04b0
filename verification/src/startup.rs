//! What the client does when it starts: from the command line and the configuration to servers,
//! frontends and addresses.
use vstd::prelude::*;

use crate::audio_client::{AudioConnectConfig, AudioConnectView};
use crate::config::{ClientConfig, RemoteConfig};
use crate::endpoint::{
    address, endpoint_of, parse_audio_url, parse_remote_url, RemoteEndpoint, DEFAULT_AUDIO_PORT,
    DEFAULT_REMOTE_PORT,
};
use crate::order::{
    less_text, text_less, text_less_irreflexive, text_less_total, text_less_transitive,
};
use crate::registry::{
    is_name_list, normal_name, normalize_name, FrontendRegistrationContext,
};
use crate::remote::ShortNames;
use crate::table::{key_index, Table};
use crate::text::{
    join2, join3, list_view, opt_clone, opt_eq, opt_view, own, str_eq,
};

verus! {

// ---------------------------------------------------------------------------------------------
// Options
// ---------------------------------------------------------------------------------------------

/// What the command line says.
#[derive(Debug)]
pub struct CliOptions {
    pub url: Option<String>,
    pub token: Option<String>,
    pub poll_interval_ms: Option<u64>,
    pub rig_id: Option<String>,
    pub frontends: Option<Vec<String>>,
    pub http_listen: Option<String>,
    pub http_port: Option<u16>,
    pub rigctl_listen: Option<String>,
    pub http_json_listen: Option<String>,
    pub http_json_port: Option<u16>,
    pub callsign: Option<String>,
}

/// The first of two that is there.
pub open spec fn either(a: Option<Seq<char>>, b: Option<Seq<char>>) -> Option<Seq<char>> {
    match a {
        Some(_) => a,
        None => b,
    }
}

fn first_set(a: &Option<String>, b: &Option<String>) -> (res: Option<String>)
    ensures
        opt_view(res) == either(opt_view(*a), opt_view(*b)),
{
    match a {
        Some(s) => Some(s.clone()),
        None => opt_clone(b),
    }
}

/// The call sign that is shown: the one on the command line, or else the configured one.
pub fn callsign(cli: &CliOptions, cfg: &ClientConfig) -> (res: Option<String>)
    ensures
        opt_view(res) == either(opt_view(cli.callsign), opt_view(cfg.general.callsign)),
{
    first_set(&cli.callsign, &cfg.general.callsign)
}

/// The tokens that the JSON frontend accepts: the configured ones that are not empty.
pub open spec fn accepted_tokens(tokens: Seq<Seq<char>>) -> Seq<Seq<char>> {
    tokens.filter(|t: Seq<char>| t.len() > 0)
}

/// The tokens that the JSON frontend accepts.
pub fn auth_tokens(tokens: &Vec<String>) -> (res: Vec<String>)
    ensures
        list_view(res@) == accepted_tokens(list_view(tokens@)),
{
    let ghost tv = list_view(tokens@);
    let mut out: Vec<String> = Vec::new();
    let mut i: usize = 0;
    proof {
        reveal(Seq::filter);
        assert(list_view(out@) =~= accepted_tokens(tv.take(0)));
    }
    while i < tokens.len()
        invariant
            i <= tokens@.len(),
            tv == list_view(tokens@),
            list_view(out@) == accepted_tokens(tv.take(i as int)),
        decreases tokens@.len() - i,
    {
        let ghost before = list_view(out@);
        proof {
            reveal(Seq::filter);
            assert(tv.take(i + 1).drop_last() =~= tv.take(i as int));
            assert(tv.take(i + 1).last() == tokens@[i as int]@);
        }
        if !tokens[i].as_str().is_empty() {
            out.push(tokens[i].clone());
            assert(list_view(out@) =~= before.push(tokens@[i as int]@));
        }
        i = i + 1;
    }
    assert(tv.take(i as int) =~= tv);
    out
}

// ---------------------------------------------------------------------------------------------
// Servers
// ---------------------------------------------------------------------------------------------

/// A server to connect to, with the local name of the rig on it.
#[derive(Debug)]
pub struct RemoteEntry {
    pub name: String,
    pub url: String,
    pub rig_id: Option<String>,
    pub token: Option<String>,
    pub poll_interval_ms: u64,
}

/// What an entry says.
#[verifier::ext_equal]
pub struct RemoteEntryView {
    pub name: Seq<char>,
    pub url: Seq<char>,
    pub rig_id: Option<Seq<char>>,
    pub token: Option<Seq<char>>,
    pub poll_interval_ms: u64,
}

impl View for RemoteEntry {
    type V = RemoteEntryView;

    open spec fn view(&self) -> RemoteEntryView {
        RemoteEntryView {
            name: self.name@,
            url: self.url@,
            rig_id: opt_view(self.rig_id),
            token: opt_view(self.token),
            poll_interval_ms: self.poll_interval_ms,
        }
    }
}

/// What entries say.
pub open spec fn remote_views(entries: Seq<RemoteEntry>) -> Seq<RemoteEntryView> {
    entries.map_values(|e: RemoteEntry| e@)
}

/// An entry for a URL, named after its rig.
pub open spec fn named_after_rig(
    url: Seq<char>,
    rig_id: Option<Seq<char>>,
    token: Option<Seq<char>>,
    poll_interval_ms: u64,
) -> RemoteEntryView {
    RemoteEntryView {
        name: match rig_id {
            Some(r) => r,
            None => "default"@,
        },
        url,
        rig_id,
        token,
        poll_interval_ms,
    }
}

fn entry_named_after_rig(
    url: &str,
    rig_id: Option<String>,
    token: Option<String>,
    poll_interval_ms: u64,
) -> (res: RemoteEntry)
    ensures
        res@ == named_after_rig(url@, opt_view(rig_id), opt_view(token), poll_interval_ms),
{
    let name = match &rig_id {
        Some(r) => r.clone(),
        None => own("default"),
    };
    RemoteEntry { name, url: own(url), rig_id, token, poll_interval_ms }
}

/// The servers to connect to: the one on the command line, or else the configured one. What the
/// command line leaves open is taken from the configuration.
pub open spec fn remotes_of(cli: CliOptions, remote: RemoteConfig) -> Seq<RemoteEntryView> {
    match cli.url {
        Some(url) => seq![
            named_after_rig(
                url@,
                either(opt_view(cli.rig_id), opt_view(remote.rig_id)),
                either(opt_view(cli.token), opt_view(remote.auth.token)),
                match cli.poll_interval_ms {
                    Some(ms) => ms,
                    None => remote.poll_interval_ms,
                },
            ),
        ],
        None => match remote.url {
            Some(url) => seq![
                named_after_rig(
                    url@,
                    opt_view(remote.rig_id),
                    opt_view(remote.auth.token),
                    remote.poll_interval_ms,
                ),
            ],
            None => Seq::empty(),
        },
    }
}

/// The servers to connect to. There must be one.
pub fn resolve_remotes(cli: &CliOptions, remote: &RemoteConfig) -> (res: Result<
    Vec<RemoteEntry>,
    String,
>)
    ensures
        match res {
            Ok(entries) => remote_views(entries@) == remotes_of(*cli, *remote) && entries@.len()
                > 0,
            Err(m) => remotes_of(*cli, *remote).len() == 0 && m@
                == "No remote servers configured. Use --url or add [[remotes]] entries in config."@,
        },
{
    let mut out: Vec<RemoteEntry> = Vec::new();
    match &cli.url {
        Some(url) => {
            let rig_id = first_set(&cli.rig_id, &remote.rig_id);
            let token = first_set(&cli.token, &remote.auth.token);
            let ms: u64 = match cli.poll_interval_ms {
                Some(ms) => ms,
                None => remote.poll_interval_ms,
            };
            out.push(entry_named_after_rig(url.as_str(), rig_id, token, ms));
        },
        None => {
            match &remote.url {
                Some(url) => {
                    let rig_id = opt_clone(&remote.rig_id);
                    let token = opt_clone(&remote.auth.token);
                    out.push(
                        entry_named_after_rig(url.as_str(), rig_id, token, remote.poll_interval_ms),
                    );
                },
                None => {
                    return Err(
                        own(
                            "No remote servers configured. Use --url or add [[remotes]] entries in config.",
                        ),
                    );
                },
            }
        },
    }
    assert(remote_views(out@) =~= remotes_of(*cli, *remote));
    Ok(out)
}

/// The rig that is selected at first: the one on the command line, or else the configured one, or
/// else that of the first server.
pub fn initial_rig(cli: &CliOptions, cfg: &ClientConfig, remotes: &Vec<RemoteEntry>) -> (res:
    Option<String>)
    ensures
        opt_view(res) == either(
            opt_view(cli.rig_id),
            either(
                opt_view(cfg.frontends.http.default_rig_id),
                if remotes@.len() > 0 {
                    Some(remotes@[0].name@)
                } else {
                    None
                },
            ),
        ),
{
    match first_set(&cli.rig_id, &cfg.frontends.http.default_rig_id) {
        Some(r) => Some(r),
        None => if remotes.len() > 0 {
            Some(remotes[0].name.clone())
        } else {
            None
        },
    }
}

/// The addresses of the servers from the one at `k` on, up to the first URL that cannot be read.
pub open spec fn endpoints_of(entries: Seq<RemoteEntryView>, k: nat) -> Result<
    Seq<(Seq<char>, u16)>,
    Seq<char>,
>
    decreases entries.len() - k,
{
    if k >= entries.len() {
        Ok(Seq::empty())
    } else {
        match endpoint_of(entries[k as int].url, DEFAULT_REMOTE_PORT, "remote"@) {
            Ok(ep) => match endpoints_of(entries, k + 1) {
                Ok(rest) => Ok(seq![ep] + rest),
                Err(m) => Err(m),
            },
            Err(m) => Err(
                "Invalid URL for remote '"@ + entries[k as int].name + "': "@ + m,
            ),
        }
    }
}

/// The hosts and ports of endpoints.
pub open spec fn endpoint_views(eps: Seq<RemoteEndpoint>) -> Seq<(Seq<char>, u16)> {
    eps.map_values(|e: RemoteEndpoint| (e.host@, e.port))
}

/// Reads the URLs of all servers.
pub fn parse_endpoints(entries: &Vec<RemoteEntry>) -> (res: Result<Vec<RemoteEndpoint>, String>)
    ensures
        (match res {
            Ok(eps) => Ok(endpoint_views(eps@)),
            Err(m) => Err(m@),
        }) == endpoints_of(remote_views(entries@), 0),
{
    let ghost ev = remote_views(entries@);
    let mut out: Vec<RemoteEndpoint> = Vec::new();
    let mut k: usize = 0;
    proof {
        match endpoints_of(ev, 0) {
            Ok(rest) => {
                assert(endpoint_views(out@) + rest =~= rest);
            },
            Err(_) => {},
        }
    }
    while k < entries.len()
        invariant
            k <= entries@.len(),
            ev == remote_views(entries@),
            endpoints_of(ev, 0) == (match endpoints_of(ev, k as nat) {
                Ok(rest) => Ok(endpoint_views(out@) + rest),
                Err(m) => Err(m),
            }),
        decreases entries@.len() - k,
    {
        let ghost before = endpoint_views(out@);
        assert(ev[k as int] == entries@[k as int]@);
        match parse_remote_url(entries[k].url.as_str()) {
            Ok(ep) => {
                let ghost pair = (ep.host@, ep.port);
                out.push(ep);
                proof {
                    assert(endpoint_views(out@) =~= before.push(pair));
                    match endpoints_of(ev, (k + 1) as nat) {
                        Ok(rest) => {
                            assert(before + (seq![pair] + rest) =~= before.push(pair) + rest);
                        },
                        Err(_) => {},
                    }
                }
            },
            Err(m) => {
                let head = join3("Invalid URL for remote '", entries[k].name.as_str(), "': ");
                return Err(join2(head.as_str(), m.as_str()));
            },
        }
        k = k + 1;
    }
    assert(endpoint_views(out@) + Seq::<(Seq<char>, u16)>::empty() =~= endpoint_views(out@));
    Ok(out)
}

// ---------------------------------------------------------------------------------------------
// Servers that share a connection
// ---------------------------------------------------------------------------------------------

/// What a connection is made with: an address, and a token where one is needed.
#[verifier::ext_equal]
pub struct ServerKey {
    pub addr: Seq<char>,
    pub token: Option<Seq<char>>,
}

/// The order of connections: by address, then by token, none first.
pub open spec fn key_less(a: ServerKey, b: ServerKey) -> bool {
    text_less(a.addr, b.addr) || (a.addr == b.addr && match (a.token, b.token) {
        (None, Some(_)) => true,
        (Some(x), Some(y)) => text_less(x, y),
        _ => false,
    })
}

/// Entries that share a connection.
#[derive(Debug)]
pub struct ServerGroup {
    pub addr: String,
    pub token: Option<String>,
    /// The positions of the entries, in order.
    pub members: Vec<usize>,
}

impl ServerGroup {
    /// What the connection is made with.
    pub open spec fn key(&self) -> ServerKey {
        ServerKey { addr: self.addr@, token: opt_view(self.token) }
    }
}

/// The positions, among the first `n`, of the entries with the key.
pub open spec fn members_of(keys: Seq<ServerKey>, key: ServerKey, n: int) -> Seq<usize>
    decreases n,
{
    if n <= 0 {
        Seq::empty()
    } else if keys[n - 1] == key {
        members_of(keys, key, n - 1).push((n - 1) as usize)
    } else {
        members_of(keys, key, n - 1)
    }
}

/// Whether the groups are those of the first `n` entries: in the order of their keys, each with all
/// the entries of its key and no other, and every entry in one.
pub open spec fn is_grouping(keys: Seq<ServerKey>, n: int, groups: Seq<ServerGroup>) -> bool {
    &&& forall|g: int|
        0 <= g < groups.len() ==> (#[trigger] groups[g]).members@ == members_of(
            keys,
            groups[g].key(),
            n,
        ) && groups[g].members@.len() > 0
    &&& forall|a: int, b: int|
        0 <= a < b < groups.len() ==> key_less(
            (#[trigger] groups[a]).key(),
            (#[trigger] groups[b]).key(),
        )
    &&& forall|i: int|
        0 <= i < n ==> exists|g: int|
            0 <= g < groups.len() && (#[trigger] groups[g]).key() == #[trigger] keys[i]
}

fn less_key(addr: &str, token: &Option<String>, other: &ServerGroup) -> (res: bool)
    ensures
        res == key_less(ServerKey { addr: addr@, token: opt_view(*token) }, other.key()),
{
    if less_text(addr, other.addr.as_str()) {
        return true;
    }
    str_eq(addr, other.addr.as_str()) && match (token, &other.token) {
        (None, Some(_)) => true,
        (Some(x), Some(y)) => less_text(x.as_str(), y.as_str()),
        _ => false,
    }
}

proof fn lemma_key_total(a: ServerKey, b: ServerKey)
    ensures
        a == b || key_less(a, b) || key_less(b, a),
{
    text_less_total(a.addr, b.addr);
    match (a.token, b.token) {
        (Some(x), Some(y)) => {
            text_less_total(x, y);
        },
        _ => {},
    }
}

proof fn lemma_key_transitive(a: ServerKey, b: ServerKey, c: ServerKey)
    requires
        key_less(a, b),
        key_less(b, c),
    ensures
        key_less(a, c),
{
    if text_less(a.addr, b.addr) && text_less(b.addr, c.addr) {
        text_less_transitive(a.addr, b.addr, c.addr);
    }
    match (a.token, b.token, c.token) {
        (Some(x), Some(y), Some(z)) => {
            if text_less(x, y) && text_less(y, z) {
                text_less_transitive(x, y, z);
            }
        },
        _ => {},
    }
}

proof fn lemma_no_members(keys: Seq<ServerKey>, key: ServerKey, n: int)
    requires
        forall|i: int| 0 <= i < n ==> #[trigger] keys[i] != key,
    ensures
        members_of(keys, key, n).len() == 0,
    decreases n,
{
    if n > 0 {
        lemma_no_members(keys, key, n - 1);
    }
}

/// The connection that each entry needs.
pub open spec fn server_keys(entries: Seq<RemoteEntryView>, eps: Seq<(Seq<char>, u16)>) -> Seq<
    ServerKey,
> {
    Seq::new(
        entries.len(),
        |i: int| ServerKey { addr: address(eps[i].0, eps[i].1), token: entries[i].token },
    )
}

/// The entries, grouped so that those with the same address and token share a connection.
pub fn group_servers(entries: &Vec<RemoteEntry>, eps: &Vec<RemoteEndpoint>) -> (res: Vec<
    ServerGroup,
>)
    requires
        entries@.len() == eps@.len(),
    ensures
        is_grouping(
            server_keys(remote_views(entries@), endpoint_views(eps@)),
            entries@.len() as int,
            res@,
        ),
        forall|g: int, i: int|
            0 <= g < res@.len() && 0 <= i < (#[trigger] res@[g]).members@.len() ==> (
            #[trigger] res@[g].members@[i]) < entries@.len(),
{
    let ghost keys = server_keys(remote_views(entries@), endpoint_views(eps@));
    let mut groups: Vec<ServerGroup> = Vec::new();
    let mut i: usize = 0;
    while i < entries.len()
        invariant
            i <= entries@.len(),
            entries@.len() == eps@.len(),
            keys == server_keys(remote_views(entries@), endpoint_views(eps@)),
            is_grouping(keys, i as int, groups@),
        decreases entries@.len() - i,
    {
        let addr = eps[i].connect_addr();
        let token = opt_clone(&entries[i].token);
        let ghost key = keys[i as int];
        assert(remote_views(entries@)[i as int] == entries@[i as int]@);
        assert(endpoint_views(eps@)[i as int] == (eps@[i as int].host@, eps@[i as int].port));
        assert(key == (ServerKey { addr: addr@, token: opt_view(token) }));
        let mut g: usize = 0;
        while g < groups.len() && !(str_eq(addr.as_str(), groups[g].addr.as_str()) && opt_eq(
            &token,
            &groups[g].token,
        ))
            invariant
                g <= groups@.len(),
                key == (ServerKey { addr: addr@, token: opt_view(token) }),
                forall|h: int| 0 <= h < g ==> (#[trigger] groups@[h]).key() != key,
            decreases groups@.len() - g,
        {
            g = g + 1;
        }
        if g < groups.len() {
            let ghost before = groups@;
            let mut members: Vec<usize> = Vec::new();
            let mut m: usize = 0;
            while m < groups[g].members.len()
                invariant
                    g < groups@.len(),
                    m <= groups@[g as int].members@.len(),
                    members@ == groups@[g as int].members@.take(m as int),
                decreases groups@[g as int].members@.len() - m,
            {
                members.push(groups[g].members[m]);
                m = m + 1;
                assert(members@ =~= groups@[g as int].members@.take(m as int));
            }
            members.push(i);
            groups.set(g, ServerGroup { addr, token, members });
            proof {
                lemma_joined(keys, i as int, before, groups@, g as int);
            }
        } else {
            let mut p: usize = 0;
            while p < groups.len() && !less_key(addr.as_str(), &token, &groups[p])
                invariant
                    p <= groups@.len(),
                    key == (ServerKey { addr: addr@, token: opt_view(token) }),
                    forall|h: int| 0 <= h < groups@.len() ==> (#[trigger] groups@[h]).key() != key,
                    forall|h: int| 0 <= h < p ==> key_less((#[trigger] groups@[h]).key(), key),
                decreases groups@.len() - p,
            {
                proof {
                    lemma_key_total(groups@[p as int].key(), key);
                }
                p = p + 1;
            }
            let ghost before = groups@;
            let mut members: Vec<usize> = Vec::new();
            members.push(i);
            groups.insert(p, ServerGroup { addr, token, members });
            proof {
                lemma_added(keys, i as int, before, groups@, p as int);
            }
        }
        i = i + 1;
    }
    assert forall|g: int, i: int|
        0 <= g < groups@.len() && 0 <= i < (#[trigger] groups@[g]).members@.len() implies (
    #[trigger] groups@[g].members@[i]) < entries@.len() by {
        lemma_members_below(keys, groups@[g].key(), entries@.len() as int);
    }
    groups
}

proof fn lemma_joined(
    keys: Seq<ServerKey>,
    i: int,
    before: Seq<ServerGroup>,
    after: Seq<ServerGroup>,
    g: int,
)
    requires
        0 <= i <= usize::MAX,
        is_grouping(keys, i, before),
        0 <= g < before.len(),
        after.len() == before.len(),
        forall|h: int| 0 <= h < before.len() && h != g ==> #[trigger] after[h] == before[h],
        after[g].key() == keys[i],
        before[g].key() == keys[i],
        after[g].members@ =~= before[g].members@.push(i as usize),
    ensures
        is_grouping(keys, i + 1, after),
{
    assert forall|h: int| 0 <= h < after.len() implies (#[trigger] after[h]).members@ == members_of(
        keys,
        after[h].key(),
        i + 1,
    ) && after[h].members@.len() > 0 by {
        if h != g {
            assert(after[h] == before[h]);
            if h < g {
                assert(key_less(before[h].key(), before[g].key()));
            } else {
                assert(key_less(before[g].key(), before[h].key()));
            }
            lemma_key_irreflexive(keys[i]);
        }
    }
    assert forall|a: int, b: int| 0 <= a < b < after.len() implies key_less(
        (#[trigger] after[a]).key(),
        (#[trigger] after[b]).key(),
    ) by {
        assert(after[a].key() == before[a].key());
        assert(after[b].key() == before[b].key());
    }
    assert forall|j: int| 0 <= j < i + 1 implies exists|h: int|
        0 <= h < after.len() && (#[trigger] after[h]).key() == #[trigger] keys[j] by {
        if j < i {
            let h = choose|h: int|
                0 <= h < before.len() && (#[trigger] before[h]).key() == keys[j];
            assert(after[h].key() == before[h].key());
        } else {
            assert(after[g].key() == keys[j]);
        }
    }
}

proof fn lemma_key_irreflexive(a: ServerKey)
    ensures
        !key_less(a, a),
{
    text_less_irreflexive(a.addr);
    match a.token {
        Some(t) => {
            text_less_irreflexive(t);
        },
        None => {},
    }
}

proof fn lemma_added(
    keys: Seq<ServerKey>,
    i: int,
    before: Seq<ServerGroup>,
    after: Seq<ServerGroup>,
    p: int,
)
    requires
        0 <= i <= usize::MAX,
        is_grouping(keys, i, before),
        0 <= p <= before.len(),
        after.len() == before.len() + 1,
        forall|h: int| 0 <= h < p ==> #[trigger] after[h] == before[h],
        forall|h: int| p < h < after.len() ==> #[trigger] after[h] == before[h - 1],
        after[p].key() == keys[i],
        after[p].members@ =~= seq![i as usize],
        forall|h: int| 0 <= h < before.len() ==> (#[trigger] before[h]).key() != keys[i],
        forall|h: int| 0 <= h < p ==> key_less((#[trigger] before[h]).key(), keys[i]),
        p < before.len() ==> key_less(keys[i], before[p].key()),
    ensures
        is_grouping(keys, i + 1, after),
{
    let key = keys[i];
    assert forall|j: int| 0 <= j < i implies #[trigger] keys[j] != key by {
        let h = choose|h: int| 0 <= h < before.len() && (#[trigger] before[h]).key() == keys[j];
    }
    lemma_no_members(keys, key, i);
    assert(members_of(keys, key, i) =~= Seq::<usize>::empty());
    assert forall|h: int| 0 <= h < after.len() implies (#[trigger] after[h]).members@ == members_of(
        keys,
        after[h].key(),
        i + 1,
    ) && after[h].members@.len() > 0 by {
        if h == p {
            assert(after[p].members@ =~= members_of(keys, key, i + 1));
        } else {
            let o = if h < p {
                h
            } else {
                h - 1
            };
            assert(after[h] == before[o]);
        }
    }
    assert forall|a: int, b: int| 0 <= a < b < after.len() implies key_less(
        (#[trigger] after[a]).key(),
        (#[trigger] after[b]).key(),
    ) by {
        let oa = if a < p {
            a
        } else {
            a - 1
        };
        let ob = if b < p {
            b
        } else {
            b - 1
        };
        if a != p {
            assert(after[a] == before[oa]);
        }
        if b != p {
            assert(after[b] == before[ob]);
        }
        if a != p && b != p {
            assert(key_less(before[oa].key(), before[ob].key()));
        } else if a == p {
            if ob > p {
                assert(key_less(before[p].key(), before[ob].key()));
                lemma_key_transitive(key, before[p].key(), before[ob].key());
            }
        } else {
            assert(key_less(before[a].key(), key));
        }
    }
    assert forall|j: int| 0 <= j < i + 1 implies exists|h: int|
        0 <= h < after.len() && (#[trigger] after[h]).key() == #[trigger] keys[j] by {
        if j < i {
            let h = choose|h: int|
                0 <= h < before.len() && (#[trigger] before[h]).key() == keys[j];
            let n = if h < p {
                h
            } else {
                h + 1
            };
            assert(after[n] == before[h]);
        } else {
            assert(after[p].key() == keys[j]);
        }
    }
}

/// Whether an entry is in a group is decided by its address and token alone: entries share a
/// connection exactly when those are the same.
pub proof fn grouped_by_server(keys: Seq<ServerKey>, n: int, groups: Seq<ServerGroup>, g: int, i: int)
    requires
        is_grouping(keys, n, groups),
        0 <= g < groups.len(),
        0 <= i < n <= usize::MAX,
    ensures
        groups[g].members@.contains(i as usize) <==> keys[i] == groups[g].key(),
{
    lemma_member(keys, groups[g].key(), n, i);
}

proof fn lemma_member(keys: Seq<ServerKey>, key: ServerKey, n: int, i: int)
    requires
        0 <= i < n <= usize::MAX,
    ensures
        members_of(keys, key, n).contains(i as usize) <==> keys[i] == key,
    decreases n,
{
    let before = members_of(keys, key, n - 1);
    let now = members_of(keys, key, n);
    if i < n - 1 {
        lemma_member(keys, key, n - 1, i);
        if keys[n - 1] == key {
            if before.contains(i as usize) {
                let j = before.index_of(i as usize);
                assert(now[j] == i as usize);
            }
            if now.contains(i as usize) {
                let j = now.index_of(i as usize);
                assert(j < before.len());
                assert(before[j] == i as usize);
            }
        }
    } else {
        if keys[i] == key {
            assert(now.last() == i as usize);
        } else {
            lemma_members_below(keys, key, n - 1);
            if now.contains(i as usize) {
                let j = now.index_of(i as usize);
                assert(now[j] < n - 1);
            }
        }
    }
}

proof fn lemma_members_below(keys: Seq<ServerKey>, key: ServerKey, n: int)
    requires
        0 <= n <= usize::MAX,
    ensures
        forall|j: int|
            0 <= j < members_of(keys, key, n).len() ==> (#[trigger] members_of(keys, key, n)[j])
                < n,
    decreases n,
{
    if n > 0 {
        let before = members_of(keys, key, n - 1);
        let now = members_of(keys, key, n);
        lemma_members_below(keys, key, n - 1);
        assert forall|j: int| 0 <= j < now.len() implies (#[trigger] now[j]) < n by {
            if j < before.len() {
                assert(now[j] == before[j]);
            }
        }
    }
}

/// The shortest poll interval of the first `n` members.
pub open spec fn shortest(entries: Seq<RemoteEntryView>, members: Seq<usize>, n: int) -> u64
    decreases n,
{
    if n <= 0 {
        750
    } else if n == 1 {
        entries[members[0] as int].poll_interval_ms
    } else {
        let before = shortest(entries, members, n - 1);
        let last = entries[members[n - 1] as int].poll_interval_ms;
        if last < before {
            last
        } else {
            before
        }
    }
}

/// How often a server is asked: as often as the most demanding of its entries wants.
pub fn group_poll_interval(entries: &Vec<RemoteEntry>, members: &Vec<usize>) -> (res: u64)
    requires
        forall|i: int| 0 <= i < members@.len() ==> (#[trigger] members@[i]) < entries@.len(),
    ensures
        res == shortest(remote_views(entries@), members@, members@.len() as int),
{
    let ghost ev = remote_views(entries@);
    if members.len() == 0 {
        return 750;
    }
    assert(ev[members@[0] as int] == entries@[members@[0] as int]@);
    let mut best: u64 = entries[members[0]].poll_interval_ms;
    let mut i: usize = 1;
    while i < members.len()
        invariant
            1 <= i <= members@.len(),
            ev == remote_views(entries@),
            forall|i: int| 0 <= i < members@.len() ==> (#[trigger] members@[i]) < entries@.len(),
            best == shortest(ev, members@, i as int),
        decreases members@.len() - i,
    {
        assert(ev[members@[i as int] as int] == entries@[members@[i as int] as int]@);
        let ms: u64 = entries[members[i]].poll_interval_ms;
        if ms < best {
            best = ms;
        }
        i = i + 1;
    }
    best
}

/// The shortest interval is no longer than that of any member.
pub proof fn shortest_is_least(entries: Seq<RemoteEntryView>, members: Seq<usize>, n: int, i: int)
    requires
        0 <= i < n <= members.len(),
    ensures
        shortest(entries, members, n) <= entries[members[i] as int].poll_interval_ms,
    decreases n,
{
    if i < n - 1 {
        shortest_is_least(entries, members, n - 1, i);
    }
}

/// The local name that a rig id is given by the first `n` members: the last of them with that id
/// counts.
pub open spec fn name_given(
    entries: Seq<RemoteEntryView>,
    members: Seq<usize>,
    rig_id: Option<Seq<char>>,
    n: int,
) -> Option<Seq<char>>
    decreases n,
{
    if n <= 0 {
        None
    } else if entries[members[n - 1] as int].rig_id == rig_id {
        Some(entries[members[n - 1] as int].name)
    } else {
        name_given(entries, members, rig_id, n - 1)
    }
}

/// The local names of the rigs of a server.
pub fn group_names(entries: &Vec<RemoteEntry>, members: &Vec<usize>) -> (res: ShortNames)
    requires
        forall|i: int| 0 <= i < members@.len() ==> (#[trigger] members@[i]) < entries@.len(),
    ensures
        res.wf(),
        opt_view(res.default) == name_given(
            remote_views(entries@),
            members@,
            None,
            members@.len() as int,
        ),
        forall|id: Seq<char>| #[trigger]
            res.explicit(id) == name_given(
                remote_views(entries@),
                members@,
                Some(id),
                members@.len() as int,
            ),
{
    let ghost ev = remote_views(entries@);
    let mut names = ShortNames::new();
    let mut i: usize = 0;
    assert forall|id: Seq<char>| #[trigger] names.explicit(id) == name_given(
        ev,
        members@,
        Some(id),
        0,
    ) by {
        if names.by_rig@.contains_key(id) {
            let j = key_index(names.by_rig.entries@, id);
            assert(names.by_rig.entries@[j].0@ == id);
        }
    }
    while i < members.len()
        invariant
            i <= members@.len(),
            ev == remote_views(entries@),
            forall|i: int| 0 <= i < members@.len() ==> (#[trigger] members@[i]) < entries@.len(),
            names.wf(),
            opt_view(names.default) == name_given(ev, members@, None, i as int),
            forall|id: Seq<char>| #[trigger]
                names.explicit(id) == name_given(ev, members@, Some(id), i as int),
        decreases members@.len() - i,
    {
        let entry = &entries[members[i]];
        assert(ev[members@[i as int] as int] == entry@);
        let ghost before = names;
        match &entry.rig_id {
            Some(id) => {
                names.by_rig.insert(id.as_str(), entry.name.clone());
                assert forall|other: Seq<char>| #[trigger] names.explicit(other) == name_given(
                    ev,
                    members@,
                    Some(other),
                    i + 1,
                ) by {
                    assert(before.explicit(other) == name_given(
                        ev,
                        members@,
                        Some(other),
                        i as int,
                    ));
                }
            },
            None => {
                names.default = Some(entry.name.clone());
                assert forall|other: Seq<char>| #[trigger] names.explicit(other) == name_given(
                    ev,
                    members@,
                    Some(other),
                    i + 1,
                ) by {
                    assert(before.explicit(other) == name_given(
                        ev,
                        members@,
                        Some(other),
                        i as int,
                    ));
                }
            },
        }
        i = i + 1;
    }
    names
}

// ---------------------------------------------------------------------------------------------
// Routing
// ---------------------------------------------------------------------------------------------

/// The connection that a request goes to: that of the rig it names, or else of the selected rig, or
/// else any.
pub open spec fn route_of(
    routes: Seq<(String, usize)>,
    by_name: Map<Seq<char>, usize>,
    target: Option<Seq<char>>,
) -> Option<usize> {
    match target {
        Some(name) => if by_name.contains_key(name) {
            Some(by_name[name])
        } else if routes.len() > 0 {
            Some(routes[0].1)
        } else {
            None
        },
        None => if routes.len() > 0 {
            Some(routes[0].1)
        } else {
            None
        },
    }
}

/// The connection that a request goes to, or the text of the error.
pub fn route_request(
    routes: &Table<usize>,
    rig_id_override: &Option<String>,
    selected: &Option<String>,
) -> (res: Result<usize, String>)
    requires
        routes.wf(),
    ensures
        match route_of(
            routes.entries@,
            routes@,
            either(opt_view(*rig_id_override), opt_view(*selected)),
        ) {
            Some(r) => res == Ok::<usize, String>(r),
            None => res matches Err(m) && m@ == "no remote server available for this rig"@,
        },
{
    let target = first_set(rig_id_override, selected);
    match &target {
        Some(name) => {
            match routes.get(name.as_str()) {
                Some(r) => {
                    return Ok(*r);
                },
                None => {},
            }
        },
        None => {},
    }
    if routes.entries.len() > 0 {
        Ok(routes.entries[0].1)
    } else {
        Err(own("no remote server available for this rig"))
    }
}

// ---------------------------------------------------------------------------------------------
// Audio
// ---------------------------------------------------------------------------------------------

/// The address in an audio URL, or what is said of one that cannot be read.
pub open spec fn audio_addr_of(url: Seq<char>, head: Seq<char>) -> Result<Seq<char>, Seq<char>> {
    match endpoint_of(url, DEFAULT_AUDIO_PORT, "audio"@) {
        Ok((host, port)) => Ok(address(host, port)),
        Err(m) => Err(head + m),
    }
}

fn audio_addr(url: &str, head: &str) -> (res: Result<String, String>)
    ensures
        (match res {
            Ok(a) => Ok(a@),
            Err(m) => Err(m@),
        }) == audio_addr_of(url@, head@),
{
    match parse_audio_url(url) {
        Ok(ep) => Ok(ep.connect_addr()),
        Err(m) => Err(join2(head, m.as_str())),
    }
}

/// The address that the audio of all rigs comes from, where one is given.
pub fn global_audio_addr(server_url: &Option<String>) -> (res: Result<Option<String>, String>)
    ensures
        match opt_view(*server_url) {
            Some(url) => match audio_addr_of(url, "Invalid audio URL override '"@ + url + "': "@) {
                Ok(a) => res matches Ok(Some(addr)) && addr@ == a,
                Err(e) => res matches Err(m) && m@ == e,
            },
            None => res matches Ok(None),
        },
{
    match server_url {
        Some(url) => {
            let head = join3("Invalid audio URL override '", url.as_str(), "': ");
            match audio_addr(url.as_str(), head.as_str()) {
                Ok(addr) => Ok(Some(addr)),
                Err(m) => Err(m),
            }
        },
        None => Ok(None),
    }
}

/// Where the audio of an entry comes from: its own address, or else the one for all, or else the
/// host of its server, at its own port or the one for all.
pub open spec fn audio_connect_of(
    name: Seq<char>,
    host: Seq<char>,
    rig_urls: Map<Seq<char>, String>,
    global_addr: Option<Seq<char>>,
    rig_ports: Map<Seq<char>, u16>,
    server_port: u16,
) -> Result<AudioConnectView, Seq<char>> {
    if rig_urls.contains_key(name) {
        match audio_addr_of(
            rig_urls[name]@,
            "Invalid audio URL override for remote '"@ + name + "': "@,
        ) {
            Ok(a) => Ok(AudioConnectView::Fixed(a)),
            Err(m) => Err(m),
        }
    } else {
        match global_addr {
            Some(a) => Ok(AudioConnectView::Fixed(a)),
            None => Ok(
                AudioConnectView::HostPort {
                    host,
                    port: if rig_ports.contains_key(name) {
                        rig_ports[name]
                    } else {
                        server_port
                    },
                },
            ),
        }
    }
}

/// Where the audio of an entry comes from.
pub fn resolve_audio_connect(
    name: &str,
    host: &str,
    rig_urls: &Table<String>,
    global_addr: &Option<String>,
    rig_ports: &Table<u16>,
    server_port: u16,
) -> (res: Result<AudioConnectConfig, String>)
    requires
        rig_urls.wf(),
        rig_ports.wf(),
    ensures
        (match res {
            Ok(c) => Ok(c@),
            Err(m) => Err(m@),
        }) == audio_connect_of(
            name@,
            host@,
            rig_urls@,
            opt_view(*global_addr),
            rig_ports@,
            server_port,
        ),
{
    match rig_urls.get(name) {
        Some(url) => {
            let head = join3("Invalid audio URL override for remote '", name, "': ");
            match audio_addr(url.as_str(), head.as_str()) {
                Ok(addr) => Ok(AudioConnectConfig::fixed(addr)),
                Err(m) => Err(m),
            }
        },
        None => match global_addr {
            Some(a) => Ok(AudioConnectConfig::fixed(a.clone())),
            None => {
                let port: u16 = match rig_ports.get(name) {
                    Some(p) => *p,
                    None => server_port,
                };
                Ok(AudioConnectConfig::from_host_port(own(host), port))
            },
        },
    }
}

/// Where the audio of a rig comes from that has no entry: the address for all, or else the host of
/// the first server at the port for all.
pub fn default_audio_connect(global_addr: &Option<String>, host: &str, server_port: u16) -> (res:
    AudioConnectConfig)
    ensures
        res@ == (match opt_view(*global_addr) {
            Some(a) => AudioConnectView::Fixed(a),
            None => AudioConnectView::HostPort { host: host@, port: server_port },
        }),
{
    match global_addr {
        Some(a) => AudioConnectConfig::fixed(a.clone()),
        None => AudioConnectConfig::from_host_port(own(host), server_port),
    }
}

/// The host of the first server, or else this machine.
pub fn first_host(eps: &Vec<RemoteEndpoint>) -> (res: String)
    ensures
        res@ == (if eps@.len() > 0 {
            eps@[0].host@
        } else {
            "127.0.0.1"@
        }),
{
    if eps.len() > 0 {
        eps[0].host.clone()
    } else {
        own("127.0.0.1")
    }
}

// ---------------------------------------------------------------------------------------------
// Frontends
// ---------------------------------------------------------------------------------------------

/// The frontends to start: those on the command line, or else the enabled ones, or else HTTP.
pub open spec fn frontends_of(
    cli_frontends: Option<Seq<Seq<char>>>,
    http: bool,
    rigctl: bool,
    http_json: bool,
) -> Seq<Seq<char>> {
    match cli_frontends {
        Some(names) => names.map_values(|n: Seq<char>| normal_name(n)),
        None => {
            let a = if http {
                seq!["http"@]
            } else {
                Seq::empty()
            };
            let b = if rigctl {
                seq!["rigctl"@]
            } else {
                Seq::empty()
            };
            let c = if http_json {
                seq!["httpjson"@]
            } else {
                Seq::empty()
            };
            if http || rigctl || http_json {
                a + b + c
            } else {
                seq!["http"@]
            }
        },
    }
}

/// The frontends to start.
pub fn resolve_frontends(cli: &CliOptions, cfg: &ClientConfig) -> (res: Vec<String>)
    ensures
        list_view(res@) == frontends_of(
            match cli.frontends {
                Some(names) => Some(list_view(names@)),
                None => None,
            },
            cfg.frontends.http.enabled,
            cfg.frontends.rigctl.enabled,
            cfg.frontends.http_json.enabled,
        ),
{
    let mut out: Vec<String> = Vec::new();
    match &cli.frontends {
        Some(names) => {
            let ghost nv = list_view(names@);
            let ghost norm = |n: Seq<char>| normal_name(n);
            let mut i: usize = 0;
            while i < names.len()
                invariant
                    i <= names@.len(),
                    nv == list_view(names@),
                    norm == |n: Seq<char>| normal_name(n),
                    list_view(out@) == nv.take(i as int).map_values(norm),
                decreases names@.len() - i,
            {
                let ghost before = list_view(out@);
                let name = normalize_name(names[i].as_str());
                assert(nv[i as int] == names@[i as int]@);
                out.push(name);
                assert(list_view(out@) =~= before.push(name@));
                assert(nv.take(i + 1).map_values(norm) =~= before.push(normal_name(nv[i as int])));
                i = i + 1;
            }
            assert(nv.take(i as int) =~= nv);
        },
        None => {
            if cfg.frontends.http.enabled {
                out.push(own("http"));
            }
            if cfg.frontends.rigctl.enabled {
                out.push(own("rigctl"));
            }
            if cfg.frontends.http_json.enabled {
                out.push(own("httpjson"));
            }
            if out.len() == 0 {
                out.push(own("http"));
            }
            assert(list_view(out@) =~= frontends_of(
                None,
                cfg.frontends.http.enabled,
                cfg.frontends.rigctl.enabled,
                cfg.frontends.http_json.enabled,
            ));
        },
    }
    out
}

/// There is always a frontend to start where the command line names none.
pub proof fn some_frontend_starts(http: bool, rigctl: bool, http_json: bool)
    ensures
        frontends_of(None, http, rigctl, http_json).len() > 0,
{
}

/// Names, one after the other, with a comma and a space between them.
pub open spec fn joined(names: Seq<Seq<char>>) -> Seq<char>
    decreases names.len(),
{
    if names.len() == 0 {
        Seq::empty()
    } else if names.len() == 1 {
        names[0]
    } else {
        joined(names.drop_last()) + ", "@ + names.last()
    }
}

/// The names, one after the other.
pub fn join_names(names: &Vec<String>) -> (res: String)
    ensures
        res@ == joined(list_view(names@)),
{
    let ghost nv = list_view(names@);
    if names.len() == 0 {
        let res = String::new();
        assert(res@ =~= Seq::<char>::empty());
        return res;
    }
    let mut out = names[0].clone();
    let mut i: usize = 1;
    assert(nv.take(1)[0] == names@[0]@);
    while i < names.len()
        invariant
            1 <= i <= names@.len(),
            nv == list_view(names@),
            out@ == joined(nv.take(i as int)),
        decreases names@.len() - i,
    {
        assert(nv.take(i + 1).drop_last() =~= nv.take(i as int));
        assert(nv.take(i + 1).last() == names@[i as int]@);
        out = join3(out.as_str(), ", ", names[i].as_str());
        i = i + 1;
    }
    assert(nv.take(i as int) =~= nv);
    out
}

/// Accepts frontends that are all registered, or names the first that is not and those that are.
pub fn check_frontends<S>(names: &Vec<String>, context: &FrontendRegistrationContext<S>) -> (res:
    Result<(), String>)
    requires
        context.wf(),
    ensures
        match res {
            Ok(_) => forall|i: int|
                0 <= i < names@.len() ==> context@.contains_key(
                    normal_name((#[trigger] names@[i])@),
                ),
            Err(m) => exists|i: int, available: Seq<Seq<char>>|
                0 <= i < names@.len() && !context@.contains_key(normal_name(names@[i]@)) && (
                forall|j: int|
                    0 <= j < i ==> context@.contains_key(normal_name((#[trigger] names@[j])@)))
                    && m@ == #[trigger] unknown_frontend(names@[i]@, available) && is_name_list(
                    context.spawners.entries@,
                    available,
                ),
        },
{
    let mut i: usize = 0;
    while i < names.len()
        invariant
            i <= names@.len(),
            context.wf(),
            forall|j: int|
                0 <= j < i ==> context@.contains_key(normal_name((#[trigger] names@[j])@)),
        decreases names@.len() - i,
    {
        if !context.is_frontend_registered(names[i].as_str()) {
            let available = context.registered_frontends();
            let list = join_names(&available);
            let head = join3("Unknown frontend: ", names[i].as_str(), " (available: ");
            let res = join3(head.as_str(), list.as_str(), ")");
            assert(res@ == unknown_frontend(names@[i as int]@, list_view(available@)));
            return Err(res);
        }
        i = i + 1;
    }
    Ok(())
}

/// What is said of a frontend that is not registered.
pub open spec fn unknown_frontend(name: Seq<char>, available: Seq<Seq<char>>) -> Seq<char> {
    "Unknown frontend: "@ + name + " (available: "@ + joined(available) + ")"@
}

/// The address and port that a frontend listens on. The rigctl frontend has one for each rig, and is
/// not asked for here.
pub fn listen_address(frontend: &str, cli: &CliOptions, cfg: &ClientConfig) -> (res: Result<
    (String, u16),
    String,
>)
    ensures
        match res {
            Ok((addr, port)) => if frontend@ == "http"@ {
                addr@ == (match cli.http_listen {
                    Some(a) => a@,
                    None => cfg.frontends.http.listen@,
                }) && port == (match cli.http_port {
                    Some(p) => p,
                    None => cfg.frontends.http.port,
                })
            } else {
                frontend@ == "httpjson"@ && addr@ == (match cli.http_json_listen {
                    Some(a) => a@,
                    None => cfg.frontends.http_json.listen@,
                }) && port == (match cli.http_json_port {
                    Some(p) => p,
                    None => cfg.frontends.http_json.port,
                })
            },
            Err(m) => frontend@ != "http"@ && frontend@ != "httpjson"@ && m@
                == "Frontend missing listen configuration: "@ + frontend@,
        },
{
    if str_eq(frontend, "http") {
        let addr = match &cli.http_listen {
            Some(a) => a.clone(),
            None => cfg.frontends.http.listen.clone(),
        };
        let port: u16 = match cli.http_port {
            Some(p) => p,
            None => cfg.frontends.http.port,
        };
        Ok((addr, port))
    } else if str_eq(frontend, "httpjson") {
        let addr = match &cli.http_json_listen {
            Some(a) => a.clone(),
            None => cfg.frontends.http_json.listen.clone(),
        };
        let port: u16 = match cli.http_json_port {
            Some(p) => p,
            None => cfg.frontends.http_json.port,
        };
        Ok((addr, port))
    } else {
        Err(join2("Frontend missing listen configuration: ", frontend))
    }
}

/// The address that the rigctl frontend listens on.
pub fn rigctl_address(cli: &CliOptions, cfg: &ClientConfig) -> (res: String)
    ensures
        res@ == (match cli.rigctl_listen {
            Some(a) => a@,
            None => cfg.frontends.rigctl.listen@,
        }),
{
    match &cli.rigctl_listen {
        Some(a) => a.clone(),
        None => cfg.frontends.rigctl.listen.clone(),
    }
}

/// A place where the rigctl frontend listens, and the rig that its requests are for.
#[derive(Debug)]
pub struct RigctlListener {
    pub rig_id: String,
    pub host: String,
    pub port: u16,
}

/// Where the rigctl frontend listens: at one port for each rig that has one.
pub fn rigctl_listeners(cli: &CliOptions, cfg: &ClientConfig) -> (res: Vec<RigctlListener>)
    ensures
        res@.len() == cfg.frontends.rigctl.rig_ports.entries@.len(),
        forall|i: int|
            0 <= i < res@.len() ==> {
                &&& (#[trigger] res@[i]).rig_id@ == cfg.frontends.rigctl.rig_ports.entries@[i].0@
                &&& res@[i].port == cfg.frontends.rigctl.rig_ports.entries@[i].1
                &&& res@[i].host@ == (match cli.rigctl_listen {
                    Some(a) => a@,
                    None => cfg.frontends.rigctl.listen@,
                })
            },
{
    let entries = &cfg.frontends.rigctl.rig_ports.entries;
    let mut out: Vec<RigctlListener> = Vec::new();
    let mut i: usize = 0;
    while i < entries.len()
        invariant
            i <= entries@.len(),
            out@.len() == i,
            forall|j: int|
                0 <= j < i ==> {
                    &&& (#[trigger] out@[j]).rig_id@ == entries@[j].0@
                    &&& out@[j].port == entries@[j].1
                    &&& out@[j].host@ == (match cli.rigctl_listen {
                        Some(a) => a@,
                        None => cfg.frontends.rigctl.listen@,
                    })
                },
        decreases entries@.len() - i,
    {
        out.push(
            RigctlListener {
                rig_id: entries[i].0.clone(),
                host: rigctl_address(cli, cfg),
                port: entries[i].1,
            },
        );
        i = i + 1;
    }
    out
}

// ---------------------------------------------------------------------------------------------
// What the start comes to
// ---------------------------------------------------------------------------------------------

/// What is given on the command line comes before what the file says, and what is given nowhere is
/// not there.
pub proof fn the_command_line_comes_first(a: Seq<char>, b: Option<Seq<char>>)
    ensures
        either(Some(a), b) == Some(a),
        either(None, b) == b,
{
}

/// With a server on the command line there is that one alone, and what the command line does not say
/// of it is as in the file. Without one there is that of the file, as the file has it, or none.
pub proof fn servers_that_are_used(cli: CliOptions, remote: RemoteConfig)
    ensures
        ({
            let list = remotes_of(cli, remote);
            &&& cli.url is None && remote.url is None ==> list.len() == 0
            &&& cli.url is Some || remote.url is Some ==> list.len() == 1
            &&& cli.url matches Some(url) ==> {
                &&& list[0].url == url@
                &&& cli.rig_id matches Some(r) ==> list[0].rig_id == Some(r@) && list[0].name == r@
                &&& cli.rig_id is None ==> list[0].rig_id == opt_view(remote.rig_id)
                &&& cli.token matches Some(t) ==> list[0].token == Some(t@)
                &&& cli.token is None ==> list[0].token == opt_view(remote.auth.token)
                &&& cli.poll_interval_ms matches Some(ms) ==> list[0].poll_interval_ms == ms
                &&& cli.poll_interval_ms is None ==> list[0].poll_interval_ms
                    == remote.poll_interval_ms
            }
            &&& cli.url is None && remote.url is Some ==> {
                &&& list[0].url == remote.url->0@
                &&& list[0].rig_id == opt_view(remote.rig_id)
                &&& list[0].token == opt_view(remote.auth.token)
                &&& list[0].poll_interval_ms == remote.poll_interval_ms
            }
            &&& list.len() == 1 ==> (match list[0].rig_id {
                Some(r) => list[0].name == r,
                None => list[0].name == "default"@,
            })
        }),
{
}

/// What a server is told by is all of its fields, and an endpoint by its host and port.
pub proof fn servers_in_full(
    e: RemoteEntry,
    entries: Seq<RemoteEntry>,
    eps: Seq<RemoteEndpoint>,
    i: int,
)
    ensures
        e@.name == e.name@,
        e@.url == e.url@,
        e@.rig_id == opt_view(e.rig_id),
        e@.token == opt_view(e.token),
        e@.poll_interval_ms == e.poll_interval_ms,
        remote_views(entries).len() == entries.len(),
        0 <= i < entries.len() ==> remote_views(entries)[i] == entries[i]@,
        endpoint_views(eps).len() == eps.len(),
        0 <= i < eps.len() ==> endpoint_views(eps)[i] == (eps[i].host@, eps[i].port),
{
}

/// The tokens that are taken are those that are not empty, in their order.
pub proof fn empty_tokens_are_left_out(
    a: Seq<Seq<char>>,
    b: Seq<Seq<char>>,
    t: Seq<char>,
)
    ensures
        accepted_tokens(a + b) == accepted_tokens(a) + accepted_tokens(b),
        t.len() > 0 ==> accepted_tokens(seq![t]) == seq![t],
        accepted_tokens(seq![Seq::empty()]).len() == 0,
{
    let pred = |t: Seq<char>| t.len() > 0;
    Seq::filter_distributes_over_add(a, b, pred);
    reveal_with_fuel(Seq::filter, 3);
    let one = seq![t];
    assert(one.drop_last() =~= Seq::empty());
    assert(one.last() == t);
    let empty = seq![Seq::<char>::empty()];
    assert(empty.drop_last() =~= Seq::empty());
    assert(empty.last() == Seq::<char>::empty());
    assert(accepted_tokens(one) == one.filter(pred));
    assert(accepted_tokens(empty) == empty.filter(pred));
    if t.len() > 0 {
        assert(one.filter(pred) =~= seq![t]);
    }
}

/// Every server has its endpoint, at the port it names or at 4530; the first address that cannot be
/// read is complained of under the name of its server.
pub proof fn endpoints_of_the_servers(entries: Seq<RemoteEntryView>, i: int)
    requires
        0 <= i < entries.len(),
    ensures
        endpoints_of(entries, 0) matches Ok(eps) ==> eps.len() == entries.len()
            && endpoint_of(entries[i].url, 4530, "remote"@) == Ok::<(Seq<char>, u16), Seq<char>>(
            eps[i],
        ),
        (forall|j: int|
            0 <= j < i ==> endpoint_of((#[trigger] entries[j]).url, 4530, "remote"@) is Ok) && (
        endpoint_of(entries[i].url, 4530, "remote"@) is Err) ==> endpoints_of(entries, 0) == Err::<
            Seq<(Seq<char>, u16)>,
            Seq<char>,
        >(
            "Invalid URL for remote '"@ + entries[i].name + "': "@ + endpoint_of(
                entries[i].url,
                4530,
                "remote"@,
            )->Err_0,
        ),
        (forall|j: int|
            0 <= j < entries.len() ==> endpoint_of((#[trigger] entries[j]).url, 4530, "remote"@) is Ok)
            ==> endpoints_of(entries, 0) is Ok,
{
    lemma_endpoints_from(entries, 0, i);
}

proof fn lemma_endpoints_from(entries: Seq<RemoteEntryView>, k: nat, i: int)
    requires
        k <= i < entries.len(),
    ensures
        endpoints_of(entries, k) matches Ok(eps) ==> eps.len() == entries.len() - k
            && endpoint_of(entries[i].url, 4530, "remote"@) == Ok::<(Seq<char>, u16), Seq<char>>(
            eps[i - k],
        ),
        (forall|j: int|
            k <= j < i ==> endpoint_of((#[trigger] entries[j]).url, 4530, "remote"@) is Ok) && (
        endpoint_of(entries[i].url, 4530, "remote"@) is Err) ==> endpoints_of(entries, k) == Err::<
            Seq<(Seq<char>, u16)>,
            Seq<char>,
        >(
            "Invalid URL for remote '"@ + entries[i].name + "': "@ + endpoint_of(
                entries[i].url,
                4530,
                "remote"@,
            )->Err_0,
        ),
        (forall|j: int|
            k <= j < entries.len() ==> endpoint_of((#[trigger] entries[j]).url, 4530, "remote"@) is Ok)
            ==> endpoints_of(entries, k) is Ok,
    decreases entries.len() - k,
{
    let here = endpoint_of(entries[k as int].url, 4530, "remote"@);
    if k + 1 < entries.len() {
        let next: int = if i > k {
            i
        } else {
            k as int + 1
        };
        lemma_endpoints_from(entries, k + 1, next);
    } else {
        assert(endpoints_of(entries, k + 1) == Ok::<Seq<(Seq<char>, u16)>, Seq<char>>(Seq::empty()));
    }
    if here is Ok {
        if endpoints_of(entries, k + 1) is Ok {
            let eps = endpoints_of(entries, k)->Ok_0;
            assert(eps == seq![here->Ok_0] + endpoints_of(entries, k + 1)->Ok_0);
        }
    }
}

/// Servers are told apart by address and token, and come in the order of their addresses; at one
/// address the one without a token comes first and the others in the order of their tokens.
pub proof fn servers_in_order(a: ServerKey, b: ServerKey)
    ensures
        text_less(a.addr, b.addr) ==> key_less(a, b),
        a.addr == b.addr && a.token is None && b.token is Some ==> key_less(a, b),
        a.addr == b.addr && a.token is Some && b.token is Some ==> (key_less(a, b) <==> text_less(
            a.token->0,
            b.token->0,
        )),
        key_less(a, b) ==> !key_less(b, a) && a != b,
        a != b ==> key_less(a, b) || key_less(b, a),
{
    lemma_key_total(a, b);
    lemma_key_irreflexive(a);
    if key_less(a, b) && key_less(b, a) {
        lemma_key_transitive(a, b, a);
    }
    text_less_irreflexive(a.addr);
}

/// The key of a server is its address, as a client connects to it, with its token.
pub proof fn keys_of_the_servers(
    group: ServerGroup,
    entries: Seq<RemoteEntryView>,
    eps: Seq<(Seq<char>, u16)>,
    i: int,
)
    ensures
        group.key().addr == group.addr@,
        group.key().token == opt_view(group.token),
        server_keys(entries, eps).len() == entries.len(),
        0 <= i < entries.len() ==> server_keys(entries, eps)[i].addr == address(eps[i].0, eps[i].1)
            && server_keys(entries, eps)[i].token == entries[i].token,
{
}

/// The members of a group stand in the order of the servers, each once.
pub proof fn members_in_order(keys: Seq<ServerKey>, key: ServerKey, n: int, i: int, j: int)
    requires
        n <= keys.len() <= usize::MAX,
        0 <= i < j < members_of(keys, key, n).len(),
    ensures
        members_of(keys, key, n)[i] < members_of(keys, key, n)[j] < n,
    decreases n,
{
    if n > 0 {
        let before = members_of(keys, key, n - 1);
        if j < before.len() {
            members_in_order(keys, key, n - 1, i, j);
        } else if before.len() > 0 {
            lemma_members_below(keys, key, n - 1);
        }
    }
}

/// A group is polled at the shortest of its intervals, and at 750 ms where it has none.
pub proof fn the_shortest_interval_is_one_of_them(
    entries: Seq<RemoteEntryView>,
    members: Seq<usize>,
    n: int,
)
    requires
        n <= members.len(),
    ensures
        n <= 0 ==> shortest(entries, members, n) == 750,
        n > 0 ==> exists|i: int|
            0 <= i < n && shortest(entries, members, n) == entries[(
            #[trigger] members[i]) as int].poll_interval_ms,
    decreases n,
{
    if n > 1 {
        the_shortest_interval_is_one_of_them(entries, members, n - 1);
        let i = choose|i: int|
            0 <= i < n - 1 && shortest(entries, members, n - 1) == entries[(
            #[trigger] members[i]) as int].poll_interval_ms;
        if shortest(entries, members, n) == shortest(entries, members, n - 1) {
            assert(shortest(entries, members, n) == entries[members[i] as int].poll_interval_ms);
        } else {
            assert(shortest(entries, members, n)
                == entries[members[n - 1] as int].poll_interval_ms);
        }
    } else if n == 1 {
        assert(shortest(entries, members, n) == entries[members[0] as int].poll_interval_ms);
    }
}

/// A rig goes by the name that the last of the members gives it, and by none where no member speaks
/// of it.
pub proof fn the_last_name_counts(
    entries: Seq<RemoteEntryView>,
    members: Seq<usize>,
    rig_id: Option<Seq<char>>,
    n: int,
    i: int,
)
    ensures
        0 <= i < n && entries[members[i] as int].rig_id == rig_id && (forall|j: int|
            i < j < n ==> entries[(#[trigger] members[j]) as int].rig_id != rig_id) ==> name_given(
            entries,
            members,
            rig_id,
            n,
        ) == Some(entries[members[i] as int].name),
        (forall|j: int| 0 <= j < n ==> entries[(#[trigger] members[j]) as int].rig_id != rig_id)
            ==> name_given(entries, members, rig_id, n) is None,
    decreases n,
{
    if n > 0 {
        the_last_name_counts(entries, members, rig_id, n - 1, i);
        assert(members[n - 1] == members[n - 1]);
    }
}

/// A request goes to the server of the rig it is for, and to the first one where it is for no rig or
/// for one that no server has.
pub proof fn requests_find_a_server(
    routes: Seq<(String, usize)>,
    by_name: Map<Seq<char>, usize>,
    name: Seq<char>,
)
    ensures
        by_name.contains_key(name) ==> route_of(routes, by_name, Some(name)) == Some(by_name[name]),
        !by_name.contains_key(name) && routes.len() > 0 ==> route_of(routes, by_name, Some(name))
            == Some(routes[0].1),
        routes.len() > 0 ==> route_of(routes, by_name, None) == Some(routes[0].1),
        routes.len() == 0 ==> route_of(routes, by_name, None) is None,
        !by_name.contains_key(name) && routes.len() == 0 ==> route_of(
            routes,
            by_name,
            Some(name),
        ) is None,
{
}

/// The audio of a rig comes from the address set for the rig, else from the one set for all, else from
/// the host of the server at the port set for the rig, else at the server's.
pub proof fn where_audio_comes_from(
    name: Seq<char>,
    host: Seq<char>,
    rig_urls: Map<Seq<char>, String>,
    global_addr: Option<Seq<char>>,
    rig_ports: Map<Seq<char>, u16>,
    server_port: u16,
)
    ensures
        ({
            let c = audio_connect_of(name, host, rig_urls, global_addr, rig_ports, server_port);
            let own = rig_urls.contains_key(name);
            let at = endpoint_of(rig_urls[name]@, 4531, "audio"@);
            &&& own ==> (at matches Ok(ep) ==> c == Ok::<AudioConnectView, Seq<char>>(
                AudioConnectView::Fixed(address(ep.0, ep.1)),
            ))
            &&& own ==> (at matches Err(m) ==> c == Err::<AudioConnectView, Seq<char>>(
                "Invalid audio URL override for remote '"@ + name + "': "@ + m,
            ))
            &&& !own ==> (global_addr matches Some(a) ==> c == Ok::<AudioConnectView, Seq<char>>(
                AudioConnectView::Fixed(a),
            ))
            &&& !own && global_addr is None && rig_ports.contains_key(name) ==> c == Ok::<
                AudioConnectView,
                Seq<char>,
            >(AudioConnectView::HostPort { host, port: rig_ports[name] })
            &&& !own && global_addr is None && !rig_ports.contains_key(name) ==> c == Ok::<
                AudioConnectView,
                Seq<char>,
            >(AudioConnectView::HostPort { host, port: server_port })
        }),
{
}

/// The frontends of the command line start, under their plain names and in their order. Without any
/// those start that the file enables, and the web frontend where it enables none.
pub proof fn frontends_that_start(
    names: Seq<Seq<char>>,
    http: bool,
    rigctl: bool,
    http_json: bool,
    i: int,
)
    ensures
        frontends_of(Some(names), http, rigctl, http_json).len() == names.len(),
        0 <= i < names.len() ==> frontends_of(Some(names), http, rigctl, http_json)[i]
            == normal_name(names[i]),
        ({
            let list = frontends_of(None, http, rigctl, http_json);
            let count = (if http { 1int } else { 0 }) + (if rigctl { 1int } else { 0 }) + (
            if http_json { 1int } else { 0 });
            &&& http ==> list[0] == "http"@
            &&& rigctl ==> list[if http { 1 } else { 0 }] == "rigctl"@
            &&& http_json ==> list.last() == "httpjson"@
            &&& count > 0 ==> list.len() == count
            &&& count == 0 ==> list == seq!["http"@]
        }),
{
}

/// Names are listed with a comma and a blank between them.
pub proof fn names_are_listed(names: Seq<Seq<char>>, name: Seq<char>)
    ensures
        joined(Seq::empty()) == Seq::<char>::empty(),
        joined(seq![name]) == name,
        names.len() > 0 ==> joined(names.push(name)) == joined(names) + seq![',', ' '] + name,
{
    reveal_strlit(", ");
    assert(", "@ =~= seq![',', ' ']);
    assert(names.push(name).drop_last() =~= names);
}

/// An unknown frontend is named with those that there are.
pub proof fn unknown_frontends_are_named(name: Seq<char>, available: Seq<Seq<char>>)
    ensures
        unknown_frontend(name, available) == "Unknown frontend: "@ + name + " (available: "@
            + joined(available) + ")"@,
{
}

} // verus!
