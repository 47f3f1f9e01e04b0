//! Endpoints: the host and port that a server URL names.
use vstd::prelude::*;

use crate::text::{
    decimal, decimal_digits, decimal_reads_back, find_char, first_index, first_index_is,
    first_index_meaning, from_range, is_digit, is_space, join2, join3, own, parse_unsigned, parsed,
    parts_are_found, starts_with, starts_with_spec, to_chars, trim, trimmed, trimmed_fixed, u64_text,
};

verus! {

/// The port of a server where its URL names none.
pub const DEFAULT_REMOTE_PORT: u16 = 4530;

/// The audio port of a server where its URL names none.
pub const DEFAULT_AUDIO_PORT: u16 = 4531;

/// A host and a port.
#[derive(Debug, PartialEq, Eq)]
pub struct RemoteEndpoint {
    pub host: String,
    pub port: u16,
}

impl Clone for RemoteEndpoint {
    fn clone(&self) -> (res: Self)
        ensures
            res == *self,
    {
        RemoteEndpoint { host: self.host.clone(), port: self.port }
    }
}

/// A host and a port, as they are written to connect: a host with colons stands in brackets.
pub open spec fn address(host: Seq<char>, port: u16) -> Seq<char> {
    if host.contains(':') && !(host.len() > 0 && host[0] == '[') {
        "["@ + host + "]:"@ + decimal(port as nat)
    } else {
        host + ":"@ + decimal(port as nat)
    }
}

impl RemoteEndpoint {
    /// The address to connect to.
    pub fn connect_addr(&self) -> (res: String)
        ensures
            res@ == address(self.host@, self.port),
    {
        let chars = to_chars(self.host.as_str());
        let at: usize = find_char(chars.as_slice(), ':');
        proof {
            first_index_meaning(chars@, ':');
            if at < chars@.len() {
                assert(chars@[at as int] == ':');
            } else {
                assert(!chars@.contains(':'));
            }
        }
        let port = u64_text(self.port as u64);
        if at < chars.len() && !(chars[0] == '[') {
            let bracketed = join3("[", self.host.as_str(), "]:");
            join2(bracketed.as_str(), port.as_str())
        } else {
            join3(self.host.as_str(), ":", port.as_str())
        }
    }
}

// ---------------------------------------------------------------------------------------------
// Reading
// ---------------------------------------------------------------------------------------------

/// What reading a URL comes to: host and port, or the text of an error.
pub type EndpointView = Result<(Seq<char>, u16), Seq<char>>;

/// What a result of reading a URL says.
pub open spec fn endpoint_view(r: Result<RemoteEndpoint, String>) -> EndpointView {
    match r {
        Ok(e) => Ok((e.host@, e.port)),
        Err(m) => Err(m@),
    }
}

/// The text of an error about a URL.
pub open spec fn url_error(kind: Seq<char>, detail: Seq<char>) -> Seq<char> {
    "invalid "@ + kind + detail
}

fn url_error_text(kind: &str, detail: &str) -> (res: String)
    ensures
        res@ == url_error(kind@, detail@),
{
    join3("invalid ", kind, detail)
}

/// The port a text names: a decimal numeral from 1 to 65535.
pub open spec fn port_of(s: Seq<char>, kind: Seq<char>) -> Result<u16, Seq<char>> {
    match parsed(s, u16::MAX as nat) {
        None => Err(url_error(kind, " port: '"@) + s + "'"@),
        Some(p) => if p == 0 {
            Err(url_error(kind, " port: 0"@))
        } else {
            Ok(p as u16)
        },
    }
}

/// Reads a port.
pub fn parse_port(port_str: &str, kind: &str) -> (res: Result<u16, String>)
    ensures
        (match res {
            Ok(p) => Ok(p),
            Err(m) => Err(m@),
        }) == port_of(port_str@, kind@),
{
    match parse_unsigned(port_str, u16::MAX as u64) {
        None => {
            let head = url_error_text(kind, " port: '");
            Err(join3(head.as_str(), port_str, "'"))
        },
        Some(p) => if p == 0 {
            Err(url_error_text(kind, " port: 0"))
        } else {
            Ok(p as u16)
        },
    }
}

/// The host and port that an address names.
pub open spec fn host_port_of(s: Seq<char>, default_port: u16, kind: Seq<char>) -> EndpointView {
    if s.len() > 0 && s[0] == '[' {
        let rest = s.drop_first();
        let closing = first_index(rest, ']');
        if closing >= rest.len() {
            Err(url_error(kind, " url: missing closing ']' for IPv6 host"@))
        } else {
            let host = rest.take(closing);
            let remainder = rest.skip(closing + 1);
            if host.len() == 0 {
                Err(url_error(kind, " url: host is empty"@))
            } else if remainder.len() == 0 {
                Ok((host, default_port))
            } else if remainder[0] == ':' {
                match port_of(remainder.drop_first(), kind) {
                    Ok(p) => Ok((host, p)),
                    Err(m) => Err(m),
                }
            } else {
                Err(url_error(kind, " url: expected ':<port>' after ']'"@))
            }
        }
    } else {
        let colon = first_index(s, ':');
        if colon >= s.len() {
            Ok((s, default_port))
        } else {
            let host = s.take(colon);
            let tail = s.skip(colon + 1);
            if tail.contains(':') {
                Err(url_error(kind, " url: IPv6 host must be bracketed like [::1]:4532"@))
            } else if host.len() == 0 {
                Err(url_error(kind, " url: host is empty"@))
            } else {
                match port_of(tail, kind) {
                    Ok(p) => Ok((host, p)),
                    Err(m) => Err(m),
                }
            }
        }
    }
}

/// Reads an address: a host, which stands in brackets where it has colons, and a port.
pub fn parse_host_port(input: &str, default_port: u16, kind: &str) -> (res: Result<
    RemoteEndpoint,
    String,
>)
    ensures
        endpoint_view(res) == host_port_of(input@, default_port, kind@),
{
    let s = to_chars(input);
    let n: usize = s.len();
    if n > 0 && s[0] == '[' {
        let ghost rest = s@.drop_first();
        let tail = from_range(s.as_slice(), 1, n);
        assert(tail@ =~= rest);
        let r = to_chars(tail.as_str());
        let closing: usize = find_char(r.as_slice(), ']');
        if closing >= r.len() {
            return Err(url_error_text(kind, " url: missing closing ']' for IPv6 host"));
        }
        if closing == 0 {
            return Err(url_error_text(kind, " url: host is empty"));
        }
        let host = from_range(r.as_slice(), 0, closing);
        assert(host@ =~= rest.take(closing as int));
        let ghost remainder = rest.skip(closing + 1);
        if closing + 1 == r.len() {
            assert(remainder.len() == 0);
            return Ok(RemoteEndpoint { host, port: default_port });
        }
        assert(remainder[0] == r@[closing + 1]);
        if r[closing + 1] != ':' {
            return Err(url_error_text(kind, " url: expected ':<port>' after ']'"));
        }
        let port_text = from_range(r.as_slice(), closing + 2, r.len());
        assert(port_text@ =~= remainder.drop_first());
        return match parse_port(port_text.as_str(), kind) {
            Ok(port) => Ok(RemoteEndpoint { host, port }),
            Err(m) => Err(m),
        };
    }
    let colon: usize = find_char(s.as_slice(), ':');
    if colon >= n {
        return Ok(RemoteEndpoint { host: own(input), port: default_port });
    }
    let ghost tail = s@.skip(colon + 1);
    let port_text = from_range(s.as_slice(), colon + 1, n);
    assert(port_text@ =~= tail);
    let t = to_chars(port_text.as_str());
    let second: usize = find_char(t.as_slice(), ':');
    proof {
        first_index_meaning(tail, ':');
        if second < tail.len() {
            assert(tail[second as int] == ':');
        } else {
            assert(!tail.contains(':'));
        }
    }
    if second < t.len() {
        return Err(url_error_text(kind, " url: IPv6 host must be bracketed like [::1]:4532"));
    }
    if colon == 0 {
        return Err(url_error_text(kind, " url: host is empty"));
    }
    let host = from_range(s.as_slice(), 0, colon);
    assert(host@ =~= s@.take(colon as int));
    match parse_port(port_text.as_str(), kind) {
        Ok(port) => Ok(RemoteEndpoint { host, port }),
        Err(m) => Err(m),
    }
}

/// A URL without its scheme, where it has one of those known.
pub open spec fn without_scheme(s: Seq<char>) -> Seq<char> {
    if starts_with_spec(s, "tcp://"@) {
        s.skip("tcp://"@.len() as int)
    } else if starts_with_spec(s, "http-json://"@) {
        s.skip("http-json://"@.len() as int)
    } else if starts_with_spec(s, "audio://"@) {
        s.skip("audio://"@.len() as int)
    } else {
        s
    }
}

/// The endpoint that a URL names.
pub open spec fn endpoint_of(url: Seq<char>, default_port: u16, kind: Seq<char>) -> EndpointView {
    if trimmed(url).len() == 0 {
        Err(kind + " url is empty"@)
    } else {
        host_port_of(without_scheme(trimmed(url)), default_port, kind)
    }
}

fn skip_prefix(s: &str, prefix: &str) -> (res: Option<String>)
    ensures
        res is Some <==> starts_with_spec(s@, prefix@),
        res matches Some(r) ==> r@ == s@.skip(prefix@.len() as int),
{
    if starts_with(s, prefix) {
        let chars = to_chars(s);
        let p = to_chars(prefix);
        let rest = from_range(chars.as_slice(), p.len(), chars.len());
        assert(rest@ =~= s@.skip(prefix@.len() as int));
        Some(rest)
    } else {
        None
    }
}

/// Reads a URL: white space around it and a known scheme in front of it do not count.
pub fn parse_endpoint_url(url: &str, default_port: u16, kind: &str) -> (res: Result<
    RemoteEndpoint,
    String,
>)
    ensures
        endpoint_view(res) == endpoint_of(url@, default_port, kind@),
{
    let t = trim(url);
    if t.as_str().is_empty() {
        return Err(join2(kind, " url is empty"));
    }
    let addr = match skip_prefix(t.as_str(), "tcp://") {
        Some(r) => r,
        None => match skip_prefix(t.as_str(), "http-json://") {
            Some(r) => r,
            None => match skip_prefix(t.as_str(), "audio://") {
                Some(r) => r,
                None => t,
            },
        },
    };
    parse_host_port(addr.as_str(), default_port, kind)
}

/// Reads the URL of a server.
pub fn parse_remote_url(url: &str) -> (res: Result<RemoteEndpoint, String>)
    ensures
        endpoint_view(res) == endpoint_of(url@, DEFAULT_REMOTE_PORT, "remote"@),
{
    parse_endpoint_url(url, DEFAULT_REMOTE_PORT, "remote")
}

/// Reads the URL of a server's audio port.
pub fn parse_audio_url(url: &str) -> (res: Result<RemoteEndpoint, String>)
    ensures
        endpoint_view(res) == endpoint_of(url@, DEFAULT_AUDIO_PORT, "audio"@),
{
    parse_endpoint_url(url, DEFAULT_AUDIO_PORT, "audio")
}

/// A host that can be written in an address. One with a colon stands in brackets there, so it has no
/// closing bracket; any other stands at the front of the address. Neither is empty or begins with an
/// opening bracket, and the one at the front does not begin with white space.
pub open spec fn is_plain_host(host: Seq<char>) -> bool {
    &&& host.len() > 0
    &&& host[0] != '['
    &&& if host.contains(':') {
        !host.contains(']')
    } else {
        !is_space(host[0])
    }
}

proof fn lemma_no_scheme(s: Seq<char>)
    requires
        s.len() > 0,
        s[0] == '[' || ({
            let c = first_index(s, ':');
            c + 1 < s.len() && s[c + 1] != '/'
        }),
    ensures
        without_scheme(s) == s,
{
    reveal_strlit("tcp://");
    reveal_strlit("http-json://");
    reveal_strlit("audio://");
    first_index_meaning(s, ':');
    if starts_with_spec(s, "tcp://"@) {
        let p = s.take(6);
        assert(p[0] == 't' && p[1] == 'c' && p[2] == 'p' && p[3] == ':' && p[4] == '/');
        assert(s[0] == p[0] && s[1] == p[1] && s[2] == p[2] && s[3] == p[3] && s[4] == p[4]);
        first_index_is(s, ':', 3);
    }
    if starts_with_spec(s, "http-json://"@) {
        let p = s.take(12);
        assert(forall|i: int| 0 <= i < 12 ==> s[i] == #[trigger] p[i]);
        assert(p[0] == 'h' && p[1] == 't' && p[2] == 't' && p[3] == 'p' && p[4] == '-' && p[5] == 'j'
            && p[6] == 's' && p[7] == 'o' && p[8] == 'n' && p[9] == ':' && p[10] == '/');
        first_index_is(s, ':', 9);
    }
    if starts_with_spec(s, "audio://"@) {
        let p = s.take(8);
        assert(forall|i: int| 0 <= i < 8 ==> s[i] == #[trigger] p[i]);
        assert(p[0] == 'a' && p[1] == 'u' && p[2] == 'd' && p[3] == 'i' && p[4] == 'o' && p[5] == ':'
            && p[6] == '/');
        first_index_is(s, ':', 5);
    }
}

/// The address of an endpoint reads back as the same endpoint, whatever the default port.
pub proof fn address_reads_back(host: Seq<char>, port: u16, default_port: u16, kind: Seq<char>)
    requires
        is_plain_host(host),
        port > 0,
    ensures
        endpoint_of(address(host, port), default_port, kind) == Ok::<(Seq<char>, u16), Seq<char>>(
            (host, port),
        ),
{
    reveal_strlit("[");
    reveal_strlit("]:");
    reveal_strlit(":");
    let d = decimal(port as nat);
    let s = address(host, port);
    decimal_digits(port as nat);
    decimal_reads_back(port as nat, u16::MAX as nat);
    assert(is_digit(d[d.len() - 1]) && is_digit(d[0]));
    assert(s.last() == d[d.len() - 1]);
    trimmed_fixed(s);
    if host.contains(':') {
        assert(s[0] == '[');
        lemma_no_scheme(s);
        let rest = s.drop_first();
        let n = host.len() as int;
        assert forall|j: int| 0 <= j < n implies rest[j] != ']' by {
            assert(rest[j] == host[j]);
            assert(host.contains(host[j]));
        }
        assert(rest[n] == ']');
        first_index_is(rest, ']', n);
        assert(rest.take(n) =~= host);
        assert(rest.skip(n + 1)[0] == ':');
        assert(rest.skip(n + 1).drop_first() =~= d);
    } else {
        let n = host.len() as int;
        assert(s[0] == host[0]);
        assert forall|j: int| 0 <= j < n implies s[j] != ':' by {
            assert(s[j] == host[j]);
            assert(host.contains(host[j]));
        }
        assert(s[n] == ':');
        first_index_is(s, ':', n);
        assert(s[n + 1] == d[0]);
        lemma_no_scheme(s);
        assert(s.take(n) =~= host);
        assert(s.skip(n + 1) =~= d);
        assert(!d.contains(':'));
    }
}

/// A host without a port is at the default port, in brackets or plain; white space around an address
/// and a known scheme before it do not count.
pub proof fn addresses_without_a_port(host: Seq<char>, default_port: u16, kind: Seq<char>)
    ensures
        host.len() > 0 && host[0] != '[' && !host.contains(':') ==> host_port_of(
            host,
            default_port,
            kind,
        ) == Ok::<(Seq<char>, u16), Seq<char>>((host, default_port)),
        host.len() > 0 && !host.contains(']') ==> host_port_of(
            "["@ + host + "]"@,
            default_port,
            kind,
        ) == Ok::<(Seq<char>, u16), Seq<char>>((host, default_port)),
{
    first_index_meaning(host, ':');
    if first_index(host, ':') < host.len() {
        assert(host.contains(host[first_index(host, ':')]));
    }
    reveal_strlit("[");
    reveal_strlit("]");
    let s = "["@ + host + "]"@;
    let rest = s.drop_first();
    if !host.contains(']') {
        assert(rest =~= host + seq![']']);
        assert forall|j: int| 0 <= j < host.len() implies rest[j] != ']' by {
            assert(host.contains(host[j]));
        }
        first_index_is(rest, ']', host.len() as int);
        assert(rest.take(host.len() as int) =~= host);
    }
}

/// A port is a number from one to 65535, and everything else is refused.
pub proof fn ports_that_are_taken(s: Seq<char>, kind: Seq<char>)
    ensures
        port_of(s, kind) is Ok <==> parsed(s, 65535) is Some && parsed(s, 65535)->0 > 0,
        port_of(s, kind) matches Ok(p) ==> p == parsed(s, 65535)->0,
        parsed(s, 65535) is None ==> port_of(s, kind) == Err::<u16, Seq<char>>(
            "invalid "@ + kind + " port: '"@ + s + "'"@,
        ),
        parsed(s, 65535) == Some(0nat) ==> port_of(s, kind) == Err::<u16, Seq<char>>(
            "invalid "@ + kind + " port: 0"@,
        ),
{
}

/// The schemes are taken off once, and an address without one stays as it is.
pub proof fn schemes_are_taken_off(rest: Seq<char>, s: Seq<char>)
    ensures
        without_scheme("tcp://"@ + rest) == rest,
        without_scheme("http-json://"@ + rest) == rest,
        without_scheme("audio://"@ + rest) == rest,
        !starts_with_spec(s, "tcp://"@) && !starts_with_spec(s, "http-json://"@)
            && !starts_with_spec(s, "audio://"@) ==> without_scheme(s) == s,
{
    reveal_strlit("tcp://");
    reveal_strlit("http-json://");
    reveal_strlit("audio://");
    parts_are_found(Seq::empty(), "tcp://"@, rest);
    parts_are_found(Seq::empty(), "http-json://"@, rest);
    parts_are_found(Seq::empty(), "audio://"@, rest);
    let a = "tcp://"@ + rest;
    let b = "http-json://"@ + rest;
    let c = "audio://"@ + rest;
    assert(a.skip("tcp://"@.len() as int) =~= rest);
    assert(b.skip("http-json://"@.len() as int) =~= rest);
    assert(c.skip("audio://"@.len() as int) =~= rest);
    if starts_with_spec(b, "tcp://"@) {
        assert(b.take("tcp://"@.len() as int)[0] == b[0]);
    }
    if starts_with_spec(c, "tcp://"@) {
        assert(c.take("tcp://"@.len() as int)[0] == c[0]);
    }
    if starts_with_spec(c, "http-json://"@) {
        assert(c.take("http-json://"@.len() as int)[0] == c[0]);
    }
}

/// An address is read without the white space around it and without its scheme, and an empty one is
/// refused.
pub proof fn addresses_are_read(url: Seq<char>, default_port: u16, kind: Seq<char>)
    ensures
        trimmed(url).len() == 0 ==> endpoint_of(url, default_port, kind) == Err::<
            (Seq<char>, u16),
            Seq<char>,
        >(kind + " url is empty"@),
        trimmed(url).len() > 0 ==> endpoint_of(url, default_port, kind) == host_port_of(
            without_scheme(trimmed(url)),
            default_port,
            kind,
        ),
{
}

/// A host has a port behind its colon, in brackets or plain, and what is wrong with an address is said.
pub proof fn addresses_with_a_port(
    host: Seq<char>,
    port: Seq<char>,
    default_port: u16,
    kind: Seq<char>,
)
    ensures
        host.len() > 0 && host[0] != '[' && !host.contains(':') && !port.contains(':') ==> (
        match port_of(port, kind) {
            Ok(p) => host_port_of(host + ":"@ + port, default_port, kind) == Ok::<
                (Seq<char>, u16),
                Seq<char>,
            >((host, p)),
            Err(m) => host_port_of(host + ":"@ + port, default_port, kind) == Err::<
                (Seq<char>, u16),
                Seq<char>,
            >(m),
        }),
        (host.len() == 0 || host[0] != '[') && !host.contains(':') && port.contains(':')
            ==> host_port_of(host + ":"@ + port, default_port, kind) == Err::<
            (Seq<char>, u16),
            Seq<char>,
        >("invalid "@ + kind + " url: IPv6 host must be bracketed like [::1]:4532"@),
        !port.contains(':') ==> host_port_of(":"@ + port, default_port, kind) == Err::<
            (Seq<char>, u16),
            Seq<char>,
        >("invalid "@ + kind + " url: host is empty"@),
{
    reveal_strlit(":");
    let s = host + ":"@ + port;
    if !host.contains(':') {
        assert forall|j: int| 0 <= j < host.len() implies s[j] != ':' by {
            assert(host.contains(host[j]));
        }
        assert(s[host.len() as int] == ':');
        first_index_is(s, ':', host.len() as int);
        assert(s.take(host.len() as int) =~= host);
        assert(s.skip(host.len() as int + 1) =~= port);
        assert(host.len() > 0 ==> s[0] == host[0]);
    }
    let t = ":"@ + port;
    first_index_is(t, ':', 0);
    assert(t.take(0).len() == 0);
    assert(t.skip(1) =~= port);
}

/// What stands behind a host in brackets is a port or nothing, and the brackets are closed and not
/// empty.
pub proof fn addresses_in_brackets(
    host: Seq<char>,
    tail: Seq<char>,
    default_port: u16,
    kind: Seq<char>,
)
    requires
        !host.contains(']'),
    ensures
        host_port_of("["@ + host, default_port, kind) == Err::<(Seq<char>, u16), Seq<char>>(
            "invalid "@ + kind + " url: missing closing ']' for IPv6 host"@,
        ),
        host_port_of("[]"@ + tail, default_port, kind) == Err::<(Seq<char>, u16), Seq<char>>(
            "invalid "@ + kind + " url: host is empty"@,
        ),
        host.len() > 0 && tail.len() > 0 && tail[0] != ':' ==> host_port_of(
            "["@ + host + "]"@ + tail,
            default_port,
            kind,
        ) == Err::<(Seq<char>, u16), Seq<char>>(
            "invalid "@ + kind + " url: expected ':<port>' after ']'"@,
        ),
        host.len() > 0 && tail.len() > 0 && tail[0] == ':' ==> (match port_of(tail.skip(1), kind) {
            Ok(p) => host_port_of("["@ + host + "]"@ + tail, default_port, kind) == Ok::<
                (Seq<char>, u16),
                Seq<char>,
            >((host, p)),
            Err(m) => host_port_of("["@ + host + "]"@ + tail, default_port, kind) == Err::<
                (Seq<char>, u16),
                Seq<char>,
            >(m),
        }),
{
    reveal_strlit("[");
    reveal_strlit("]");
    reveal_strlit("[]");
    let open = "["@ + host;
    assert(open.drop_first() =~= host);
    first_index_meaning(host, ']');
    if first_index(host, ']') < host.len() {
        assert(host.contains(host[first_index(host, ']')]));
    }
    let empty = "[]"@ + tail;
    assert(empty.drop_first()[0] == ']');
    first_index_is(empty.drop_first(), ']', 0);
    assert(empty.drop_first().take(0).len() == 0);
    let s = "["@ + host + "]"@ + tail;
    let rest = s.drop_first();
    assert(rest =~= host + seq![']'] + tail);
    assert forall|j: int| 0 <= j < host.len() implies rest[j] != ']' by {
        assert(host.contains(host[j]));
    }
    first_index_is(rest, ']', host.len() as int);
    assert(rest.take(host.len() as int) =~= host);
    assert(rest.skip(host.len() as int + 1) =~= tail);
    if tail.len() > 0 {
        assert(tail.drop_first() =~= tail.skip(1));
    }
}

/// A host that holds a colon stands in brackets before its port, unless it has brackets already.
pub proof fn addresses_to_connect_to(host: Seq<char>, port: u16)
    ensures
        !host.contains(':') ==> address(host, port) == host + ":"@ + decimal(port as nat),
        host.len() > 0 && host[0] == '[' ==> address(host, port) == host + ":"@ + decimal(
            port as nat,
        ),
        host.contains(':') && host[0] != '[' ==> address(host, port) == "["@ + host + "]:"@
            + decimal(port as nat),
{
}

} // verus!
