//! Agent URLs: `agent://<id>.relay.<domain>[:port][/agent]` for a gateway behind a relay, and
//! `agent://<host>[:port][/agent]` for one that is dialled directly.
use vstd::prelude::*;
use vstd::string::*;

use crate::text;

verus! {

/// The port of a relay whose URL names none.
pub const RELAY_PORT: u16 = 8443;

/// The port of a direct gateway whose URL names none.
pub const DIRECT_PORT: u16 = 86;

/// Where an agent is, and how to get there.
#[derive(Debug, PartialEq, Eq)]
pub struct AgentUrl {
    /// The host as the URL names it.
    pub relay_host: String,
    pub port: u16,
    /// The agent behind the gateway, where the URL names one.
    pub agent: Option<String>,
    /// Whether the connection is encrypted.
    pub use_tls: bool,
    /// The host to dial: without the gateway's id where there is a relay.
    pub tls_domain: String,
    /// The id of the gateway behind the relay.
    pub relay_target: Option<String>,
    /// The secret that the relay asks for.
    pub relay_token: Option<String>,
}

/// Why a text is not an agent URL.
#[derive(Clone, Copy, Debug, PartialEq, Eq, Structural)]
pub enum UrlError {
    /// It does not begin with `agent://`.
    Scheme,
    /// It names no host.
    Host,
    /// What follows the host's colon is not the number of a port.
    Port,
}

/// What an agent URL says.
#[verifier::ext_equal]
pub struct UrlView {
    pub relay_host: Seq<char>,
    pub port: u16,
    pub agent: Option<Seq<char>>,
    pub use_tls: bool,
    pub tls_domain: Seq<char>,
    pub relay_target: Option<Seq<char>>,
    pub relay_token: Option<Seq<char>>,
}

impl View for AgentUrl {
    type V = UrlView;

    open spec fn view(&self) -> UrlView {
        UrlView {
            relay_host: self.relay_host@,
            port: self.port,
            agent: text::opt_string(self.agent),
            use_tls: self.use_tls,
            tls_domain: self.tls_domain@,
            relay_target: text::opt_string(self.relay_target),
            relay_token: text::opt_string(self.relay_token),
        }
    }
}

/// The id and the relay's own host in a host name of the form `<id>.relay.<domain>`.
pub open spec fn relay_parts(host: Seq<char>) -> Option<(Seq<char>, Seq<char>)> {
    match text::cut_at(host, '.') {
        (id, Some(relay)) => if id.len() > 0 && text::begins_with(relay, "relay."@) && relay.len()
            > "relay."@.len() {
            Some((id, relay))
        } else {
            None
        },
        _ => None,
    }
}

/// The port that a URL names behind the host's colon.
pub open spec fn named_port(digits: Seq<char>) -> Option<u16> {
    if text::all_digits(digits) && text::number_of(digits) <= 65535 {
        Some(text::number_of(digits) as u16)
    } else {
        None
    }
}

/// What a URL of this host, port and path says.
pub open spec fn located(host: Seq<char>, port: Option<u16>, path: Option<Seq<char>>) -> UrlView {
    let relay = relay_parts(host);
    UrlView {
        relay_host: host,
        port: match port {
            Some(p) => p,
            None => if relay is Some {
                RELAY_PORT
            } else {
                DIRECT_PORT
            },
        },
        agent: match path {
            Some(p) => if p.len() > 0 {
                Some(p)
            } else {
                None
            },
            None => None,
        },
        use_tls: relay is Some,
        tls_domain: match relay {
            Some(parts) => parts.1,
            None => host,
        },
        relay_target: match relay {
            Some(parts) => Some(parts.0),
            None => None,
        },
        relay_token: None,
    }
}

/// What a text says as an agent URL.
pub open spec fn parsed(url: Seq<char>) -> Result<UrlView, UrlError> {
    if !text::begins_with(url, "agent://"@) {
        Err(UrlError::Scheme)
    } else {
        let (authority, path) = text::cut_at(url.skip("agent://"@.len() as int), '/');
        let (host, port) = text::cut_at(authority, ':');
        if host.len() == 0 {
            Err(UrlError::Host)
        } else {
            match port {
                None => Ok(located(host, None, path)),
                Some(digits) => match named_port(digits) {
                    Some(p) => Ok(located(host, Some(p), path)),
                    None => Err(UrlError::Port),
                },
            }
        }
    }
}

/// The id and the relay's own host in a host name, where it names a relay.
fn split_relay(host: &str) -> (parts: Option<(String, String)>)
    ensures
        relay_parts(host@) == (match parts {
            Some(p) => Some((p.0@, p.1@)),
            None => None,
        }),
{
    let (id, rest) = text::cut(host, '.');
    match rest {
        Some(relay) => {
            let domain = text::after(relay.as_str(), "relay.");
            match domain {
                Some(domain) => if !id.as_str().is_empty() && !domain.as_str().is_empty() {
                    Some((id, relay))
                } else {
                    None
                },
                None => None,
            }
        },
        None => None,
    }
}

impl AgentUrl {
    /// Reads an agent URL.
    pub fn parse(url: &str) -> (parsed_url: Result<AgentUrl, UrlError>)
        ensures
            parsed(url@) == (match parsed_url {
                Ok(u) => Ok::<UrlView, UrlError>(u@),
                Err(e) => Err::<UrlView, UrlError>(e),
            }),
    {
        let rest = match text::after(url, "agent://") {
            Some(rest) => rest,
            None => return Err(UrlError::Scheme),
        };
        let (authority, path) = text::cut(rest.as_str(), '/');
        let (host, digits) = text::cut(authority.as_str(), ':');
        if host.as_str().is_empty() {
            return Err(UrlError::Host);
        }
        let port: Option<u16> = match digits {
            Some(digits) => match text::parse_u16(digits.as_str()) {
                Some(p) => Some(p),
                None => return Err(UrlError::Port),
            },
            None => None,
        };
        let agent = match path {
            Some(path) => if path.as_str().is_empty() {
                None
            } else {
                Some(path)
            },
            None => None,
        };
        let parsed_url = match split_relay(host.as_str()) {
            Some((id, relay)) => AgentUrl {
                relay_host: host,
                port: port.unwrap_or(RELAY_PORT),
                agent,
                use_tls: true,
                tls_domain: relay,
                relay_target: Some(id),
                relay_token: None,
            },
            None => AgentUrl {
                tls_domain: host.clone(),
                relay_host: host,
                port: port.unwrap_or(DIRECT_PORT),
                agent,
                use_tls: false,
                relay_target: None,
                relay_token: None,
            },
        };
        Ok(parsed_url)
    }
}

/// The part of a URL behind its host and port.
pub open spec fn path_part(path: Option<Seq<char>>) -> Seq<char> {
    match path {
        Some(p) => seq!['/'] + p,
        None => Seq::empty(),
    }
}

/// A URL that is put together from a host, a port and a path is read as these.
pub proof fn parts_are_read_back(host: Seq<char>, digits: Seq<char>, path: Option<Seq<char>>)
    requires
        host.len() > 0,
        !host.contains('/'),
        !host.contains(':'),
        named_port(digits) is Some,
    ensures
        parsed("agent://"@ + host + path_part(path)) == Ok::<UrlView, UrlError>(
            located(host, None, path),
        ),
        parsed("agent://"@ + host + seq![':'] + digits + path_part(path)) == Ok::<UrlView, UrlError>(
            located(host, named_port(digits), path),
        ),
{
    let scheme = "agent://"@;
    let bare = scheme + host + path_part(path);
    let full = scheme + host + seq![':'] + digits + path_part(path);
    let authority = host + seq![':'] + digits;
    assert(bare.take(scheme.len() as int) =~= scheme);
    assert(full.take(scheme.len() as int) =~= scheme);
    assert(bare.skip(scheme.len() as int) =~= host + path_part(path));
    assert(full.skip(scheme.len() as int) =~= authority + path_part(path));
    assert(!authority.contains('/')) by {
        if authority.contains('/') {
            let i = choose|i: int| 0 <= i < authority.len() && authority[i] == '/';
            if i < host.len() {
                assert(host[i] == '/');
            } else if i > host.len() {
                assert(digits[i - host.len() - 1] == '/');
            }
        }
    }
    match path {
        Some(p) => {
            text::lemma_cut_at(host, '/', p);
            text::lemma_cut_at(authority, '/', p);
            assert(host + path_part(path) =~= host + seq!['/'] + p);
            assert(authority + path_part(path) =~= authority + seq!['/'] + p);
        },
        None => {
            text::lemma_cut_at(host, '/', Seq::empty());
            text::lemma_cut_at(authority, '/', Seq::empty());
            assert(host + path_part(path) =~= host);
            assert(authority + path_part(path) =~= authority);
        },
    }
    text::lemma_cut_at(host, ':', digits);
}

/// A gateway that has no relay is dialled under the name that its URL gives; behind a relay it is the
/// relay that is dialled, whose name follows the gateway's id.
pub proof fn dialled_host(host: Seq<char>, port: Option<u16>, path: Option<Seq<char>>)
    ensures
        ({
            let url = located(host, port, path);
            match url.relay_target {
                Some(id) => url.relay_host == id + seq!['.'] + url.tls_domain,
                None => url.relay_host == url.tls_domain,
            }
        }),
{
    host.index_of_first_ensures('.');
    match relay_parts(host) {
        Some(parts) => {
            assert(host =~= parts.0 + seq!['.'] + parts.1);
        },
        None => {},
    }
}

/// The text of a URL: a host, the port's digits where there are some, and a path where there is one.
proof fn lemma_read_back(
    host: Seq<char>,
    digits: Option<Seq<char>>,
    path: Option<Seq<char>>,
    url: Seq<char>,
)
    requires
        host.len() > 0,
        !host.contains('/'),
        !host.contains(':'),
        digits matches Some(d) ==> text::all_digits(d) && text::number_of(d) <= 65535,
        url == "agent://"@ + host + (match digits {
            Some(d) => seq![':'] + d,
            None => Seq::empty(),
        }) + (match path {
            Some(p) => seq!['/'] + p,
            None => Seq::empty(),
        }),
    ensures
        parsed(url) == Ok::<UrlView, UrlError>(
            located(
                host,
                match digits {
                    Some(d) => Some(text::number_of(d) as u16),
                    None => None,
                },
                path,
            ),
        ),
{
    match digits {
        Some(d) => {
            parts_are_read_back(host, d, path);
            assert(url =~= "agent://"@ + host + seq![':'] + d + path_part(path));
        },
        None => {
            text::decimal_spells_its_number(0);
            parts_are_read_back(host, text::decimal(0), path);
            assert(url =~= "agent://"@ + host + path_part(path));
        },
    }
}

/// A URL of a gateway behind a relay names the gateway's id, `relay` and the relay's domain, and may
/// name a port and an agent. The relay is dialled under `relay.` and its domain, encrypted, at that port
/// or at 8443, and the id is the relay's target. An empty agent is none.
pub proof fn relay_urls_name_the_gateway(
    id: Seq<char>,
    domain: Seq<char>,
    digits: Option<Seq<char>>,
    path: Option<Seq<char>>,
    url: Seq<char>,
)
    requires
        id.len() > 0,
        domain.len() > 0,
        !id.contains('.') && !id.contains('/') && !id.contains(':'),
        !domain.contains('/') && !domain.contains(':'),
        digits matches Some(d) ==> text::all_digits(d) && text::number_of(d) <= 65535,
        url == "agent://"@ + (id + ".relay."@ + domain) + (match digits {
            Some(d) => seq![':'] + d,
            None => Seq::empty(),
        }) + (match path {
            Some(p) => seq!['/'] + p,
            None => Seq::empty(),
        }),
    ensures
        parsed(url) matches Ok(u) && {
            &&& u.relay_host == id + ".relay."@ + domain
            &&& u.relay_target == Some(id)
            &&& u.tls_domain == "relay."@ + domain
            &&& u.use_tls
            &&& u.relay_token is None
            &&& u.port as int == (match digits {
                Some(d) => text::number_of(d) as int,
                None => 8443,
            })
            &&& u.agent == (match path {
                Some(p) => if p.len() > 0 {
                    Some(p)
                } else {
                    None
                },
                None => None,
            })
        },
{
    reveal_strlit(".relay.");
    reveal_strlit("relay.");
    let host = id + ".relay."@ + domain;
    assert(!host.contains('/') && !host.contains(':')) by {
        assert forall|i: int| 0 <= i < host.len() implies #[trigger] host[i] != '/' && host[i] != ':' by {
            if i < id.len() {
                assert(host[i] == id[i]);
            } else if i >= id.len() + 7 {
                assert(host[i] == domain[i - id.len() - 7]);
            } else {
                assert(host[i] == ".relay."@[i - id.len()]);
            }
        }
    }
    lemma_read_back(host, digits, path, url);
    assert(".relay."@ =~= seq!['.'] + "relay."@);
    assert(host =~= id + seq!['.'] + ("relay."@ + domain));
    text::lemma_cut_at(id, '.', "relay."@ + domain);
    text::beginning_is_followed_by_the_rest(domain, "relay."@, domain);
    assert(relay_parts(host) == Some((id, "relay."@ + domain)));
}

/// Any other host is dialled directly, under its own name and not encrypted, at the port that the URL
/// names or at 86.
pub proof fn direct_urls_name_the_host(
    host: Seq<char>,
    digits: Option<Seq<char>>,
    path: Option<Seq<char>>,
    url: Seq<char>,
)
    requires
        host.len() > 0,
        !host.contains('/'),
        !host.contains(':'),
        forall|id: Seq<char>, domain: Seq<char>|
            id.len() > 0 && !id.contains('.') && domain.len() > 0 ==> host != #[trigger] (id + ".relay."@
                + domain),
        digits matches Some(d) ==> text::all_digits(d) && text::number_of(d) <= 65535,
        url == "agent://"@ + host + (match digits {
            Some(d) => seq![':'] + d,
            None => Seq::empty(),
        }) + (match path {
            Some(p) => seq!['/'] + p,
            None => Seq::empty(),
        }),
    ensures
        parsed(url) matches Ok(u) && {
            &&& u.relay_host == host
            &&& u.tls_domain == host
            &&& u.relay_target is None
            &&& u.relay_token is None
            &&& !u.use_tls
            &&& u.port as int == (match digits {
                Some(d) => text::number_of(d) as int,
                None => 86,
            })
            &&& u.agent == (match path {
                Some(p) => if p.len() > 0 {
                    Some(p)
                } else {
                    None
                },
                None => None,
            })
        },
{
    lemma_read_back(host, digits, path, url);
    host.index_of_first_ensures('.');
    match relay_parts(host) {
        Some(parts) => {
            reveal_strlit(".relay.");
            reveal_strlit("relay.");
            let (id, relay) = parts;
            let domain = relay.skip(6);
            text::beginning_is_followed_by_the_rest(relay, "relay."@, domain);
            assert(host =~= id + seq!['.'] + relay);
            assert(!id.contains('.')) by {
                if id.contains('.') {
                    let i = choose|i: int| 0 <= i < id.len() && id[i] == '.';
                    assert(host[i] == '.');
                }
            }
            assert(host =~= id + ".relay."@ + domain);
            assert(host != id + ".relay."@ + domain);
        },
        None => {},
    }
}

/// What does not begin with `agent://` is no agent URL, nor is one that names no host, nor one that
/// names a port that is no number of at most 65535.
pub proof fn bad_urls_are_told(url: Seq<char>, host: Seq<char>, port: Seq<char>, rest: Seq<char>)
    requires
        !host.contains('/') && !host.contains(':'),
        !port.contains('/'),
    ensures
        (forall|r: Seq<char>| url != #[trigger] ("agent://"@ + r)) ==> parsed(url) == Err::<
            UrlView,
            UrlError,
        >(UrlError::Scheme),
        parsed("agent://"@) == Err::<UrlView, UrlError>(UrlError::Host),
        parsed("agent://"@ + seq!['/'] + rest) == Err::<UrlView, UrlError>(UrlError::Host),
        parsed("agent://"@ + seq![':'] + rest) == Err::<UrlView, UrlError>(UrlError::Host),
        host.len() > 0 && !(text::all_digits(port) && text::number_of(port) <= 65535) ==> parsed(
            "agent://"@ + host + seq![':'] + port,
        ) == Err::<UrlView, UrlError>(UrlError::Port) && parsed(
            "agent://"@ + host + seq![':'] + port + seq!['/'] + rest,
        ) == Err::<UrlView, UrlError>(UrlError::Port),
{
    let scheme = "agent://"@;
    let none = Seq::<char>::empty();
    if forall|r: Seq<char>| url != #[trigger] (scheme + r) {
        text::beginning_is_followed_by_the_rest(url, scheme, none);
        let r = url.skip(scheme.len() as int);
        assert(url != scheme + r);
    }
    text::lemma_cut_at(none, '/', none);
    text::lemma_cut_at(none, ':', none);
    text::beginning_is_followed_by_the_rest(none, scheme, none);
    assert(scheme + none =~= scheme);
    assert(scheme.skip(scheme.len() as int) =~= none);

    let slash = scheme + seq!['/'] + rest;
    assert(slash =~= scheme + (seq!['/'] + rest));
    text::beginning_is_followed_by_the_rest(none, scheme, seq!['/'] + rest);
    assert(slash.skip(scheme.len() as int) =~= none + seq!['/'] + rest);
    text::lemma_cut_at(none, '/', rest);

    let colon = scheme + seq![':'] + rest;
    assert(colon =~= scheme + (seq![':'] + rest));
    text::beginning_is_followed_by_the_rest(none, scheme, seq![':'] + rest);
    let behind = seq![':'] + rest;
    assert(colon.skip(scheme.len() as int) =~= behind);
    lemma_no_host(rest);

    let authority = host + seq![':'] + port;
    if host.len() > 0 {
        assert(!authority.contains('/')) by {
            assert forall|i: int| 0 <= i < authority.len() implies #[trigger] authority[i] != '/' by {
                if i < host.len() {
                    assert(authority[i] == host[i]);
                } else if i > host.len() {
                    assert(authority[i] == port[i - host.len() - 1]);
                }
            }
        }
        let short = scheme + host + seq![':'] + port;
        assert(short =~= scheme + authority);
        text::beginning_is_followed_by_the_rest(none, scheme, authority);
        assert(short.skip(scheme.len() as int) =~= authority);
        text::lemma_cut_at(authority, '/', rest);
        text::lemma_cut_at(host, ':', port);
        let long = scheme + host + seq![':'] + port + seq!['/'] + rest;
        assert(long =~= scheme + (authority + seq!['/'] + rest));
        text::beginning_is_followed_by_the_rest(none, scheme, authority + seq!['/'] + rest);
        assert(long.skip(scheme.len() as int) =~= authority + seq!['/'] + rest);
    }
}

/// Where a colon comes first there is no host, wherever the first slash stands.
proof fn lemma_no_host(rest: Seq<char>)
    ensures
        text::cut_at(text::cut_at(seq![':'] + rest, '/').0, ':').0.len() == 0,
{
    let behind = seq![':'] + rest;
    behind.index_of_first_ensures('/');
    let head = text::cut_at(behind, '/').0;
    assert(behind[0] == ':');
    assert(head.len() > 0 && head[0] == ':');
    assert(head =~= Seq::<char>::empty() + seq![':'] + head.skip(1));
    text::lemma_cut_at(Seq::empty(), ':', head.skip(1));
}

/// What an agent URL says is what its parts hold.
pub proof fn urls_say_what_they_hold(u: AgentUrl)
    ensures
        u@.relay_host == u.relay_host@,
        u@.port == u.port,
        u@.agent == text::opt_string(u.agent),
        u@.use_tls == u.use_tls,
        u@.tls_domain == u.tls_domain@,
        u@.relay_target == text::opt_string(u.relay_target),
        u@.relay_token == text::opt_string(u.relay_token),
{
}

}
