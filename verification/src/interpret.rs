//! Turning raw request parameters and connection metadata into a
//! validated announce, and routing a request path.

use vstd::prelude::*;
use vstd::string::StringExecFns;

use crate::announce::Action;
use crate::announce::Announce;
use crate::announce::AnnounceView;
use crate::announce::ErrorResponse;
use crate::net::Ip;
use crate::net::Remote;
use crate::net::SockV4;
use crate::net::SockV6;
use crate::parse::chars_of;
use crate::parse::parse_ip;
use crate::parse::parse_port;
use crate::parse::parse_sock;
use crate::parse::parse_u64;
use crate::parse::spec_parse_ip;
use crate::parse::spec_parse_port;
use crate::parse::spec_parse_sock;
use crate::parse::spec_parse_u64;

verus! {

/// The key/value pairs of a parameter list, as sequences.
pub open spec fn pairs_view(ps: Seq<(String, String)>) -> Seq<(Seq<char>, Seq<char>)> {
    ps.map_values(|p: (String, String)| (p.0@, p.1@))
}

/// The pairs a query string encodes. Named for what
/// url::form_urlencoded computes: the split on `&` and `=` with
/// percent- and plus-decoding applied, in writing order.
pub uninterp spec fn query_pairs_of(q: Seq<char>) -> Seq<(Seq<char>, Seq<char>)>;

/// Relies on url::form_urlencoded::parse: the key/value pairs the
/// query string between the two positions encodes, decoded, in order.
#[verifier::external_body]
pub fn parse_query(q: &Vec<char>, lo: usize, hi: usize) -> (r: Vec<(String, String)>)
    requires
        lo <= hi <= q@.len(),
    ensures
        pairs_view(r@) == query_pairs_of(q@.subrange(lo as int, hi as int)),
{
    let s: String = q[lo..hi].iter().collect();
    url::form_urlencoded::parse(s.as_bytes()).into_owned().collect()
}

/// The value the last pair with this key carries, as a repeated key
/// overwrites an earlier one.
pub open spec fn spec_lookup(ps: Seq<(Seq<char>, Seq<char>)>, key: Seq<char>) -> Option<Seq<char>>
    decreases ps.len(),
{
    if ps.len() == 0 {
        None
    } else if ps.last().0 == key {
        Some(ps.last().1)
    } else {
        spec_lookup(ps.drop_last(), key)
    }
}

/// Whether a string equals a literal.
fn str_is(a: &String, lit: &str) -> (r: bool)
    ensures
        r == (a@ == lit@),
{
    let b = String::from_str(lit);
    a.eq(&b)
}

/// Looks a parameter up by key.
pub fn get_from_params(params: &Vec<(String, String)>, key: &str) -> (r: Option<String>)
    ensures
        match r {
            Some(x) => spec_lookup(pairs_view(params@), key@) == Some(x@),
            None => spec_lookup(pairs_view(params@), key@) is None,
        },
{
    let k = String::from_str(key);
    let mut res: Option<String> = None;
    let mut i: usize = 0;
    let n = params.len();
    while i < n
        invariant
            i <= n,
            n == params@.len(),
            k@ == key@,
            match res {
                Some(x) => spec_lookup(pairs_view(params@.take(i as int)), key@) == Some(x@),
                None => spec_lookup(pairs_view(params@.take(i as int)), key@) is None,
            },
        decreases n - i,
    {
        proof {
            assert(pairs_view(params@.take(i + 1)).drop_last() =~= pairs_view(
                params@.take(i as int),
            ));
            assert(pairs_view(params@.take(i + 1)).last() == (params@[i as int].0@, params@[
                i as int].1@));
        }
        if params[i].0.eq(&k) {
            res = Some(params[i].1.clone());
        }
        i += 1;
    }
    proof {
        assert(params@.take(n as int) =~= params@);
    }
    res
}

/// The role the remaining byte count implies: nothing left to fetch
/// means seeding.
pub open spec fn spec_action_from_left(left: u64) -> Action {
    if left == 0 {
        Action::Seeding
    } else {
        Action::Leeching
    }
}

/// Derives a role from the remaining byte count.
pub fn get_action(left: u64) -> (r: Action)
    ensures
        r == spec_action_from_left(left),
{
    if left == 0 {
        Action::Seeding
    } else {
        Action::Leeching
    }
}

/// The action an announce's `event` parameter resolves to: stopping
/// and completing are taken at their word, anything else falls back
/// to the remaining byte count.
pub open spec fn spec_resolve_action(event: Option<Seq<char>>, left: u64) -> Action {
    match event {
        Some(ev) => if ev == "stopped"@ {
            Action::Stopped
        } else if ev == "completed"@ {
            Action::Completed
        } else {
            spec_action_from_left(left)
        },
        None => spec_action_from_left(left),
    }
}

/// Law: an announce that starts with nothing left is seeding, one
/// with bytes still to fetch is leeching.
pub proof fn lemma_started_action(left: u64)
    ensures
        left == 0 ==> spec_resolve_action(Some("started"@), left) == Action::Seeding,
        left > 0 ==> spec_resolve_action(Some("started"@), left) == Action::Leeching,
{
    reveal_strlit("started");
    reveal_strlit("stopped");
    reveal_strlit("completed");
    assert("started"@ != "stopped"@) by {
        assert("started"@[2] == 'a');
        assert("stopped"@[2] == 'o');
    };
    assert("started"@ != "completed"@) by {
        assert("started"@.len() == 7);
        assert("completed"@.len() == 9);
    };
}

/// How many peers are wanted: the `numwant` parameter read as an
/// 8-bit number and clamped to 25; absent or unreadable means 25.
pub open spec fn spec_numwant(nw: Option<Seq<char>>) -> u8 {
    match nw {
        Some(s) => match spec_parse_u64(s) {
            Some(x) => if x > 255 {
                25u8
            } else if x > 25 {
                25u8
            } else {
                x as u8
            },
            None => 25u8,
        },
        None => 25u8,
    }
}

/// An address joined with the announced port.
pub open spec fn remote_of(ip: Ip, port: u16) -> Remote {
    match ip {
        Ip::V4(a) => Remote::V4(SockV4 { ip: a, port }),
        Ip::V6(a) => Remote::V6(SockV6 { ip: a, port }),
    }
}

/// What an explicit `ipv4`/`ipv6` parameter resolves to: a bare
/// address takes the announced port, a full endpoint speaks for
/// itself, and a value readable as both is ambiguous and dropped.
pub open spec fn spec_get_socket(val: Seq<char>, port: u16) -> Option<Remote> {
    match (spec_parse_ip(val), spec_parse_sock(val)) {
        (Some(ip), None) => Some(remote_of(ip, port)),
        (None, Some(sock)) => Some(sock),
        _ => None,
    }
}

/// Reads one explicit address parameter as [`spec_get_socket`] says.
fn get_socket(params: &Vec<(String, String)>, key: &str, port: u16) -> (r: Option<Remote>)
    ensures
        r == match spec_lookup(pairs_view(params@), key@) {
            Some(val) => spec_get_socket(val, port),
            None => None,
        },
{
    match get_from_params(params, key) {
        Some(s) => {
            let v = chars_of(s.as_str());
            proof {
                assert(v@.subrange(0, v@.len() as int) =~= v@);
            }
            let ip = parse_ip(&v, 0, v.len());
            let sock = parse_sock(&v, 0, v.len());
            match (ip, sock) {
                (Some(i), None) => {
                    match i {
                        Ip::V4(a) => Some(Remote::V4(SockV4 { ip: a, port })),
                        Ip::V6(a) => Some(Remote::V6(SockV6 { ip: a, port })),
                    }
                },
                (None, Some(sk)) => Some(sk),
                _ => None,
            }
        },
        None => None,
    }
}

/// A remote endpoint's address joined with the announced port: the
/// compact peer entry must carry the port the peer listens on, not
/// the connection's source port.
pub open spec fn spec_remote_with_port(remote: Remote, port: u16) -> Remote {
    match remote {
        Remote::V4(s) => Remote::V4(SockV4 { ip: s.ip, port }),
        Remote::V6(s) => Remote::V6(SockV6 { ip: s.ip, port }),
    }
}

/// The candidate endpoint before explicit parameters: a forwarded
/// address from a proxy header if it reads as an IP, else the
/// connection's own remote address — either way joined with the
/// announced port.
pub open spec fn spec_default_candidate(
    forwarded: Option<Seq<char>>,
    remote: Remote,
    port: u16,
) -> Remote {
    match forwarded {
        Some(h) => match spec_parse_ip(h) {
            Some(ip) => remote_of(ip, port),
            None => spec_remote_with_port(remote, port),
        },
        None => spec_remote_with_port(remote, port),
    }
}

/// The candidate endpoint: an explicit `ip` parameter that reads as
/// an IP overrides the default candidate.
pub open spec fn spec_candidate(
    ps: Seq<(Seq<char>, Seq<char>)>,
    forwarded: Option<Seq<char>>,
    remote: Remote,
    port: u16,
) -> Remote {
    match spec_lookup(ps, "ip"@) {
        Some(val) => match spec_parse_ip(val) {
            Some(ip) => remote_of(ip, port),
            None => spec_default_candidate(forwarded, remote, port),
        },
        None => spec_default_candidate(forwarded, remote, port),
    }
}

/// Both resolved endpoints: the candidate fills its own family, and
/// the other family is taken from an explicit parameter when one
/// resolves.
pub open spec fn spec_resolve_ips(
    ps: Seq<(Seq<char>, Seq<char>)>,
    forwarded: Option<Seq<char>>,
    remote: Remote,
    port: u16,
) -> (Option<SockV4>, Option<SockV6>) {
    match spec_candidate(ps, forwarded, remote, port) {
        Remote::V4(v4) => {
            let v6 = match spec_lookup(ps, "ipv6"@) {
                Some(val) => match spec_get_socket(val, port) {
                    Some(Remote::V6(s)) => Some(s),
                    _ => None,
                },
                None => None,
            };
            (Some(v4), v6)
        },
        Remote::V6(v6) => {
            let v4 = match spec_lookup(ps, "ipv4"@) {
                Some(val) => match spec_get_socket(val, port) {
                    Some(Remote::V4(s)) => Some(s),
                    _ => None,
                },
                None => None,
            };
            (v4, Some(v6))
        },
    }
}

/// The forwarded header's characters, if one arrived.
pub open spec fn fwd_view(forwarded: Option<&String>) -> Option<Seq<char>> {
    match forwarded {
        Some(f) => Some(f@),
        None => None,
    }
}

/// Resolves the announce's IPv4 and IPv6 endpoints, as
/// [`spec_resolve_ips`] says.
fn get_ips(
    params: &Vec<(String, String)>,
    remote: Remote,
    forwarded: Option<&String>,
    port: u16,
) -> (r: (Option<SockV4>, Option<SockV6>))
    ensures
        r == spec_resolve_ips(pairs_view(params@), fwd_view(forwarded), remote, port),
{
    let fallback = match remote {
        Remote::V4(sv) => Remote::V4(SockV4 { ip: sv.ip, port }),
        Remote::V6(sv) => Remote::V6(SockV6 { ip: sv.ip, port }),
    };
    let default_ip = match forwarded {
        Some(h) => {
            let v = chars_of(h.as_str());
            proof {
                assert(v@.subrange(0, v@.len() as int) =~= v@);
            }
            match parse_ip(&v, 0, v.len()) {
                Some(Ip::V4(a)) => Remote::V4(SockV4 { ip: a, port }),
                Some(Ip::V6(a)) => Remote::V6(SockV6 { ip: a, port }),
                None => fallback,
            }
        },
        None => fallback,
    };
    let candidate = match get_from_params(params, "ip") {
        Some(s) => {
            let v = chars_of(s.as_str());
            proof {
                assert(v@.subrange(0, v@.len() as int) =~= v@);
            }
            match parse_ip(&v, 0, v.len()) {
                Some(Ip::V4(a)) => Remote::V4(SockV4 { ip: a, port }),
                Some(Ip::V6(a)) => Remote::V6(SockV6 { ip: a, port }),
                None => default_ip,
            }
        },
        None => default_ip,
    };
    match candidate {
        Remote::V4(v4) => {
            let v6 = match get_socket(params, "ipv6", port) {
                Some(Remote::V6(s)) => Some(s),
                _ => None,
            };
            (Some(v4), v6)
        },
        Remote::V6(v6) => {
            let v4 = match get_socket(params, "ipv4", port) {
                Some(Remote::V4(s)) => Some(s),
                _ => None,
            };
            (v4, Some(v6))
        },
    }
}

/// The announce a parameter list and connection metadata yield, or
/// the request failure the client is told about.
pub open spec fn spec_interpret(
    ps: Seq<(Seq<char>, Seq<char>)>,
    remote: Remote,
    forwarded: Option<Seq<char>>,
) -> Result<AnnounceView, ErrorResponse> {
    match spec_lookup(ps, "info_hash"@) {
        None => Err(ErrorResponse::BadRequest),
        Some(info_hash) => match spec_lookup(ps, "peer_id"@) {
            None => Err(ErrorResponse::BadRequest),
            Some(peer_id) => match spec_lookup(ps, "uploaded"@) {
                None => Err(ErrorResponse::BadRequest),
                Some(ul_s) => match spec_parse_u64(ul_s) {
                    None => Err(ErrorResponse::BadRequest),
                    Some(ul) => match spec_lookup(ps, "downloaded"@) {
                        None => Err(ErrorResponse::BadRequest),
                        Some(dl_s) => match spec_parse_u64(dl_s) {
                            None => Err(ErrorResponse::BadRequest),
                            Some(dl) => match spec_lookup(ps, "left"@) {
                                None => Err(ErrorResponse::BadRequest),
                                Some(left_s) => match spec_parse_u64(left_s) {
                                    None => Err(ErrorResponse::BadRequest),
                                    Some(left) => match spec_lookup(ps, "port"@) {
                                        None => Err(ErrorResponse::BadRequest),
                                        Some(port_s) => match spec_parse_port(port_s) {
                                            None => Err(ErrorResponse::BadRequest),
                                            Some(port) => {
                                                let ips = spec_resolve_ips(
                                                    ps,
                                                    forwarded,
                                                    remote,
                                                    port,
                                                );
                                                Ok(
                                                    AnnounceView {
                                                        info_hash: info_hash,
                                                        peer_id: peer_id,
                                                        ipv4: ips.0,
                                                        ipv6: ips.1,
                                                        ul: ul,
                                                        dl: dl,
                                                        left: left,
                                                        action: spec_resolve_action(
                                                            spec_lookup(ps, "event"@),
                                                            left,
                                                        ),
                                                        numwant: spec_numwant(
                                                            spec_lookup(ps, "numwant"@),
                                                        ),
                                                    },
                                                )
                                            },
                                        },
                                    },
                                },
                            },
                        },
                    },
                },
            },
        },
    }
}

/// Law: an announce that interprets successfully carries at least one
/// resolved endpoint.
pub proof fn lemma_announce_has_endpoint(
    ps: Seq<(Seq<char>, Seq<char>)>,
    remote: Remote,
    forwarded: Option<Seq<char>>,
)
    requires
        spec_interpret(ps, remote, forwarded) is Ok,
    ensures
        spec_interpret(ps, remote, forwarded)->Ok_0.ipv4 is Some || spec_interpret(
            ps,
            remote,
            forwarded,
        )->Ok_0.ipv6 is Some,
{
}

/// Reads one u64 counter parameter, or fails the request.
fn require_u64(params: &Vec<(String, String)>, key: &str) -> (r: Result<u64, ErrorResponse>)
    ensures
        match r {
            Ok(x) => ({
                &&& spec_lookup(pairs_view(params@), key@) is Some
                &&& spec_parse_u64(spec_lookup(pairs_view(params@), key@)->0) == Some(x)
            }),
            Err(e) => e == ErrorResponse::BadRequest && match spec_lookup(
                pairs_view(params@),
                key@,
            ) {
                Some(s) => spec_parse_u64(s) is None,
                None => true,
            },
        },
{
    match get_from_params(params, key) {
        Some(s) => {
            let v = chars_of(s.as_str());
            proof {
                assert(v@.subrange(0, v@.len() as int) =~= v@);
            }
            match parse_u64(&v, 0, v.len()) {
                Some(x) => Ok(x),
                None => Err(ErrorResponse::BadRequest),
            }
        },
        None => Err(ErrorResponse::BadRequest),
    }
}

/// Builds a validated announce from decoded query parameters and the
/// connection's metadata, or reports why the request is bad.
pub fn request_to_announce(
    params: &Vec<(String, String)>,
    remote: Remote,
    forwarded: Option<&String>,
) -> (r: Result<Announce, ErrorResponse>)
    ensures
        match r {
            Ok(a) => spec_interpret(pairs_view(params@), remote, fwd_view(forwarded)) == Ok::<
                AnnounceView,
                ErrorResponse,
            >(a@),
            Err(e) => spec_interpret(pairs_view(params@), remote, fwd_view(forwarded)) == Err::<
                AnnounceView,
                ErrorResponse,
            >(e),
        },
{
    let info_hash = match get_from_params(params, "info_hash") {
        Some(s) => s,
        None => {
            return Err(ErrorResponse::BadRequest);
        },
    };
    let peer_id = match get_from_params(params, "peer_id") {
        Some(s) => s,
        None => {
            return Err(ErrorResponse::BadRequest);
        },
    };
    let ul = match require_u64(params, "uploaded") {
        Ok(x) => x,
        Err(e) => {
            return Err(e);
        },
    };
    let dl = match require_u64(params, "downloaded") {
        Ok(x) => x,
        Err(e) => {
            return Err(e);
        },
    };
    let left = match require_u64(params, "left") {
        Ok(x) => x,
        Err(e) => {
            return Err(e);
        },
    };
    let port = match get_from_params(params, "port") {
        Some(s) => {
            let v = chars_of(s.as_str());
            proof {
                assert(v@.subrange(0, v@.len() as int) =~= v@);
            }
            match parse_port(&v, 0, v.len()) {
                Some(p) => p,
                None => {
                    return Err(ErrorResponse::BadRequest);
                },
            }
        },
        None => {
            return Err(ErrorResponse::BadRequest);
        },
    };
    let ips = get_ips(params, remote, forwarded, port);
    let action = match get_from_params(params, "event") {
        Some(ev) => {
            if str_is(&ev, "stopped") {
                Action::Stopped
            } else if str_is(&ev, "completed") {
                Action::Completed
            } else {
                get_action(left)
            }
        },
        None => get_action(left),
    };
    let numwant = match get_from_params(params, "numwant") {
        Some(s) => {
            let v = chars_of(s.as_str());
            proof {
                assert(v@.subrange(0, v@.len() as int) =~= v@);
            }
            match parse_u64(&v, 0, v.len()) {
                Some(x) => {
                    if x > 25 {
                        25
                    } else {
                        x as u8
                    }
                },
                None => 25,
            }
        },
        None => 25,
    };
    Ok(
        Announce {
            info_hash,
            peer_id,
            ipv4: ips.0,
            ipv6: ips.1,
            ul,
            dl,
            left,
            action,
            numwant,
        },
    )
}


/// The two request kinds the tracker serves.
#[derive(Clone, Copy, PartialEq, Eq, Structural, Debug)]
pub enum Route {
    Announce,
    Scrape,
}

/// What a request path routes to: the kind and where its query
/// string starts; a path without a query string, or for anything but
/// an announce or a scrape, is a bad action.
pub open spec fn spec_classify(s: Seq<char>) -> Result<(Route, int), ErrorResponse> {
    let i = crate::parse::find0(s, '?');
    if i < 0 {
        Err(ErrorResponse::BadAction)
    } else if s.take(i + 1) == "/announce?"@ {
        Ok((Route::Announce, i + 1))
    } else if s.take(i + 1) == "/scrape?"@ {
        Ok((Route::Scrape, i + 1))
    } else {
        Err(ErrorResponse::BadAction)
    }
}

/// Whether the string up to a position spells a literal.
fn prefix_is(v: &Vec<char>, hi: usize, lit: &str) -> (r: bool)
    requires
        hi <= v@.len(),
    ensures
        r == (v@.take(hi as int) == lit@),
{
    let l = chars_of(lit);
    if hi != l.len() {
        proof {
            assert(v@.take(hi as int).len() != lit@.len());
        }
        return false;
    }
    let mut k: usize = 0;
    while k < hi
        invariant
            k <= hi <= v@.len(),
            l@ == lit@,
            hi == l@.len(),
            forall|p: int| 0 <= p < k ==> v@[p] == lit@[p],
        decreases hi - k,
    {
        if v[k] != l[k] {
            proof {
                assert(v@.take(hi as int)[k as int] != lit@[k as int]);
            }
            return false;
        }
        k += 1;
    }
    proof {
        assert(v@.take(hi as int) =~= lit@);
    }
    true
}

/// Splits a request path into its route and query string.
pub fn classify_path(path: &Vec<char>) -> (r: Result<(Route, usize), ErrorResponse>)
    ensures
        match r {
            Ok(rq) => rq.1 <= path@.len() && spec_classify(path@) == Ok::<
                (Route, int),
                ErrorResponse,
            >((rq.0, rq.1 as int)),
            Err(e) => spec_classify(path@) == Err::<(Route, int), ErrorResponse>(e),
        },
{
    proof {
        assert(path@.subrange(0, path@.len() as int) =~= path@);
    }
    match crate::parse::find_char_pub(path, 0, path.len(), '?') {
        None => Err(ErrorResponse::BadAction),
        Some(i) => {
            if prefix_is(path, i + 1, "/announce?") {
                Ok((Route::Announce, i + 1))
            } else if prefix_is(path, i + 1, "/scrape?") {
                Ok((Route::Scrape, i + 1))
            } else {
                Err(ErrorResponse::BadAction)
            }
        },
    }
}

/// A routed request: a validated announce, or a scrape with its
/// decoded parameters.
pub enum Request {
    Announce(Announce),
    Scrape(Vec<(String, String)>),
}

/// Routes one request path and, for an announce, builds the validated
/// announce from its query string and the connection's metadata.
pub fn interpret_request(path: &Vec<char>, remote: Remote, forwarded: Option<&String>) -> (r:
    Result<Request, ErrorResponse>)
    ensures
        ({
            let c = spec_classify(path@);
            match r {
                Ok(req) => match req {
                    Request::Announce(a) => c is Ok && c->Ok_0.0 == Route::Announce
                        && spec_interpret(
                        query_pairs_of(path@.skip(c->Ok_0.1)),
                        remote,
                        fwd_view(forwarded),
                    ) == Ok::<AnnounceView, ErrorResponse>(a@),
                    Request::Scrape(ps) => c is Ok && c->Ok_0.0 == Route::Scrape && pairs_view(
                        ps@,
                    ) == query_pairs_of(path@.skip(c->Ok_0.1)),
                },
                Err(e) => (c == Err::<(Route, int), ErrorResponse>(e)) || (c is Ok && c->Ok_0.0
                    == Route::Announce && spec_interpret(
                    query_pairs_of(path@.skip(c->Ok_0.1)),
                    remote,
                    fwd_view(forwarded),
                ) == Err::<AnnounceView, ErrorResponse>(e)),
            }
        }),
{
    match classify_path(path) {
        Err(e) => Err(e),
        Ok((route, q)) => {
            let params = parse_query(path, q, path.len());
            proof {
                assert(path@.subrange(q as int, path@.len() as int) =~= path@.skip(q as int));
            }
            match route {
                Route::Announce => {
                    match request_to_announce(&params, remote, forwarded) {
                        Ok(a) => Ok(Request::Announce(a)),
                        Err(e) => Err(e),
                    }
                },
                Route::Scrape => Ok(Request::Scrape(params)),
            }
        },
    }
}

} // verus!
