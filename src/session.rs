//! The portal session: the base URL of the portal's service, the endpoints and
//! query parameters of each handshake and fetch request, and the decisions of
//! a catalog fetch from one step's outcome to the next request.

use vstd::prelude::*;
use crate::text::{append_chars, chars_of, decimal, decimal_chars, string_of};

verus! {

/// Why a catalog fetch failed.
#[derive(Clone, Copy, Debug, PartialEq, Eq, Structural)]
pub enum FetchError {
    /// Connecting, a timeout or name resolution failed.
    Network,
    /// A handshake step answered with a failure, or with a body that does not parse.
    Auth,
    /// The catalog page could not be had or lacks its expected structure.
    Parse,
}

/// `{scheme}://{host}:{port}`.
pub open spec fn base_url_of(scheme: Seq<char>, host: Seq<char>, port: nat) -> Seq<char> {
    scheme + seq![':', '/', '/'] + host + seq![':'] + decimal(port)
}

/// The base URL of the portal's service, from the parts of the EPG URL that
/// the login answer carries; a missing host or port fails the handshake.
pub fn get_base_url(scheme: &str, host: Option<&str>, port: Option<u16>) -> (r: Result<String, FetchError>)
    ensures
        match (host, port) {
            (Some(h), Some(p)) => r matches Ok(u) && u@ == base_url_of(scheme@, h@, p as nat),
            _ => r == Err::<String, FetchError>(FetchError::Auth),
        },
{
    match (host, port) {
        (Some(h), Some(p)) => {
            let mut out = chars_of(scheme);
            out.push(':');
            out.push('/');
            out.push('/');
            append_chars(&mut out, chars_of(h).as_slice());
            out.push(':');
            append_chars(&mut out, decimal_chars(p as u64).as_slice());
            assert(out@ =~= base_url_of(scheme@, h@, p as nat));
            Ok(string_of(out.as_slice()))
        },
        _ => Err(FetchError::Auth),
    }
}

/// The portal's login endpoint.
pub open spec fn login_endpoint() -> Seq<char> {
    seq!['h', 't', 't', 'p', ':', '/', '/', 'e', 'd', 's', '.', 'i', 'p', 't', 'v', '.', 'g', 'd', '.', 'c', 'n', ':', '8', '0', '8', '2', '/', 'E', 'D', 'S', '/', 'j', 's', 'p', '/', 'A', 'u', 't', 'h', 'e', 'n', 't', 'i', 'c', 'a', 't', 'i', 'o', 'n', 'U', 'R', 'L']
}

pub open spec fn authorize_path() -> Seq<char> {
    seq!['/', 'E', 'P', 'G', '/', 'o', 'a', 'u', 't', 'h', '/', 'v', '2', '/', 'a', 'u', 't', 'h', 'o', 'r', 'i', 'z', 'e']
}

pub open spec fn token_path() -> Seq<char> {
    seq!['/', 'E', 'P', 'G', '/', 'o', 'a', 'u', 't', 'h', '/', 'v', '2', '/', 't', 'o', 'k', 'e', 'n']
}

pub open spec fn catalog_path() -> Seq<char> {
    seq!['/', 'E', 'P', 'G', '/', 'j', 's', 'p', '/', 'g', 'e', 't', 'c', 'h', 'a', 'n', 'n', 'e', 'l', 'l', 'i', 's', 't', 'H', 'W', 'C', 'T', 'C', '.', 'j', 's', 'p']
}

pub open spec fn guide_path() -> Seq<char> {
    seq!['/', 'E', 'P', 'G', '/', 'j', 's', 'p', '/', 'i', 'p', 't', 'v', 's', 'n', 'm', 'v', '3', '/', 'e', 'n', '/', 'p', 'l', 'a', 'y', '/', 'a', 'j', 'a', 'x', '/', '_', 'a', 'j', 'a', 'x', '_', 'g', 'e', 't', 'P', 'l', 'a', 'y', 'b', 'i', 'l', 'l', 'L', 'i', 's', 't', '.', 'j', 's', 'p']
}

/// The portal's login endpoint.
pub fn login_url() -> (r: String)
    ensures
        r@ == login_endpoint(),
{
    let v: Vec<char> = vec!['h', 't', 't', 'p', ':', '/', '/', 'e', 'd', 's', '.', 'i', 'p', 't', 'v', '.', 'g', 'd', '.', 'c', 'n', ':', '8', '0', '8', '2', '/', 'E', 'D', 'S', '/', 'j', 's', 'p', '/', 'A', 'u', 't', 'h', 'e', 'n', 't', 'i', 'c', 'a', 't', 'i', 'o', 'n', 'U', 'R', 'L'];
    assert(v@ =~= login_endpoint());
    string_of(v.as_slice())
}

fn endpoint(base: &str, path: Vec<char>) -> (r: String)
    ensures
        r@ == base@ + path@,
{
    let mut out = chars_of(base);
    append_chars(&mut out, path.as_slice());
    string_of(out.as_slice())
}

/// The authorize endpoint under `base`.
pub fn authorize_url(base: &str) -> (r: String)
    ensures
        r@ == base@ + authorize_path(),
{
    let v: Vec<char> = vec!['/', 'E', 'P', 'G', '/', 'o', 'a', 'u', 't', 'h', '/', 'v', '2', '/', 'a', 'u', 't', 'h', 'o', 'r', 'i', 'z', 'e'];
    assert(v@ =~= authorize_path());
    endpoint(base, v)
}

/// The token endpoint under `base`.
pub fn token_url(base: &str) -> (r: String)
    ensures
        r@ == base@ + token_path(),
{
    let v: Vec<char> = vec!['/', 'E', 'P', 'G', '/', 'o', 'a', 'u', 't', 'h', '/', 'v', '2', '/', 't', 'o', 'k', 'e', 'n'];
    assert(v@ =~= token_path());
    endpoint(base, v)
}

/// The channel catalog page under `base`.
pub fn catalog_url(base: &str) -> (r: String)
    ensures
        r@ == base@ + catalog_path(),
{
    let v: Vec<char> = vec!['/', 'E', 'P', 'G', '/', 'j', 's', 'p', '/', 'g', 'e', 't', 'c', 'h', 'a', 'n', 'n', 'e', 'l', 'l', 'i', 's', 't', 'H', 'W', 'C', 'T', 'C', '.', 'j', 's', 'p'];
    assert(v@ =~= catalog_path());
    endpoint(base, v)
}

/// The program-listing endpoint under `base`.
pub fn guide_url(base: &str) -> (r: String)
    ensures
        r@ == base@ + guide_path(),
{
    let v: Vec<char> = vec!['/', 'E', 'P', 'G', '/', 'j', 's', 'p', '/', 'i', 'p', 't', 'v', 's', 'n', 'm', 'v', '3', '/', 'e', 'n', '/', 'p', 'l', 'a', 'y', '/', 'a', 'j', 'a', 'x', '/', '_', 'a', 'j', 'a', 'x', '_', 'g', 'e', 't', 'P', 'l', 'a', 'y', 'b', 'i', 'l', 'l', 'L', 'i', 's', 't', '.', 'j', 's', 'p'];
    assert(v@ =~= guide_path());
    endpoint(base, v)
}

pub open spec fn params_view(v: Seq<(String, String)>) -> Seq<(Seq<char>, Seq<char>)> {
    v.map_values(|p: (String, String)| (p.0@, p.1@))
}

fn param_chars(k: Vec<char>, v: Vec<char>) -> (r: (String, String))
    ensures
        r.0@ == k@,
        r.1@ == v@,
{
    (string_of(k.as_slice()), string_of(v.as_slice()))
}

fn param(k: Vec<char>, v: &str) -> (r: (String, String))
    ensures
        r.0@ == k@,
        r.1@ == v@,
{
    (string_of(k.as_slice()), string_of(chars_of(v).as_slice()))
}

/// The login request's query.
pub open spec fn login_query(user: Seq<char>) -> Seq<(Seq<char>, Seq<char>)> {
    seq![(seq!['A', 'c', 't', 'i', 'o', 'n'], seq!['L', 'o', 'g', 'i', 'n']), (seq!['r', 'e', 't', 'u', 'r', 'n', '_', 't', 'y', 'p', 'e'], seq!['1']), (seq!['U', 's', 'e', 'r', 'I', 'D'], user)]
}

/// The authorize request's query.
pub open spec fn authorize_query(user: Seq<char>) -> Seq<(Seq<char>, Seq<char>)> {
    seq![
        (seq!['r', 'e', 's', 'p', 'o', 'n', 's', 'e', '_', 't', 'y', 'p', 'e'], seq!['E', 'n', 'c', 'r', 'y', 'T', 'o', 'k', 'e', 'n']),
        (seq!['c', 'l', 'i', 'e', 'n', 't', '_', 'i', 'd'], seq!['s', 'm', 'c', 'p', 'h', 'o', 'n', 'e']),
        (seq!['u', 's', 'e', 'r', 'i', 'd'], user),
    ]
}

/// The token request's query.
pub open spec fn token_query(user: Seq<char>, auth_info: Seq<char>) -> Seq<(Seq<char>, Seq<char>)> {
    seq![
        (seq!['c', 'l', 'i', 'e', 'n', 't', '_', 'i', 'd'], seq!['s', 'm', 'c', 'p', 'h', 'o', 'n', 'e']),
        (seq!['D', 'e', 'v', 'i', 'c', 'e', 'T', 'y', 'p', 'e'], seq!['d', 'e', 'v', 'i', 'c', 'e', 'T', 'y', 'p', 'e']),
        (seq!['U', 's', 'e', 'r', 'I', 'D'], user),
        (seq!['D', 'e', 'v', 'i', 'c', 'e', 'V', 'e', 'r', 's', 'i', 'o', 'n'], seq!['d', 'e', 'v', 'i', 'c', 'e', 'V', 'e', 'r', 's', 'i', 'o', 'n']),
        (seq!['u', 's', 'e', 'r', 'd', 'o', 'm', 'a', 'i', 'n'], seq!['2']),
        (seq!['d', 'a', 't', 'a', 'd', 'o', 'm', 'a', 'i', 'n'], seq!['3']),
        (seq!['a', 'c', 'c', 'o', 'u', 'n', 't', 'T', 'y', 'p', 'e'], seq!['1']),
        (seq!['a', 'u', 't', 'h', 'i', 'n', 'f', 'o'], auth_info),
        (seq!['g', 'r', 'a', 'n', 't', '_', 't', 'y', 'p', 'e'], seq!['E', 'n', 'c', 'r', 'y', 'T', 'o', 'k', 'e', 'n']),
    ]
}

/// The program-listing request's query.
pub open spec fn guide_query(channel_id: u64, begin: u64, end: u64) -> Seq<(Seq<char>, Seq<char>)> {
    seq![
        (seq!['c', 'h', 'a', 'n', 'n', 'e', 'l', 'I', 'd'], decimal(channel_id as nat)),
        (seq!['b', 'e', 'g', 'i', 'n'], decimal(begin as nat)),
        (seq!['e', 'n', 'd'], decimal(end as nat)),
    ]
}

/// The query of the login request.
pub fn login_params(user: &str) -> (r: Vec<(String, String)>)
    ensures
        params_view(r@) == login_query(user@),
{
    let mut r: Vec<(String, String)> = Vec::new();
    r.push(param_chars(vec!['A', 'c', 't', 'i', 'o', 'n'], vec!['L', 'o', 'g', 'i', 'n']));
    r.push(param_chars(vec!['r', 'e', 't', 'u', 'r', 'n', '_', 't', 'y', 'p', 'e'], vec!['1']));
    r.push(param(vec!['U', 's', 'e', 'r', 'I', 'D'], user));
    assert(params_view(r@) =~~= login_query(user@));
    r
}

/// The query of the authorize request.
pub fn authorize_params(user: &str) -> (r: Vec<(String, String)>)
    ensures
        params_view(r@) == authorize_query(user@),
{
    let mut r: Vec<(String, String)> = Vec::new();
    r.push(param_chars(vec!['r', 'e', 's', 'p', 'o', 'n', 's', 'e', '_', 't', 'y', 'p', 'e'], vec!['E', 'n', 'c', 'r', 'y', 'T', 'o', 'k', 'e', 'n']));
    r.push(param_chars(vec!['c', 'l', 'i', 'e', 'n', 't', '_', 'i', 'd'], vec!['s', 'm', 'c', 'p', 'h', 'o', 'n', 'e']));
    r.push(param(vec!['u', 's', 'e', 'r', 'i', 'd'], user));
    assert(params_view(r@) =~= authorize_query(user@));
    r
}

/// The query of the token request, which carries the encrypted payload.
pub fn token_params(user: &str, auth_info: &str) -> (r: Vec<(String, String)>)
    ensures
        params_view(r@) == token_query(user@, auth_info@),
{
    let mut r: Vec<(String, String)> = Vec::new();
    r.push(param_chars(vec!['c', 'l', 'i', 'e', 'n', 't', '_', 'i', 'd'], vec!['s', 'm', 'c', 'p', 'h', 'o', 'n', 'e']));
    r.push(param_chars(vec!['D', 'e', 'v', 'i', 'c', 'e', 'T', 'y', 'p', 'e'], vec!['d', 'e', 'v', 'i', 'c', 'e', 'T', 'y', 'p', 'e']));
    r.push(param(vec!['U', 's', 'e', 'r', 'I', 'D'], user));
    r.push(param_chars(vec!['D', 'e', 'v', 'i', 'c', 'e', 'V', 'e', 'r', 's', 'i', 'o', 'n'], vec!['d', 'e', 'v', 'i', 'c', 'e', 'V', 'e', 'r', 's', 'i', 'o', 'n']));
    r.push(param_chars(vec!['u', 's', 'e', 'r', 'd', 'o', 'm', 'a', 'i', 'n'], vec!['2']));
    r.push(param_chars(vec!['d', 'a', 't', 'a', 'd', 'o', 'm', 'a', 'i', 'n'], vec!['3']));
    r.push(param_chars(vec!['a', 'c', 'c', 'o', 'u', 'n', 't', 'T', 'y', 'p', 'e'], vec!['1']));
    r.push(param(vec!['a', 'u', 't', 'h', 'i', 'n', 'f', 'o'], auth_info));
    r.push(param_chars(vec!['g', 'r', 'a', 'n', 't', '_', 't', 'y', 'p', 'e'], vec!['E', 'n', 'c', 'r', 'y', 'T', 'o', 'k', 'e', 'n']));
    assert(params_view(r@) =~~= token_query(user@, auth_info@));
    r
}

/// The query of one channel's program-listing request.
pub fn guide_params(channel_id: u64, begin: u64, end: u64) -> (r: Vec<(String, String)>)
    ensures
        params_view(r@) == guide_query(channel_id, begin, end),
{
    let mut r: Vec<(String, String)> = Vec::new();
    let k1: Vec<char> = vec!['c', 'h', 'a', 'n', 'n', 'e', 'l', 'I', 'd'];
    let k2: Vec<char> = vec!['b', 'e', 'g', 'i', 'n'];
    let k3: Vec<char> = vec!['e', 'n', 'd'];
    r.push((string_of(k1.as_slice()), string_of(decimal_chars(channel_id).as_slice())));
    r.push((string_of(k2.as_slice()), string_of(decimal_chars(begin).as_slice())));
    r.push((string_of(k3.as_slice()), string_of(decimal_chars(end).as_slice())));
    assert(params_view(r@) =~= guide_query(channel_id, begin, end));
    r
}

/// The requests of a catalog fetch, in their strict order.
#[derive(Clone, Copy, Debug, PartialEq, Eq, Structural)]
pub enum FetchStep {
    Login,
    Authorize,
    Token,
    Catalog,
    Guide,
    Done,
    Failed(FetchError),
}

/// How one request went.
#[derive(Clone, Copy, Debug, PartialEq, Eq, Structural)]
pub enum Outcome {
    /// A success status and a body that parses.
    Success,
    /// The request did not complete: connection, timeout or name resolution.
    Unreachable,
    /// A failure status.
    Rejected,
    /// A success status with a body that does not parse.
    Malformed,
}

/// The error a failed request causes at a step: an unreachable portal is a
/// network error anywhere; otherwise the handshake steps fail
/// authentication and the catalog step fails parsing.
pub open spec fn error_at(step: FetchStep, o: Outcome) -> FetchError {
    if o == Outcome::Unreachable {
        FetchError::Network
    } else if step == FetchStep::Catalog {
        FetchError::Parse
    } else {
        FetchError::Auth
    }
}

/// The step after `step` has had outcome `o`: the handshake steps in order,
/// then the catalog, then the guide when it is wanted. Any failure before the
/// guide ends the fetch with its error; the guide's per-channel failures are
/// not reported here and never fail it.
pub open spec fn fetch_next(step: FetchStep, o: Outcome, need_guide: bool) -> FetchStep {
    match step {
        FetchStep::Done => FetchStep::Done,
        FetchStep::Failed(e) => FetchStep::Failed(e),
        FetchStep::Guide => FetchStep::Done,
        _ => if o != Outcome::Success {
            FetchStep::Failed(error_at(step, o))
        } else {
            match step {
                FetchStep::Login => FetchStep::Authorize,
                FetchStep::Authorize => FetchStep::Token,
                FetchStep::Token => FetchStep::Catalog,
                _ => if need_guide {
                    FetchStep::Guide
                } else {
                    FetchStep::Done
                },
            }
        },
    }
}

/// The next step of a catalog fetch.
pub fn fetch_step(step: FetchStep, o: Outcome, need_guide: bool) -> (r: FetchStep)
    ensures
        r == fetch_next(step, o, need_guide),
{
    match step {
        FetchStep::Done => FetchStep::Done,
        FetchStep::Failed(e) => FetchStep::Failed(e),
        FetchStep::Guide => FetchStep::Done,
        _ => if o != Outcome::Success {
            let e = if o == Outcome::Unreachable {
                FetchError::Network
            } else if step == FetchStep::Catalog {
                FetchError::Parse
            } else {
                FetchError::Auth
            };
            FetchStep::Failed(e)
        } else {
            match step {
                FetchStep::Login => FetchStep::Authorize,
                FetchStep::Authorize => FetchStep::Token,
                FetchStep::Token => FetchStep::Catalog,
                _ => if need_guide {
                    FetchStep::Guide
                } else {
                    FetchStep::Done
                },
            }
        },
    }
}

/// The step reached from `Login` after a run of outcomes.
pub open spec fn fetch_run(outcomes: Seq<Outcome>, need_guide: bool) -> FetchStep
    decreases outcomes.len(),
{
    if outcomes.len() == 0 {
        FetchStep::Login
    } else {
        fetch_next(fetch_run(outcomes.drop_last(), need_guide), outcomes.last(), need_guide)
    }
}

/// The requests run in strict order: the catalog is asked for only after the
/// login, authorize and token requests all succeeded, and once a request
/// fails the fetch stays failed with that request's error.
pub proof fn lemma_fetch_order(outcomes: Seq<Outcome>, need_guide: bool)
    ensures
        fetch_run(outcomes, need_guide) == FetchStep::Catalog ==> outcomes.len() == 3 && outcomes[0]
            == Outcome::Success && outcomes[1] == Outcome::Success && outcomes[2]
            == Outcome::Success,
        fetch_run(outcomes, need_guide) matches FetchStep::Failed(e) ==> fetch_run(
            outcomes.push(Outcome::Success),
            need_guide,
        ) == FetchStep::Failed(e),
    decreases outcomes.len(),
{
    if outcomes.len() > 0 {
        let init = outcomes.drop_last();
        lemma_fetch_order(init, need_guide);
        assert(outcomes.push(Outcome::Success).drop_last() =~= outcomes);
        if fetch_run(outcomes, need_guide) == FetchStep::Catalog {
            let p = fetch_run(init, need_guide);
            assert(p == FetchStep::Token);
            if init.len() > 0 {
                let i2 = init.drop_last();
                lemma_fetch_order(i2, need_guide);
                assert(fetch_run(i2, need_guide) == FetchStep::Authorize);
                if i2.len() > 0 {
                    let i1 = i2.drop_last();
                    assert(fetch_run(i1, need_guide) == FetchStep::Login);
                    if i1.len() > 0 {
                        let i0 = i1.drop_last();
                        let q = fetch_run(i0, need_guide);
                        assert(fetch_next(q, i1.last(), need_guide) == FetchStep::Login);
                        assert(false);
                    }
                }
            }
        }
    } else {
        assert(outcomes.push(Outcome::Success).drop_last() =~= outcomes);
    }
}

} // verus!
