//! Transport locators: picking them out of a channel's locator list and
//! rewriting them into the public URLs that route back through the relay.

use vstd::prelude::*;
use crate::text::{
    append_chars, chars_of, copy_chars, matches_at, replace_all, replace_chars, split_chars,
    split_on, starts_with, string_of, views,
};

verus! {

pub open spec fn rtsp_prefix() -> Seq<char> {
    seq!['r', 't', 's', 'p']
}

pub open spec fn igmp_prefix() -> Seq<char> {
    seq!['i', 'g', 'm', 'p']
}

pub open spec fn rtsp_scheme() -> Seq<char> {
    seq!['r', 't', 's', 'p', ':', '/', '/']
}

pub open spec fn igmp_scheme() -> Seq<char> {
    seq!['i', 'g', 'm', 'p', ':', '/', '/']
}

/// The upstream's default zone offset, which is wrong for this deployment.
pub open spec fn zone_offset_utc() -> Seq<char> {
    seq!['z', 'o', 'n', 'e', 'o', 'f', 'f', 's', 'e', 't', '=', '0']
}

/// The zone offset of UTC+8, in minutes.
pub open spec fn zone_offset_local() -> Seq<char> {
    seq!['z', 'o', 'n', 'e', 'o', 'f', 'f', 's', 'e', 't', '=', '4', '8', '0']
}

/// The first of `fields` that begins with `p`.
pub open spec fn first_with_prefix(fields: Seq<Seq<char>>, p: Seq<char>) -> Option<Seq<char>>
    decreases fields.len(),
{
    if fields.len() == 0 {
        None
    } else if starts_with(fields[0], p) {
        Some(fields[0])
    } else {
        first_with_prefix(fields.skip(1), p)
    }
}

/// The primary locator of a `|`-separated locator list: its first `rtsp` entry.
pub open spec fn primary_of(url: Seq<char>) -> Option<Seq<char>> {
    first_with_prefix(split_on(url, seq!['|']), rtsp_prefix())
}

/// The secondary locator of a `|`-separated locator list: its first `igmp` entry.
pub open spec fn secondary_of(url: Seq<char>) -> Option<Seq<char>> {
    first_with_prefix(split_on(url, seq!['|']), igmp_prefix())
}

/// `zoneoffset=0` rewritten to `zoneoffset=480` wherever it occurs.
pub open spec fn fix_zone(loc: Seq<char>) -> Seq<char> {
    replace_all(loc, zone_offset_utc(), zone_offset_local())
}

/// `{scheme}://{host}/{path}/`, the public prefix of a relay endpoint.
pub open spec fn relay_prefix(scheme: Seq<char>, host: Seq<char>, path: Seq<char>) -> Seq<char> {
    scheme + seq![':', '/', '/'] + host + seq!['/'] + path + seq!['/']
}

/// The public form of a primary locator.
pub open spec fn public_rtsp(loc: Seq<char>, proxy: bool, scheme: Seq<char>, host: Seq<char>) -> Seq<char> {
    fix_zone(
        if proxy {
            replace_all(loc, rtsp_scheme(), relay_prefix(scheme, host, rtsp_prefix()))
        } else {
            loc
        },
    )
}

/// The public form of a secondary locator.
pub open spec fn public_igmp(loc: Seq<char>, proxy: bool, scheme: Seq<char>, host: Seq<char>) -> Seq<char> {
    if proxy {
        replace_all(loc, igmp_scheme(), relay_prefix(scheme, host, seq!['u', 'd', 'p']))
    } else {
        loc
    }
}

fn first_prefixed(fields: &Vec<Vec<char>>, p: &[char]) -> (r: Option<Vec<char>>)
    ensures
        match r {
            Some(v) => first_with_prefix(views(fields@), p@) == Some(v@),
            None => first_with_prefix(views(fields@), p@) == None::<Seq<char>>,
        },
{
    let mut i: usize = 0;
    assert(views(fields@).skip(0) =~= views(fields@));
    while i < fields.len()
        invariant
            i <= fields@.len(),
            first_with_prefix(views(fields@), p@) == first_with_prefix(
                views(fields@).skip(i as int),
                p@,
            ),
        decreases fields.len() - i,
    {
        let ghost rest = views(fields@).skip(i as int);
        assert(rest[0] == fields@[i as int]@);
        assert(rest.skip(1) =~= views(fields@).skip(i + 1));
        if matches_at(fields[i].as_slice(), 0, p) {
            return Some(copy_chars(fields[i].as_slice()));
        }
        i = i + 1;
    }
    None
}

/// The spec-level content of an optional character vector.
pub open spec fn opt_view(r: Option<Vec<char>>) -> Option<Seq<char>> {
    match r {
        Some(v) => Some(v@),
        None => None,
    }
}

pub(crate) fn primary_chars(url: &[char]) -> (r: Option<Vec<char>>)
    ensures
        opt_view(r) == primary_of(url@),
{
    let bar: Vec<char> = vec!['|'];
    let p: Vec<char> = vec!['r', 't', 's', 'p'];
    assert(bar@ =~= seq!['|']);
    assert(p@ =~= rtsp_prefix());
    let fields = split_chars(url, bar.as_slice());
    first_prefixed(&fields, p.as_slice())
}

pub(crate) fn secondary_chars(url: &[char]) -> (r: Option<Vec<char>>)
    ensures
        opt_view(r) == secondary_of(url@),
{
    let bar: Vec<char> = vec!['|'];
    let p: Vec<char> = vec!['i', 'g', 'm', 'p'];
    assert(bar@ =~= seq!['|']);
    assert(p@ =~= igmp_prefix());
    let fields = split_chars(url, bar.as_slice());
    first_prefixed(&fields, p.as_slice())
}

pub(crate) fn fix_zone_chars(loc: &[char]) -> (r: Vec<char>)
    ensures
        r@ == fix_zone(loc@),
{
    let utc: Vec<char> = vec!['z', 'o', 'n', 'e', 'o', 'f', 'f', 's', 'e', 't', '=', '0'];
    let local: Vec<char> = vec!['z', 'o', 'n', 'e', 'o', 'f', 'f', 's', 'e', 't', '=', '4', '8', '0'];
    assert(utc@ =~= zone_offset_utc());
    assert(local@ =~= zone_offset_local());
    replace_chars(loc, utc.as_slice(), local.as_slice())
}

fn relay_prefix_chars(scheme: &[char], host: &[char], path: &[char]) -> (r: Vec<char>)
    ensures
        r@ == relay_prefix(scheme@, host@, path@),
{
    let mut r: Vec<char> = Vec::new();
    append_chars(&mut r, scheme);
    r.push(':');
    r.push('/');
    r.push('/');
    append_chars(&mut r, host);
    r.push('/');
    append_chars(&mut r, path);
    r.push('/');
    assert(r@ =~= relay_prefix(scheme@, host@, path@));
    r
}

pub(crate) fn public_rtsp_chars(loc: &[char], proxy: bool, scheme: &[char], host: &[char]) -> (r: Vec<char>)
    ensures
        r@ == public_rtsp(loc@, proxy, scheme@, host@),
{
    if proxy {
        let from: Vec<char> = vec!['r', 't', 's', 'p', ':', '/', '/'];
        let path: Vec<char> = vec!['r', 't', 's', 'p'];
        assert(from@ =~= rtsp_scheme());
        assert(path@ =~= rtsp_prefix());
        let to = relay_prefix_chars(scheme, host, path.as_slice());
        let routed = replace_chars(loc, from.as_slice(), to.as_slice());
        fix_zone_chars(routed.as_slice())
    } else {
        fix_zone_chars(loc)
    }
}

pub(crate) fn public_igmp_chars(loc: &[char], proxy: bool, scheme: &[char], host: &[char]) -> (r: Vec<char>)
    ensures
        r@ == public_igmp(loc@, proxy, scheme@, host@),
{
    if proxy {
        let from: Vec<char> = vec!['i', 'g', 'm', 'p', ':', '/', '/'];
        let path: Vec<char> = vec!['u', 'd', 'p'];
        assert(from@ =~= igmp_scheme());
        let to = relay_prefix_chars(scheme, host, path.as_slice());
        assert(path@ =~= seq!['u', 'd', 'p']);
        replace_chars(loc, from.as_slice(), to.as_slice())
    } else {
        copy_chars(loc)
    }
}

fn opt_string(r: Option<Vec<char>>) -> (s: Option<String>)
    ensures
        match s {
            Some(x) => opt_view(r) == Some(x@),
            None => opt_view(r) == None::<Seq<char>>,
        },
{
    match r {
        Some(v) => Some(string_of(v.as_slice())),
        None => None,
    }
}

/// The primary and the secondary locator of a `|`-separated locator list.
pub fn select_locators(channel_url: &str) -> (r: (Option<String>, Option<String>))
    ensures
        match r.0 {
            Some(x) => primary_of(channel_url@) == Some(x@),
            None => primary_of(channel_url@) == None::<Seq<char>>,
        },
        match r.1 {
            Some(x) => secondary_of(channel_url@) == Some(x@),
            None => secondary_of(channel_url@) == None::<Seq<char>>,
        },
{
    let url = chars_of(channel_url);
    (opt_string(primary_chars(url.as_slice())), opt_string(secondary_chars(url.as_slice())))
}

/// `locator` with every `zoneoffset=0` rewritten to `zoneoffset=480`.
pub fn fix_zone_offset(locator: &str) -> (r: String)
    ensures
        r@ == fix_zone(locator@),
{
    let loc = chars_of(locator);
    string_of(fix_zone_chars(loc.as_slice()).as_slice())
}

/// The public URL of a primary locator: routed through the relay's `/rtsp/`
/// endpoint when `proxy` is set, and with its zone offset corrected.
pub fn rewrite_rtsp(locator: &str, proxy: bool, scheme: &str, host: &str) -> (r: String)
    ensures
        r@ == public_rtsp(locator@, proxy, scheme@, host@),
{
    let loc = chars_of(locator);
    let sc = chars_of(scheme);
    let h = chars_of(host);
    string_of(public_rtsp_chars(loc.as_slice(), proxy, sc.as_slice(), h.as_slice()).as_slice())
}

/// The public URL of a secondary locator: routed through the relay's `/udp/`
/// endpoint when `proxy` is set, unchanged otherwise.
pub fn rewrite_igmp(locator: &str, proxy: bool, scheme: &str, host: &str) -> (r: String)
    ensures
        r@ == public_igmp(locator@, proxy, scheme@, host@),
{
    let loc = chars_of(locator);
    let sc = chars_of(scheme);
    let h = chars_of(host);
    string_of(public_igmp_chars(loc.as_slice(), proxy, sc.as_slice(), h.as_slice()).as_slice())
}

/// A locator without `zoneoffset=0` passes through the zone correction unchanged.
pub proof fn lemma_zone_passthrough(loc: Seq<char>)
    requires
        !crate::text::contains(loc, zone_offset_utc()),
    ensures
        fix_zone(loc) == loc,
{
    crate::text::lemma_replace_absent(loc, zone_offset_utc(), zone_offset_local());
}

/// Where the corrected text begins with a run free of `z`, the uncorrected text
/// begins with the same run: the correction only writes at a `z`.
proof fn lemma_prefix_without_z(t: Seq<char>, q: Seq<char>)
    requires
        forall|k: int| 0 <= k < q.len() ==> #[trigger] q[k] != 'z',
        q.len() <= fix_zone(t).len(),
        fix_zone(t).take(q.len() as int) == q,
    ensures
        q.len() <= t.len(),
        t.take(q.len() as int) == q,
    decreases q.len(),
{
    let p = zone_offset_utc();
    let r = zone_offset_local();
    if q.len() > 0 {
        assert(t.len() > 0) by {
            if t.len() == 0 {
                assert(fix_zone(t).len() == 0);
            }
        }
        if starts_with(t, p) {
            assert(fix_zone(t) == r + fix_zone(t.skip(p.len() as int)));
            assert(fix_zone(t)[0] == 'z');
            assert(q[0] == fix_zone(t).take(q.len() as int)[0]);
        } else {
            let rest = t.skip(1);
            assert(fix_zone(t) == seq![t[0]] + fix_zone(rest));
            let q1 = q.skip(1);
            assert forall|k: int| 0 <= k < q1.len() implies #[trigger] q1[k] != 'z' by {
                assert(q1[k] == q[k + 1]);
            }
            assert(fix_zone(rest).take(q1.len() as int) =~= fix_zone(t).take(q.len() as int).skip(1));
            lemma_prefix_without_z(rest, q1);
            assert(q[0] == fix_zone(t)[0]);
            assert(t.take(q.len() as int) =~= seq![t[0]] + rest.take(q1.len() as int));
            assert(t.take(q.len() as int) =~= q);
        }
    }
}

/// After the correction no `zoneoffset=0` is left anywhere in a locator.
pub proof fn lemma_zone_fixed(s: Seq<char>)
    ensures
        !crate::text::contains(fix_zone(s), zone_offset_utc()),
    decreases s.len(),
{
    let p = zone_offset_utc();
    let r = zone_offset_local();
    let out = fix_zone(s);
    if s.len() == 0 {
        assert forall|j: int| !crate::text::occurs_at(out, j, p) by {}
    } else if starts_with(s, p) {
        let rest = s.skip(p.len() as int);
        lemma_zone_fixed(rest);
        assert(out == r + fix_zone(rest));
        assert forall|j: int| !crate::text::occurs_at(out, j, p) by {
            if crate::text::occurs_at(out, j, p) {
                if j >= r.len() {
                    assert(out.subrange(j, j + p.len()) =~= fix_zone(rest).subrange(
                        j - r.len(),
                        j - r.len() + p.len(),
                    ));
                    assert(crate::text::occurs_at(fix_zone(rest), j - r.len(), p));
                } else if j == 0 {
                    assert(out.subrange(0, p.len() as int)[11] == '4');
                } else {
                    assert(out.subrange(j, j + p.len())[0] == out[j]);
                    assert(out[j] == r[j]);
                }
            }
        }
    } else {
        let rest = s.skip(1);
        lemma_zone_fixed(rest);
        assert(out == seq![s[0]] + fix_zone(rest));
        assert forall|j: int| !crate::text::occurs_at(out, j, p) by {
            if crate::text::occurs_at(out, j, p) {
                if j >= 1 {
                    assert(out.subrange(j, j + p.len()) =~= fix_zone(rest).subrange(j - 1, j - 1 + p.len()));
                    assert(crate::text::occurs_at(fix_zone(rest), j - 1, p));
                } else {
                    let q = p.skip(1);
                    assert forall|k: int| 0 <= k < q.len() implies #[trigger] q[k] != 'z' by {
                        assert(q[k] == p[k + 1]);
                    }
                    assert(fix_zone(rest).take(q.len() as int) =~= out.subrange(0, p.len() as int).skip(1));
                    lemma_prefix_without_z(rest, q);
                    assert(s.subrange(0, p.len() as int) =~= seq![s[0]] + rest.take(q.len() as int));
                    assert(s[0] == out[0]);
                    assert(s.subrange(0, p.len() as int) =~= p);
                }
            }
        }
    }
}

} // verus!
