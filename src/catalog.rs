//! The channel catalog page: the embedded-script records it carries, their
//! `key="value"` fields, and the channels built from them.

use vstd::prelude::*;
use crate::category::{category_chars, category_of};
use crate::locator::{
    opt_view, primary_chars, primary_of, public_igmp, public_igmp_chars, public_rtsp,
    public_rtsp_chars, secondary_chars, secondary_of,
};
use crate::model::{channels_view, Channel, ChannelView, ProgramView};
use crate::text::{
    chars_eq, chars_of, copy_chars, matches_at, parse_u64, parse_u64_spec, split_chars, split_on, string_of,
    views,
};

verus! {

/// The call that introduces one channel record; the character at
/// `MARKER_WILDCARD` is matched by any character but a line break.
pub open spec fn marker() -> Seq<char> {
    seq!['A', 'u', 't', 'h', 'e', 'n', 't', 'i', 'c', 'a', 't', 'i', 'o', 'n', '.', 'C', 'T', 'C', 'S', 'e', 't', 'C', 'o', 'n', 'f', 'i', 'g', '(', '\'', 'C', 'h', 'a', 'n', 'n', 'e', 'l', '\'', ',', '\'']
}

pub const MARKER_LEN: usize = 39;

pub const MARKER_WILDCARD: usize = 14;

/// The record marker occurs at index `i` of `s`.
pub open spec fn marker_at(s: Seq<char>, i: int) -> bool {
    0 <= i && i + MARKER_LEN <= s.len() && forall|k: int|
        0 <= k < MARKER_LEN ==> if k == MARKER_WILDCARD {
            #[trigger] s[i + k] != '\n'
        } else {
            s[i + k] == marker()[k]
        }
}

/// The first `')` at index `k` or later, provided no line break comes before it.
pub open spec fn close_from(s: Seq<char>, k: int) -> Option<int>
    decreases s.len() - k,
{
    if k < 0 || k + 1 >= s.len() {
        None
    } else if s[k] == '\'' && s[k + 1] == ')' {
        Some(k)
    } else if s[k] == '\n' {
        None
    } else {
        close_from(s, k + 1)
    }
}

/// Where the record body that begins at `start` ends: the body is one or more
/// characters other than a line break, as few as reach a `')`.
pub open spec fn capture_end(s: Seq<char>, start: int) -> Option<int> {
    if 0 <= start < s.len() && s[start] != '\n' {
        close_from(s, start + 1)
    } else {
        None
    }
}

/// The record bodies of `s` from index `pos` on, leftmost first, each search
/// going on after the end of the previous record.
pub open spec fn records_from(s: Seq<char>, pos: int) -> Seq<Seq<char>>
    decreases s.len() - pos,
{
    if pos < 0 || pos >= s.len() {
        Seq::empty()
    } else if marker_at(s, pos) {
        match capture_end(s, pos + MARKER_LEN) {
            Some(j) => if pos + MARKER_LEN <= j && j + 2 <= s.len() {
                seq![s.subrange(pos + MARKER_LEN, j)] + records_from(s, j + 2)
            } else {
                records_from(s, pos + 1)
            },
            None => records_from(s, pos + 1),
        }
    } else {
        records_from(s, pos + 1)
    }
}

/// The record bodies of a catalog page.
pub open spec fn records_of(page: Seq<char>) -> Seq<Seq<char>> {
    records_from(page, 0)
}

fn marker_matches(s: &[char], i: usize) -> (r: bool)
    ensures
        r == marker_at(s@, i as int),
{
    let m: Vec<char> = vec!['A', 'u', 't', 'h', 'e', 'n', 't', 'i', 'c', 'a', 't', 'i', 'o', 'n', '.', 'C', 'T', 'C', 'S', 'e', 't', 'C', 'o', 'n', 'f', 'i', 'g', '(', '\'', 'C', 'h', 'a', 'n', 'n', 'e', 'l', '\'', ',', '\''];
    assert(m@ =~= marker());
    if i > s.len() || MARKER_LEN > s.len() - i {
        return false;
    }
    let mut k: usize = 0;
    while k < MARKER_LEN
        invariant
            m@ == marker(),
            i + MARKER_LEN <= s@.len(),
            i + MARKER_LEN <= s.len(),
            k <= MARKER_LEN,
            forall|j: int|
                0 <= j < k ==> if j == MARKER_WILDCARD {
                    #[trigger] s@[i + j] != '\n'
                } else {
                    s@[i + j] == marker()[j]
                },
        decreases MARKER_LEN - k,
    {
        if k == MARKER_WILDCARD {
            if s[i + k] == '\n' {
                return false;
            }
        } else if s[i + k] != m[k] {
            return false;
        }
        k = k + 1;
    }
    true
}

proof fn lemma_close_bounds(s: Seq<char>, k: int)
    ensures
        close_from(s, k) matches Some(j) ==> k <= j && j + 1 < s.len(),
    decreases s.len() - k,
{
    if k < 0 || k + 1 >= s.len() {
    } else if s[k] == '\'' && s[k + 1] == ')' {
    } else if s[k] == '\n' {
    } else {
        lemma_close_bounds(s, k + 1);
    }
}

fn find_capture_end(s: &[char], start: usize) -> (r: Option<usize>)
    ensures
        match r {
            Some(j) => capture_end(s@, start as int) == Some(j as int) && start < j && j + 1 < s@.len(),
            None => capture_end(s@, start as int) == None::<int>,
        },
{
    if start >= s.len() || s[start] == '\n' {
        return None;
    }
    let mut k: usize = start + 1;
    proof {
        lemma_close_bounds(s@, k as int);
    }
    while k < s.len() - 1
        invariant
            start < k <= s@.len(),
            capture_end(s@, start as int) == close_from(s@, k as int),
        decreases s.len() - k,
    {
        proof {
            lemma_close_bounds(s@, k as int);
        }
        if s[k] == '\'' && s[k + 1] == ')' {
            return Some(k);
        }
        if s[k] == '\n' {
            return None;
        }
        k = k + 1;
    }
    None
}

/// The record bodies of a catalog page, leftmost first.
pub fn scan_records(page: &[char]) -> (r: Vec<Vec<char>>)
    ensures
        views(r@) == records_of(page@),
{
    let mut out: Vec<Vec<char>> = Vec::new();
    let mut pos: usize = 0;
    assert(views(out@) + records_from(page@, 0) =~= records_from(page@, 0));
    while pos < page.len()
        invariant
            pos <= page@.len(),
            records_of(page@) == views(out@) + records_from(page@, pos as int),
        decreases page.len() - pos,
    {
        let ghost before = views(out@);
        if marker_matches(page, pos) && MARKER_LEN <= page.len() - pos {
            let start = pos + MARKER_LEN;
            match find_capture_end(page, start) {
                Some(j) => {
                    if j >= start {
                        let mut body: Vec<char> = Vec::new();
                        let mut k: usize = start;
                        while k < j
                            invariant
                                start <= k <= j,
                                j < page@.len(),
                                body@ == page@.subrange(start as int, k as int),
                            decreases j - k,
                        {
                            body.push(page[k]);
                            k = k + 1;
                            assert(body@ =~= page@.subrange(start as int, k as int));
                        }
                        let ghost b = body@;
                        out.push(body);
                        assert(views(out@) =~= before.push(b));
                        assert(views(out@) + records_from(page@, j + 2) =~= before + (seq![b]
                            + records_from(page@, j + 2)));
                        if j + 2 >= page.len() {
                            return out;
                        }
                        pos = j + 2;
                    } else {
                        pos = pos + 1;
                    }
                },
                None => {
                    pos = pos + 1;
                },
            }
        } else {
            pos = pos + 1;
        }
    }
    assert(views(out@) + records_from(page@, pos as int) =~= views(out@));
    out
}

pub open spec fn field_sep() -> Seq<char> {
    seq!['"', ',']
}

pub open spec fn pair_sep() -> Seq<char> {
    seq!['=', '"']
}

pub open spec fn key_id() -> Seq<char> {
    seq!['C', 'h', 'a', 'n', 'n', 'e', 'l', 'I', 'D']
}

pub open spec fn key_name() -> Seq<char> {
    seq!['C', 'h', 'a', 'n', 'n', 'e', 'l', 'N', 'a', 'm', 'e']
}

pub open spec fn key_url() -> Seq<char> {
    seq!['C', 'h', 'a', 'n', 'n', 'e', 'l', 'U', 'R', 'L']
}

/// The key and the value of one field: the first two pieces around `="`.
pub open spec fn field_pair(f: Seq<char>) -> Option<(Seq<char>, Seq<char>)> {
    let parts = split_on(f, pair_sep());
    if parts.len() >= 2 {
        Some((parts[0], parts[1]))
    } else {
        None
    }
}

/// The value of the last of `fields` whose key is `key`.
pub open spec fn lookup(fields: Seq<Seq<char>>, key: Seq<char>) -> Option<Seq<char>>
    decreases fields.len(),
{
    if fields.len() == 0 {
        None
    } else {
        match field_pair(fields.last()) {
            Some(kv) => if kv.0 == key {
                Some(kv.1)
            } else {
                lookup(fields.drop_last(), key)
            },
            None => lookup(fields.drop_last(), key),
        }
    }
}

/// The value of `key` in a record body whose fields are separated by `",`.
pub open spec fn record_field(rec: Seq<char>, key: Seq<char>) -> Option<Seq<char>> {
    lookup(split_on(rec, field_sep()), key)
}

/// The channel a record describes, if it has a numeric id, a name and an
/// RTSP entry among its locators.
pub open spec fn channel_of(
    rec: Seq<char>,
    rtsp_proxy: bool,
    udp_proxy: bool,
    scheme: Seq<char>,
    host: Seq<char>,
) -> Option<ChannelView> {
    match (record_field(rec, key_id()), record_field(rec, key_name()), record_field(rec, key_url())) {
        (Some(idv), Some(name), Some(url)) => match (parse_u64_spec(idv), primary_of(url)) {
            (Some(id), Some(p)) => Some(
                ChannelView {
                    id,
                    name,
                    rtsp: public_rtsp(p, rtsp_proxy, scheme, host),
                    igmp: match secondary_of(url) {
                        Some(g) => Some(public_igmp(g, udp_proxy, scheme, host)),
                        None => None,
                    },
                    epg: Seq::empty(),
                    category: category_of(name),
                },
            ),
            _ => None,
        },
        _ => None,
    }
}

/// The channels of a sequence of records, in order, records that describe
/// none left out.
pub open spec fn catalog_of(
    records: Seq<Seq<char>>,
    rtsp_proxy: bool,
    udp_proxy: bool,
    scheme: Seq<char>,
    host: Seq<char>,
) -> Seq<ChannelView>
    decreases records.len(),
{
    if records.len() == 0 {
        Seq::empty()
    } else {
        let prev = catalog_of(records.drop_last(), rtsp_proxy, udp_proxy, scheme, host);
        match channel_of(records.last(), rtsp_proxy, udp_proxy, scheme, host) {
            Some(c) => prev.push(c),
            None => prev,
        }
    }
}

fn field_value(fields: &Vec<Vec<char>>, key: &[char]) -> (r: Option<Vec<char>>)
    ensures
        opt_view(r) == lookup(views(fields@), key@),
{
    let sep: Vec<char> = vec!['=', '"'];
    assert(sep@ =~= pair_sep());
    let mut cur: Option<Vec<char>> = None;
    let mut i: usize = 0;
    assert(views(fields@).take(0) =~= Seq::<Seq<char>>::empty());
    while i < fields.len()
        invariant
            sep@ == pair_sep(),
            i <= fields@.len(),
            opt_view(cur) == lookup(views(fields@).take(i as int), key@),
        decreases fields.len() - i,
    {
        let ghost pre = views(fields@).take(i as int + 1);
        assert(pre.drop_last() =~= views(fields@).take(i as int));
        assert(pre.last() == fields@[i as int]@);
        let parts = split_chars(fields[i].as_slice(), sep.as_slice());
        if parts.len() >= 2 {
            assert(views(parts@)[0] == parts@[0]@);
            assert(views(parts@)[1] == parts@[1]@);
            if chars_eq(parts[0].as_slice(), key) {
                cur = Some(copy_chars(parts[1].as_slice()));
            }
        }
        i = i + 1;
    }
    assert(views(fields@).take(i as int) =~= views(fields@));
    cur
}

fn record_channel(
    rec: &[char],
    rtsp_proxy: bool,
    udp_proxy: bool,
    scheme: &[char],
    host: &[char],
) -> (r: Option<Channel>)
    ensures
        match r {
            Some(c) => channel_of(rec@, rtsp_proxy, udp_proxy, scheme@, host@) == Some(c@),
            None => channel_of(rec@, rtsp_proxy, udp_proxy, scheme@, host@) == None::<ChannelView>,
        },
{
    let sep: Vec<char> = vec!['"', ','];
    let kid: Vec<char> = vec!['C', 'h', 'a', 'n', 'n', 'e', 'l', 'I', 'D'];
    let kname: Vec<char> = vec!['C', 'h', 'a', 'n', 'n', 'e', 'l', 'N', 'a', 'm', 'e'];
    let kurl: Vec<char> = vec!['C', 'h', 'a', 'n', 'n', 'e', 'l', 'U', 'R', 'L'];
    assert(sep@ =~= field_sep());
    assert(kid@ =~= key_id());
    assert(kname@ =~= key_name());
    assert(kurl@ =~= key_url());
    let fields = split_chars(rec, sep.as_slice());
    let idv = field_value(&fields, kid.as_slice());
    let name = field_value(&fields, kname.as_slice());
    let url = field_value(&fields, kurl.as_slice());
    match (idv, name, url) {
        (Some(idv), Some(name), Some(url)) => {
            let id = parse_u64(idv.as_slice());
            let primary = primary_chars(url.as_slice());
            match (id, primary) {
                (Some(id), Some(p)) => {
                    let rtsp = public_rtsp_chars(p.as_slice(), rtsp_proxy, scheme, host);
                    let igmp = match secondary_chars(url.as_slice()) {
                        Some(g) => Some(
                            string_of(public_igmp_chars(g.as_slice(), udp_proxy, scheme, host).as_slice()),
                        ),
                        None => None,
                    };
                    let category = category_chars(name.as_slice());
                    let c = Channel {
                        id,
                        name: string_of(name.as_slice()),
                        rtsp: string_of(rtsp.as_slice()),
                        igmp,
                        epg: Vec::new(),
                        category: string_of(category.as_slice()),
                    };
                    assert(c@.epg =~= Seq::<ProgramView>::empty());
                    Some(c)
                },
                _ => None,
            }
        },
        _ => None,
    }
}

/// The channels that a catalog page lists, in page order, with their public
/// locators: every record with a numeric id, a name and an RTSP entry.
pub fn parse_catalog_page(
    page: &str,
    rtsp_proxy: bool,
    udp_proxy: bool,
    scheme: &str,
    host: &str,
) -> (r: Vec<Channel>)
    ensures
        channels_view(r@) == catalog_of(records_of(page@), rtsp_proxy, udp_proxy, scheme@, host@),
{
    let text = chars_of(page);
    let sc = chars_of(scheme);
    let h = chars_of(host);
    let records = scan_records(text.as_slice());
    let ghost recs = views(records@);
    let mut out: Vec<Channel> = Vec::new();
    let mut i: usize = 0;
    assert(recs.take(0) =~= Seq::<Seq<char>>::empty());
    assert(channels_view(out@) =~= Seq::<ChannelView>::empty());
    while i < records.len()
        invariant
            i <= records@.len(),
            recs == views(records@),
            sc@ == scheme@,
            h@ == host@,
            channels_view(out@) == catalog_of(recs.take(i as int), rtsp_proxy, udp_proxy, scheme@, host@),
        decreases records.len() - i,
    {
        let ghost pre = recs.take(i as int + 1);
        assert(pre.drop_last() =~= recs.take(i as int));
        assert(pre.last() == records@[i as int]@);
        let ghost before = channels_view(out@);
        match record_channel(records[i].as_slice(), rtsp_proxy, udp_proxy, sc.as_slice(), h.as_slice()) {
            Some(c) => {
                let ghost cv = c@;
                out.push(c);
                assert(channels_view(out@) =~= before.push(cv));
            },
            None => {},
        }
        i = i + 1;
    }
    assert(recs.take(i as int) =~= recs);
    out
}

/// A record whose locator list has no `rtsp` entry gives no channel.
pub proof fn lemma_no_rtsp_dropped(
    rec: Seq<char>,
    rtsp_proxy: bool,
    udp_proxy: bool,
    scheme: Seq<char>,
    host: Seq<char>,
)
    requires
        record_field(rec, key_url()) matches Some(url) ==> primary_of(url) is None,
    ensures
        channel_of(rec, rtsp_proxy, udp_proxy, scheme, host) is None,
{
}

} // verus!
