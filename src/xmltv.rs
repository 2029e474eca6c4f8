//! Reading program guide entries back out of an XMLTV document: an event
//! scanner over the document's elements that collects, per channel id, the
//! programs of its `programme` elements.

use vstd::prelude::*;
use std::io::Cursor;
use xml::reader::XmlEvent;
use xml::EventReader;
use crate::model::{programs_view, Program, ProgramView};
use crate::text::{append_chars, chars_of, chars_eq, parse_u64, parse_u64_spec, string_of, trim, trim_chars};

verus! {

/// One event of an XML reader, with names reduced to their local part.
pub enum XmlItem {
    Start { name: String, attributes: Vec<(String, String)> },
    Text(String),
    End { name: String },
    Other,
    Error,
}

/// What an event holds, as values.
pub enum XmlItemView {
    Start { name: Seq<char>, attributes: Seq<(Seq<char>, Seq<char>)> },
    Text(Seq<char>),
    End { name: Seq<char> },
    Other,
    Error,
}

pub open spec fn attrs_view(v: Seq<(String, String)>) -> Seq<(Seq<char>, Seq<char>)> {
    v.map_values(|a: (String, String)| (a.0@, a.1@))
}

impl View for XmlItem {
    type V = XmlItemView;

    open spec fn view(&self) -> XmlItemView {
        match self {
            XmlItem::Start { name, attributes } => XmlItemView::Start {
                name: name@,
                attributes: attrs_view(attributes@),
            },
            XmlItem::Text(t) => XmlItemView::Text(t@),
            XmlItem::End { name } => XmlItemView::End { name: name@ },
            XmlItem::Other => XmlItemView::Other,
            XmlItem::Error => XmlItemView::Error,
        }
    }
}

pub open spec fn items_view(v: Seq<XmlItem>) -> Seq<XmlItemView> {
    v.map_values(|i: XmlItem| i@)
}

/// The events that an XML reader yields for a document.
pub uninterp spec fn xml_items_of(content: Seq<char>) -> Seq<XmlItemView>;

/// The epoch milliseconds of a date-time text read with a strftime format.
pub uninterp spec fn datetime_millis_of(s: Seq<char>, fmt: Seq<char>) -> Option<i64>;

/// Relies on `xml::EventReader` (xml-rs): the events it yields for `content`,
/// each converted one for one.
#[verifier::external_body]
fn read_xml_items(content: &str) -> (r: Vec<XmlItem>)
    ensures
        items_view(r@) == xml_items_of(content@),
{
    EventReader::new(Cursor::new(content)).into_iter().map(|e| match e {
        Ok(XmlEvent::StartElement { name, attributes, .. }) => XmlItem::Start {
            name: name.local_name,
            attributes: attributes.into_iter().map(|a| (a.name.local_name, a.value)).collect(),
        },
        Ok(XmlEvent::Characters(c)) => XmlItem::Text(c),
        Ok(XmlEvent::EndElement { name }) => XmlItem::End { name: name.local_name },
        Ok(_) => XmlItem::Other,
        Err(_) => XmlItem::Error,
    }).collect()
}

/// Relies on `chrono::DateTime::parse_from_str` and `timestamp_millis`: the
/// instant that `s` denotes under `fmt`, when it parses.
#[verifier::external_body]
fn parse_datetime_millis(s: &str, fmt: &str) -> (r: Option<i64>)
    ensures
        r == datetime_millis_of(s@, fmt@),
{
    chrono::DateTime::parse_from_str(s, fmt).ok().map(|dt| dt.timestamp_millis())
}

/// `s` with every trailing copy of `suf` removed.
pub open spec fn strip_suffixes(s: Seq<char>, suf: Seq<char>) -> Seq<char>
    decreases s.len(),
{
    if suf.len() > 0 && suf.len() <= s.len() && s.skip(s.len() - suf.len()) == suf {
        strip_suffixes(s.take(s.len() - suf.len()), suf)
    } else {
        s
    }
}

pub open spec fn zone_suffix() -> Seq<char> {
    seq![' ', '+', '0', '8', '0', '0']
}

pub open spec fn time_format() -> Seq<char> {
    seq!['%', 'Y', '%', 'm', '%', 'd', '%', 'H', '%', 'M', '%', 'S']
}

/// An XMLTV time, without its `+0800` zone and surrounding space, read as
/// `%Y%m%d%H%M%S`.
pub open spec fn xmltv_time(s: Seq<char>) -> Option<i64> {
    datetime_millis_of(trim(strip_suffixes(s, zone_suffix())), time_format())
}

/// The epoch milliseconds of an XMLTV time.
pub fn parse_xmltv_time(time_str: &str) -> (r: Option<i64>)
    ensures
        r == xmltv_time(time_str@),
{
    let s = chars_of(time_str);
    let suf: Vec<char> = vec![' ', '+', '0', '8', '0', '0'];
    assert(suf@ =~= zone_suffix());
    let mut end: usize = s.len();
    assert(s@.take(end as int) =~= s@);
    while end >= suf.len() && crate::text::matches_at(s.as_slice(), end - suf.len(), suf.as_slice())
        invariant
            end <= s@.len(),
            suf@ == zone_suffix(),
            strip_suffixes(s@, zone_suffix()) == strip_suffixes(s@.take(end as int), zone_suffix()),
        decreases end,
    {
        let ghost t = s@.take(end as int);
        assert(t.skip(t.len() - 6) =~= s@.subrange(end - 6, end as int));
        assert(t.take(t.len() - 6) =~= s@.take(end - 6));
        end = end - suf.len();
    }
    proof {
        let t = s@.take(end as int);
        if t.len() >= 6 {
            assert(t.skip(t.len() - 6) =~= s@.subrange(end - 6, end as int));
        }
    }
    let mut kept: Vec<char> = Vec::new();
    let mut k: usize = 0;
    while k < end
        invariant
            k <= end <= s@.len(),
            kept@ == s@.take(k as int),
        decreases end - k,
    {
        kept.push(s[k]);
        k = k + 1;
        assert(kept@ =~= s@.take(k as int));
    }
    let cleaned = string_of(trim_chars(kept.as_slice()).as_slice());
    let fmt: Vec<char> = vec!['%', 'Y', '%', 'm', '%', 'd', '%', 'H', '%', 'M', '%', 'S'];
    assert(fmt@ =~= time_format());
    let f = string_of(fmt.as_slice());
    parse_datetime_millis(cleaned.as_str(), f.as_str())
}

pub open spec fn programme_tag() -> Seq<char> {
    seq!['p', 'r', 'o', 'g', 'r', 'a', 'm', 'm', 'e']
}

pub open spec fn title_tag() -> Seq<char> {
    seq!['t', 'i', 't', 'l', 'e']
}

pub open spec fn desc_tag() -> Seq<char> {
    seq!['d', 'e', 's', 'c']
}

pub open spec fn channel_attr() -> Seq<char> {
    seq!['c', 'h', 'a', 'n', 'n', 'e', 'l']
}

pub open spec fn start_attr() -> Seq<char> {
    seq!['s', 't', 'a', 'r', 't']
}

pub open spec fn stop_attr() -> Seq<char> {
    seq!['s', 't', 'o', 'p']
}

/// The value of the first attribute named `key`.
pub open spec fn attr_value(attrs: Seq<(Seq<char>, Seq<char>)>, key: Seq<char>) -> Option<Seq<char>>
    decreases attrs.len(),
{
    if attrs.len() == 0 {
        None
    } else if attrs[0].0 == key {
        Some(attrs[0].1)
    } else {
        attr_value(attrs.skip(1), key)
    }
}

pub open spec fn strip_leading(s: Seq<char>, c: char) -> Seq<char>
    decreases s.len(),
{
    if s.len() > 0 && s[0] == c {
        strip_leading(s.skip(1), c)
    } else {
        s
    }
}

pub open spec fn strip_trailing(s: Seq<char>, c: char) -> Seq<char>
    decreases s.len(),
{
    if s.len() > 0 && s.last() == c {
        strip_trailing(s.drop_last(), c)
    } else {
        s
    }
}

/// A channel attribute's number: the text without surrounding quotes, as a
/// `u64`, or 0 when it is not one.
pub open spec fn channel_number(s: Seq<char>) -> u64 {
    match parse_u64_spec(strip_trailing(strip_leading(s, '"'), '"')) {
        Some(v) => v,
        None => 0,
    }
}

/// A time attribute's instant, or 0 when it is absent or does not parse.
pub open spec fn time_or_zero(o: Option<Seq<char>>) -> i64 {
    match o {
        Some(t) => match xmltv_time(t) {
            Some(v) => v,
            None => 0,
        },
        None => 0,
    }
}

/// The scanner's state between events.
pub struct ScanView {
    pub channel: Option<u64>,
    pub program: Option<(i64, i64)>,
    pub in_title: bool,
    pub in_desc: bool,
    pub title: Seq<char>,
    pub desc: Seq<char>,
    pub entries: Seq<(u64, ProgramView)>,
}

pub open spec fn scan_start() -> ScanView {
    ScanView {
        channel: None,
        program: None,
        in_title: false,
        in_desc: false,
        title: Seq::empty(),
        desc: Seq::empty(),
        entries: Seq::empty(),
    }
}

/// The entries after a finished program, if one is pending.
pub open spec fn emit(st: ScanView, desc: Seq<char>) -> Seq<(u64, ProgramView)> {
    match (st.program, st.channel) {
        (Some(p), Some(id)) => st.entries.push(
            (id, ProgramView { start: p.0, stop: p.1, title: st.title, desc }),
        ),
        _ => st.entries,
    }
}

/// The scanner's response to one event. A `programme` with a positive
/// channel number, start and stop opens a program; text goes to the open
/// title or description; the end of a description, or of a `programme` whose
/// title is not empty, records the open program (the title standing in for
/// a missing description) and closes it.
pub open spec fn scan_step(st: ScanView, item: XmlItemView) -> ScanView {
    match item {
        XmlItemView::Start { name, attributes } => if name == programme_tag() {
            match attr_value(attributes, channel_attr()) {
                Some(cs) => {
                    let id = channel_number(cs);
                    let start = time_or_zero(attr_value(attributes, start_attr()));
                    let stop = time_or_zero(attr_value(attributes, stop_attr()));
                    if id > 0 && start > 0 && stop > 0 {
                        ScanView {
                            channel: Some(id),
                            program: Some((start, stop)),
                            title: Seq::empty(),
                            desc: Seq::empty(),
                            ..st
                        }
                    } else {
                        st
                    }
                },
                None => st,
            }
        } else if name == title_tag() {
            ScanView { in_title: true, title: Seq::empty(), ..st }
        } else if name == desc_tag() {
            ScanView { in_desc: true, desc: Seq::empty(), ..st }
        } else {
            st
        },
        XmlItemView::Text(t) => if st.in_title {
            ScanView { title: st.title + t, ..st }
        } else if st.in_desc {
            ScanView { desc: st.desc + t, ..st }
        } else {
            st
        },
        XmlItemView::End { name } => if name == title_tag() {
            ScanView { in_title: false, ..st }
        } else if name == desc_tag() {
            ScanView {
                in_desc: false,
                program: None,
                channel: None,
                entries: emit(st, if st.desc.len() == 0 { st.title } else { st.desc }),
                ..st
            }
        } else if name == programme_tag() {
            ScanView {
                program: None,
                channel: None,
                entries: if st.title.len() > 0 { emit(st, st.title) } else { st.entries },
                ..st
            }
        } else {
            st
        },
        _ => st,
    }
}

pub open spec fn scan_run(items: Seq<XmlItemView>) -> ScanView
    decreases items.len(),
{
    if items.len() == 0 {
        scan_start()
    } else {
        scan_step(scan_run(items.drop_last()), items.last())
    }
}

/// The index of the group of channel `id`.
pub open spec fn group_index(groups: Seq<(u64, Seq<ProgramView>)>, id: u64) -> Option<nat>
    decreases groups.len(),
{
    if groups.len() == 0 {
        None
    } else if groups[0].0 == id {
        Some(0)
    } else {
        match group_index(groups.skip(1), id) {
            Some(k) => Some(k + 1),
            None => None,
        }
    }
}

/// The entries grouped by channel id, groups in order of first appearance and
/// programs in document order.
pub open spec fn grouped(entries: Seq<(u64, ProgramView)>) -> Seq<(u64, Seq<ProgramView>)>
    decreases entries.len(),
{
    if entries.len() == 0 {
        Seq::empty()
    } else {
        let prev = grouped(entries.drop_last());
        let e = entries.last();
        match group_index(prev, e.0) {
            Some(k) => if k < prev.len() {
                prev.update(k as int, (e.0, prev[k as int].1.push(e.1)))
            } else {
                prev
            },
            None => prev.push((e.0, seq![e.1])),
        }
    }
}

/// The programs of an XMLTV document's events, by channel.
pub open spec fn epg_of(items: Seq<XmlItemView>) -> Seq<(u64, Seq<ProgramView>)> {
    grouped(scan_run(items).entries)
}

pub open spec fn groups_view(v: Seq<(u64, Vec<Program>)>) -> Seq<(u64, Seq<ProgramView>)> {
    v.map_values(|g: (u64, Vec<Program>)| (g.0, programs_view(g.1@)))
}

pub open spec fn entries_view(v: Seq<(u64, Program)>) -> Seq<(u64, ProgramView)> {
    v.map_values(|e: (u64, Program)| (e.0, e.1@))
}

struct Scan {
    channel: Option<u64>,
    program: Option<(i64, i64)>,
    in_title: bool,
    in_desc: bool,
    title: Vec<char>,
    desc: Vec<char>,
    entries: Vec<(u64, Program)>,
}

impl View for Scan {
    type V = ScanView;

    closed spec fn view(&self) -> ScanView {
        ScanView {
            channel: self.channel,
            program: self.program,
            in_title: self.in_title,
            in_desc: self.in_desc,
            title: self.title@,
            desc: self.desc@,
            entries: entries_view(self.entries@),
        }
    }
}

fn find_attr(attrs: &Vec<(String, String)>, key: &[char]) -> (r: Option<String>)
    ensures
        match r {
            Some(v) => attr_value(attrs_view(attrs@), key@) == Some(v@),
            None => attr_value(attrs_view(attrs@), key@) == None::<Seq<char>>,
        },
{
    let ghost av = attrs_view(attrs@);
    let mut i: usize = 0;
    assert(av.skip(0) =~= av);
    while i < attrs.len()
        invariant
            i <= attrs@.len(),
            av == attrs_view(attrs@),
            attr_value(av, key@) == attr_value(av.skip(i as int), key@),
        decreases attrs.len() - i,
    {
        assert(av.skip(i as int)[0] == (attrs@[i as int].0@, attrs@[i as int].1@));
        assert(av.skip(i as int).skip(1) =~= av.skip(i + 1));
        let name = chars_of(attrs[i].0.as_str());
        if chars_eq(name.as_slice(), key) {
            return Some(attrs[i].1.clone());
        }
        i = i + 1;
    }
    assert(av.skip(i as int) =~= Seq::<(Seq<char>, Seq<char>)>::empty());
    None
}

fn channel_number_of(s: &str) -> (r: u64)
    ensures
        r == channel_number(s@),
{
    let c = chars_of(s);
    let mut a: usize = 0;
    assert(c@.skip(0) =~= c@);
    while a < c.len() && c[a] == '"'
        invariant
            a <= c@.len(),
            strip_leading(c@, '"') == strip_leading(c@.skip(a as int), '"'),
        decreases c.len() - a,
    {
        assert(c@.skip(a as int).skip(1) =~= c@.skip(a + 1));
        a = a + 1;
    }
    let ghost x = c@.skip(a as int);
    let mut b: usize = c.len();
    assert(c@.subrange(a as int, b as int) =~= x);
    while b > a && c[b - 1] == '"'
        invariant
            a <= b <= c@.len(),
            x == c@.skip(a as int),
            strip_trailing(x, '"') == strip_trailing(c@.subrange(a as int, b as int), '"'),
        decreases b,
    {
        assert(c@.subrange(a as int, b as int).drop_last() =~= c@.subrange(a as int, b - 1));
        b = b - 1;
    }
    let mut inner: Vec<char> = Vec::new();
    let mut k: usize = a;
    while k < b
        invariant
            a <= k <= b <= c@.len(),
            inner@ == c@.subrange(a as int, k as int),
        decreases b - k,
    {
        inner.push(c[k]);
        k = k + 1;
        assert(inner@ =~= c@.subrange(a as int, k as int));
    }
    match parse_u64(inner.as_slice()) {
        Some(v) => v,
        None => 0,
    }
}

fn time_attr(attrs: &Vec<(String, String)>, key: &[char]) -> (r: i64)
    ensures
        r == time_or_zero(attr_value(attrs_view(attrs@), key@)),
{
    match find_attr(attrs, key) {
        Some(t) => match parse_xmltv_time(t.as_str()) {
            Some(v) => v,
            None => 0,
        },
        None => 0,
    }
}

fn copy_program(title: &Vec<char>, desc: &Vec<char>, start: i64, stop: i64) -> (r: Program)
    ensures
        r@ == (ProgramView { start, stop, title: title@, desc: desc@ }),
{
    Program { start, stop, title: string_of(title.as_slice()), desc: string_of(desc.as_slice()) }
}

fn emit_exec(st: &mut Scan, use_title: bool)
    ensures
        final(st)@ == (ScanView {
            entries: emit(old(st)@, if use_title { old(st)@.title } else { old(st)@.desc }),
            ..old(st)@
        }),
{
    match (st.program, st.channel) {
        (Some(p), Some(id)) => {
            let prog = if use_title {
                copy_program(&st.title, &st.title, p.0, p.1)
            } else {
                copy_program(&st.title, &st.desc, p.0, p.1)
            };
            let ghost before = entries_view(st.entries@);
            let ghost pv = prog@;
            st.entries.push((id, prog));
            assert(entries_view(st.entries@) =~= before.push((id, pv)));
        },
        _ => {},
    }
}

fn scan_item(st: &mut Scan, item: &XmlItem)
    ensures
        final(st)@ == scan_step(old(st)@, item@),
{
    let programme: Vec<char> = vec!['p', 'r', 'o', 'g', 'r', 'a', 'm', 'm', 'e'];
    let title: Vec<char> = vec!['t', 'i', 't', 'l', 'e'];
    let desc: Vec<char> = vec!['d', 'e', 's', 'c'];
    assert(programme@ =~= programme_tag());
    assert(title@ =~= title_tag());
    assert(desc@ =~= desc_tag());
    match item {
        XmlItem::Start { name, attributes } => {
            let n = chars_of(name.as_str());
            if chars_eq(n.as_slice(), programme.as_slice()) {
                let ch: Vec<char> = vec!['c', 'h', 'a', 'n', 'n', 'e', 'l'];
                let sa: Vec<char> = vec!['s', 't', 'a', 'r', 't'];
                let so: Vec<char> = vec!['s', 't', 'o', 'p'];
                assert(ch@ =~= channel_attr());
                assert(sa@ =~= start_attr());
                assert(so@ =~= stop_attr());
                match find_attr(attributes, ch.as_slice()) {
                    Some(cs) => {
                        let id = channel_number_of(cs.as_str());
                        let start = time_attr(attributes, sa.as_slice());
                        let stop = time_attr(attributes, so.as_slice());
                        if id > 0 && start > 0 && stop > 0 {
                            st.channel = Some(id);
                            st.program = Some((start, stop));
                            st.title = Vec::new();
                            st.desc = Vec::new();
                        }
                    },
                    None => {},
                }
            } else if chars_eq(n.as_slice(), title.as_slice()) {
                st.in_title = true;
                st.title = Vec::new();
            } else if chars_eq(n.as_slice(), desc.as_slice()) {
                st.in_desc = true;
                st.desc = Vec::new();
            }
        },
        XmlItem::Text(t) => {
            if st.in_title {
                append_chars(&mut st.title, chars_of(t.as_str()).as_slice());
            } else if st.in_desc {
                append_chars(&mut st.desc, chars_of(t.as_str()).as_slice());
            }
        },
        XmlItem::End { name } => {
            let n = chars_of(name.as_str());
            if chars_eq(n.as_slice(), title.as_slice()) {
                st.in_title = false;
            } else if chars_eq(n.as_slice(), desc.as_slice()) {
                st.in_desc = false;
                let no_desc = st.desc.len() == 0;
                emit_exec(st, no_desc);
                st.program = None;
                st.channel = None;
            } else if chars_eq(n.as_slice(), programme.as_slice()) {
                if st.title.len() > 0 {
                    emit_exec(st, true);
                }
                st.program = None;
                st.channel = None;
            }
        },
        _ => {},
    }
}

proof fn lemma_group_index(groups: Seq<(u64, Seq<ProgramView>)>, id: u64)
    ensures
        group_index(groups, id) matches Some(k) ==> k < groups.len() && groups[k as int].0 == id,
    decreases groups.len(),
{
    if groups.len() > 0 && groups[0].0 != id {
        lemma_group_index(groups.skip(1), id);
    }
}

fn find_group(groups: &Vec<(u64, Vec<Program>)>, id: u64) -> (r: Option<usize>)
    ensures
        match r {
            Some(k) => group_index(groups_view(groups@), id) == Some(k as nat) && k < groups@.len(),
            None => group_index(groups_view(groups@), id) == None::<nat>,
        },
{
    let ghost gv = groups_view(groups@);
    let mut i: usize = 0;
    assert(gv.skip(0) =~= gv);
    while i < groups.len()
        invariant
            i <= groups@.len(),
            gv == groups_view(groups@),
            group_index(gv, id) == crate::mapping::shifted(group_index(gv.skip(i as int), id), i as nat),
        decreases groups.len() - i,
    {
        assert(gv.skip(i as int)[0].0 == groups@[i as int].0);
        assert(gv.skip(i as int).skip(1) =~= gv.skip(i + 1));
        if groups[i].0 == id {
            return Some(i);
        }
        i = i + 1;
    }
    assert(gv.skip(i as int) =~= Seq::<(u64, Seq<ProgramView>)>::empty());
    None
}

fn group_entries(entries: Vec<(u64, Program)>) -> (r: Vec<(u64, Vec<Program>)>)
    ensures
        groups_view(r@) == grouped(entries_view(entries@)),
{
    let ghost ev = entries_view(entries@);
    let n = entries.len();
    let mut rest = entries;
    let mut groups: Vec<(u64, Vec<Program>)> = Vec::new();
    let mut i: usize = 0;
    assert(ev.take(0) =~= Seq::<(u64, ProgramView)>::empty());
    assert(groups_view(groups@) =~= Seq::<(u64, Seq<ProgramView>)>::empty());
    while i < n
        invariant
            n == ev.len(),
            i <= n,
            rest@.len() == n - i,
            forall|k: int| 0 <= k < n - i ==> (#[trigger] rest@[k]).0 == ev[i + k].0 && rest@[k].1@ == ev[i + k].1,
            groups_view(groups@) == grouped(ev.take(i as int)),
        decreases n - i,
    {
        let ghost rs = rest@;
        let (id, prog) = rest.remove(0);
        assert forall|k: int| 0 <= k < n - (i + 1) implies (#[trigger] rest@[k]).0 == ev[i + 1 + k].0 && rest@[k].1@ == ev[i + 1 + k].1 by {
            assert(rest@[k] == rs[k + 1]);
        }
        let ghost pre = ev.take(i + 1);
        assert(pre.drop_last() =~= ev.take(i as int));
        assert(pre.last() == (id, prog@));
        let ghost g0 = groups_view(groups@);
        match find_group(&groups, id) {
            Some(k) => {
                proof {
                    lemma_group_index(g0, id);
                }
                let (gid, mut progs) = groups.remove(k);
                let ghost pv0 = programs_view(progs@);
                assert(gid == id && pv0 == g0[k as int].1);
                progs.push(prog);
                assert(programs_view(progs@) =~= pv0.push(pre.last().1));
                groups.insert(k, (gid, progs));
                assert(groups_view(groups@) =~= g0.update(k as int, (id, g0[k as int].1.push(pre.last().1))));
            },
            None => {
                let mut progs: Vec<Program> = Vec::new();
                progs.push(prog);
                assert(programs_view(progs@) =~= seq![pre.last().1]);
                groups.push((id, progs));
                assert(groups_view(groups@) =~= g0.push((id, seq![pre.last().1])));
            },
        }
        i = i + 1;
    }
    assert(ev.take(n as int) =~= ev);
    groups
}

/// The programs of a sequence of XML events, by channel id: groups in order
/// of first appearance, programs in document order.
pub fn parse_epg_from_events(items: &Vec<XmlItem>) -> (r: Vec<(u64, Vec<Program>)>)
    ensures
        groups_view(r@) == epg_of(items_view(items@)),
{
    let ghost iv = items_view(items@);
    let mut st = Scan {
        channel: None,
        program: None,
        in_title: false,
        in_desc: false,
        title: Vec::new(),
        desc: Vec::new(),
        entries: Vec::new(),
    };
    assert(st@ =~= scan_start()) by {
        assert(st@.entries =~= Seq::<(u64, ProgramView)>::empty());
        assert(st@.title =~= Seq::<char>::empty());
        assert(st@.desc =~= Seq::<char>::empty());
    }
    let mut i: usize = 0;
    assert(iv.take(0) =~= Seq::<XmlItemView>::empty());
    while i < items.len()
        invariant
            i <= items@.len(),
            iv == items_view(items@),
            st@ == scan_run(iv.take(i as int)),
        decreases items.len() - i,
    {
        let ghost pre = iv.take(i + 1);
        assert(pre.drop_last() =~= iv.take(i as int));
        assert(pre.last() == items@[i as int]@);
        scan_item(&mut st, &items[i]);
        i = i + 1;
    }
    assert(iv.take(i as int) =~= iv);
    group_entries(st.entries)
}

/// The programs of an XMLTV document, by channel id.
pub fn parse_epg_from_xmltv(xmltv_content: &str) -> (r: Vec<(u64, Vec<Program>)>)
    ensures
        groups_view(r@) == epg_of(xml_items_of(xmltv_content@)),
{
    let items = read_xml_items(xmltv_content);
    parse_epg_from_events(&items)
}

} // verus!
