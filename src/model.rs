//! The records that the catalog and guide produce.

use vstd::prelude::*;

verus! {

/// One scheduled broadcast; times are epoch milliseconds.
#[derive(Clone, Debug)]
pub struct Program {
    pub start: i64,
    pub stop: i64,
    pub title: String,
    pub desc: String,
}

/// One channel of the catalog.
#[derive(Clone, Debug)]
pub struct Channel {
    pub id: u64,
    pub name: String,
    /// The primary locator, an RTSP URL (rewritten for the relay when it proxies).
    pub rtsp: String,
    /// The secondary locator, a multicast address, when the portal gives one.
    pub igmp: Option<String>,
    pub epg: Vec<Program>,
    pub category: String,
}

/// What a program holds, as values.
pub struct ProgramView {
    pub start: i64,
    pub stop: i64,
    pub title: Seq<char>,
    pub desc: Seq<char>,
}

/// What a channel holds, as values.
pub struct ChannelView {
    pub id: u64,
    pub name: Seq<char>,
    pub rtsp: Seq<char>,
    pub igmp: Option<Seq<char>>,
    pub epg: Seq<ProgramView>,
    pub category: Seq<char>,
}

impl View for Program {
    type V = ProgramView;

    open spec fn view(&self) -> ProgramView {
        ProgramView { start: self.start, stop: self.stop, title: self.title@, desc: self.desc@ }
    }
}

pub open spec fn opt_string_view(o: Option<String>) -> Option<Seq<char>> {
    match o {
        Some(s) => Some(s@),
        None => None,
    }
}

pub open spec fn programs_view(v: Seq<Program>) -> Seq<ProgramView> {
    v.map_values(|p: Program| p@)
}

impl View for Channel {
    type V = ChannelView;

    open spec fn view(&self) -> ChannelView {
        ChannelView {
            id: self.id,
            name: self.name@,
            rtsp: self.rtsp@,
            igmp: opt_string_view(self.igmp),
            epg: programs_view(self.epg@),
            category: self.category@,
        }
    }
}

pub open spec fn channels_view(v: Seq<Channel>) -> Seq<ChannelView> {
    v.map_values(|c: Channel| c@)
}

} // verus!
