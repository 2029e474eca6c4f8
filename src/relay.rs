//! Stream relays, as decisions: the RTSP and the multicast relay are state
//! machines from state and event to next state and action. The caller performs
//! each action on the sockets and hands back what happened as the next event.

use vstd::prelude::*;

verus! {

/// The RTSP requests that bring a session to the point of playing.
#[derive(Clone, Copy, Debug, PartialEq, Eq, Structural)]
pub enum Negotiation {
    Describe,
    Setup,
    Play,
}

#[derive(Clone, Copy, Debug, PartialEq, Eq, Structural)]
pub enum RtspState {
    Init,
    Connecting,
    Negotiating(Negotiation),
    Streaming,
    Teardown,
    Closed,
}

#[derive(Clone, Copy, Debug, PartialEq, Eq, Structural)]
pub enum RtspEvent {
    /// The client asked for the stream.
    Start,
    /// The connection to the RTSP server is open.
    Connected,
    /// The server answered the pending request with success.
    ReplyOk,
    /// Media arrived from the server.
    Media,
    /// The server ended the stream.
    UpstreamEnded,
    /// Connecting, a request or a read failed.
    Failed,
    /// The client went away; its body was dropped.
    ClientGone,
    /// The teardown was answered, or could not complete.
    Done,
}

#[derive(Clone, Copy, Debug, PartialEq, Eq, Structural)]
pub enum RtspAction {
    Connect,
    SendDescribe,
    SendSetup,
    SendPlay,
    /// Hand the media to the client.
    Forward,
    /// Send `TEARDOWN`.
    SendTeardown,
    /// Report the upstream error to the client once, and send `TEARDOWN`.
    Fail,
    /// Close the connection.
    Release,
    Idle,
}

/// The RTSP relay's transition: errors anywhere go to `Teardown`, and
/// `Teardown` always ends in `Closed`, releasing the connection.
pub open spec fn rtsp_next(s: RtspState, e: RtspEvent) -> (RtspState, RtspAction) {
    match s {
        RtspState::Closed => (RtspState::Closed, RtspAction::Idle),
        RtspState::Teardown => (RtspState::Closed, RtspAction::Release),
        _ => match e {
            RtspEvent::Failed => (RtspState::Teardown, RtspAction::Fail),
            RtspEvent::ClientGone => (RtspState::Teardown, RtspAction::SendTeardown),
            RtspEvent::UpstreamEnded => if s == RtspState::Streaming {
                (RtspState::Teardown, RtspAction::SendTeardown)
            } else {
                (RtspState::Teardown, RtspAction::Fail)
            },
            RtspEvent::Start => if s == RtspState::Init {
                (RtspState::Connecting, RtspAction::Connect)
            } else {
                (s, RtspAction::Idle)
            },
            RtspEvent::Connected => if s == RtspState::Connecting {
                (RtspState::Negotiating(Negotiation::Describe), RtspAction::SendDescribe)
            } else {
                (s, RtspAction::Idle)
            },
            RtspEvent::ReplyOk => match s {
                RtspState::Negotiating(Negotiation::Describe) => (
                    RtspState::Negotiating(Negotiation::Setup),
                    RtspAction::SendSetup,
                ),
                RtspState::Negotiating(Negotiation::Setup) => (
                    RtspState::Negotiating(Negotiation::Play),
                    RtspAction::SendPlay,
                ),
                RtspState::Negotiating(Negotiation::Play) => (RtspState::Streaming, RtspAction::Idle),
                _ => (s, RtspAction::Idle),
            },
            RtspEvent::Media => if s == RtspState::Streaming {
                (RtspState::Streaming, RtspAction::Forward)
            } else {
                (s, RtspAction::Idle)
            },
            RtspEvent::Done => (s, RtspAction::Idle),
        },
    }
}

/// One step of the RTSP relay.
pub fn rtsp_step(s: RtspState, e: RtspEvent) -> (r: (RtspState, RtspAction))
    ensures
        r == rtsp_next(s, e),
{
    match s {
        RtspState::Closed => (RtspState::Closed, RtspAction::Idle),
        RtspState::Teardown => (RtspState::Closed, RtspAction::Release),
        _ => match e {
            RtspEvent::Failed => (RtspState::Teardown, RtspAction::Fail),
            RtspEvent::ClientGone => (RtspState::Teardown, RtspAction::SendTeardown),
            RtspEvent::UpstreamEnded => if s == RtspState::Streaming {
                (RtspState::Teardown, RtspAction::SendTeardown)
            } else {
                (RtspState::Teardown, RtspAction::Fail)
            },
            RtspEvent::Start => if s == RtspState::Init {
                (RtspState::Connecting, RtspAction::Connect)
            } else {
                (s, RtspAction::Idle)
            },
            RtspEvent::Connected => if s == RtspState::Connecting {
                (RtspState::Negotiating(Negotiation::Describe), RtspAction::SendDescribe)
            } else {
                (s, RtspAction::Idle)
            },
            RtspEvent::ReplyOk => match s {
                RtspState::Negotiating(Negotiation::Describe) => (
                    RtspState::Negotiating(Negotiation::Setup),
                    RtspAction::SendSetup,
                ),
                RtspState::Negotiating(Negotiation::Setup) => (
                    RtspState::Negotiating(Negotiation::Play),
                    RtspAction::SendPlay,
                ),
                RtspState::Negotiating(Negotiation::Play) => (RtspState::Streaming, RtspAction::Idle),
                _ => (s, RtspAction::Idle),
            },
            RtspEvent::Media => if s == RtspState::Streaming {
                (RtspState::Streaming, RtspAction::Forward)
            } else {
                (s, RtspAction::Idle)
            },
            RtspEvent::Done => (s, RtspAction::Idle),
        },
    }
}

/// The state after a run of events from `s`, and the action taken at each.
pub open spec fn rtsp_run(s: RtspState, events: Seq<RtspEvent>) -> (RtspState, Seq<RtspAction>)
    decreases events.len(),
{
    if events.len() == 0 {
        (s, Seq::empty())
    } else {
        let prev = rtsp_run(s, events.drop_last());
        let step = rtsp_next(prev.0, events.last());
        (step.0, prev.1.push(step.1))
    }
}

proof fn lemma_rtsp_run_len(s: RtspState, events: Seq<RtspEvent>)
    ensures
        rtsp_run(s, events).1.len() == events.len(),
    decreases events.len(),
{
    if events.len() > 0 {
        lemma_rtsp_run_len(s, events.drop_last());
    }
}

/// A relay that is never in `Streaming` before an event never forwards a byte.
pub proof fn lemma_no_forward_before_streaming(events: Seq<RtspEvent>)
    requires
        forall|k: int|
            0 <= k < events.len() ==> #[trigger] rtsp_run(RtspState::Init, events.take(k)).0
                != RtspState::Streaming,
    ensures
        forall|j: int|
            0 <= j < events.len() ==> #[trigger] rtsp_run(RtspState::Init, events).1[j]
                != RtspAction::Forward,
    decreases events.len(),
{
    lemma_rtsp_run_len(RtspState::Init, events);
    if events.len() > 0 {
        let init = events.drop_last();
        assert forall|k: int| 0 <= k < init.len() implies #[trigger] rtsp_run(
            RtspState::Init,
            init.take(k),
        ).0 != RtspState::Streaming by {
            assert(init.take(k) =~= events.take(k));
        }
        lemma_no_forward_before_streaming(init);
        lemma_rtsp_run_len(RtspState::Init, init);
        assert(events.take(init.len() as int) =~= init);
        let acts = rtsp_run(RtspState::Init, events).1;
        assert forall|j: int| 0 <= j < events.len() implies #[trigger] acts[j] != RtspAction::Forward by {
            if j < init.len() {
                assert(acts[j] == rtsp_run(RtspState::Init, init).1[j]);
            }
        }
    }
}

/// A run over `a` then `b` is the run over `a` followed by the run over `b`
/// from where `a` left the relay.
proof fn lemma_rtsp_run_split(s: RtspState, a: Seq<RtspEvent>, b: Seq<RtspEvent>)
    ensures
        rtsp_run(s, a + b).0 == rtsp_run(rtsp_run(s, a).0, b).0,
        rtsp_run(s, a + b).1 == rtsp_run(s, a).1 + rtsp_run(rtsp_run(s, a).0, b).1,
    decreases b.len(),
{
    if b.len() == 0 {
        assert(a + b =~= a);
        assert(rtsp_run(s, a).1 + Seq::<RtspAction>::empty() =~= rtsp_run(s, a).1);
    } else {
        lemma_rtsp_run_split(s, a, b.drop_last());
        assert((a + b).drop_last() =~= a + b.drop_last());
        assert((a + b).last() == b.last());
        let mid = rtsp_run(s, a);
        let tail = rtsp_run(mid.0, b.drop_last());
        assert(mid.1 + tail.1.push(rtsp_next(tail.0, b.last()).1) =~= (mid.1 + tail.1).push(
            rtsp_next(tail.0, b.last()).1,
        ));
    }
}

/// From `Teardown` or `Closed` a relay only releases its connection or idles,
/// and never leaves those two states.
proof fn lemma_rtsp_winding_down(s: RtspState, events: Seq<RtspEvent>)
    requires
        s == RtspState::Teardown || s == RtspState::Closed,
    ensures
        rtsp_run(s, events).0 == RtspState::Teardown || rtsp_run(s, events).0 == RtspState::Closed,
        forall|j: int|
            0 <= j < rtsp_run(s, events).1.len() ==> #[trigger] rtsp_run(s, events).1[j]
                == RtspAction::Release || rtsp_run(s, events).1[j] == RtspAction::Idle,
    decreases events.len(),
{
    if events.len() > 0 {
        lemma_rtsp_winding_down(s, events.drop_last());
        let acts = rtsp_run(s, events).1;
        let prev = rtsp_run(s, events.drop_last()).1;
        assert forall|j: int| 0 <= j < acts.len() implies #[trigger] acts[j] == RtspAction::Release
            || acts[j] == RtspAction::Idle by {
            if j < prev.len() {
                assert(acts[j] == prev[j]);
            }
        }
    }
}

/// A relay does not retry: once it has reported an upstream error it never
/// connects again, nor reports a second error.
pub proof fn lemma_rtsp_fails_once(events: Seq<RtspEvent>, i: int, j: int)
    requires
        0 <= i < j < events.len(),
        rtsp_run(RtspState::Init, events).1[i] == RtspAction::Fail,
    ensures
        rtsp_run(RtspState::Init, events).1[j] != RtspAction::Fail,
        rtsp_run(RtspState::Init, events).1[j] != RtspAction::Connect,
{
    let a = events.take(i + 1);
    let b = events.skip(i + 1);
    assert(a + b =~= events);
    lemma_rtsp_run_split(RtspState::Init, a, b);
    lemma_rtsp_run_len(RtspState::Init, a);
    lemma_rtsp_run_len(RtspState::Init, events);
    assert(a.drop_last() =~= events.take(i));
    lemma_rtsp_run_len(RtspState::Init, events.take(i));
    let mid = rtsp_run(RtspState::Init, a);
    let all = rtsp_run(RtspState::Init, events).1;
    assert(all[i] == mid.1[i]);
    assert(mid.1[i] == rtsp_next(rtsp_run(RtspState::Init, a.drop_last()).0, a.last()).1);
    assert(mid.0 == RtspState::Teardown);
    lemma_rtsp_winding_down(mid.0, b);
    lemma_rtsp_run_len(mid.0, b);
    assert(all[j] == rtsp_run(mid.0, b).1[j - (i + 1)]);
}

/// A negotiation that fails goes straight to `Teardown`, reporting the error
/// and forwarding nothing, and whatever happens next closes it, releasing the
/// connection.
pub proof fn lemma_failed_negotiation_releases(n: Negotiation, next: RtspEvent)
    ensures
        rtsp_next(RtspState::Negotiating(n), RtspEvent::Failed) == (RtspState::Teardown, RtspAction::Fail),
        rtsp_next(RtspState::Teardown, next) == (RtspState::Closed, RtspAction::Release),
{
}

#[derive(Clone, Copy, Debug, PartialEq, Eq, Structural)]
pub enum McastState {
    Init,
    Joining,
    Receiving,
    Leaving,
    Closed,
}

#[derive(Clone, Copy, Debug, PartialEq, Eq, Structural)]
pub enum McastEvent {
    /// The client asked for the stream.
    Start,
    /// The socket is bound and the group joined.
    Joined,
    /// A datagram arrived.
    Datagram,
    /// Binding, joining or a read failed.
    Failed,
    /// The client went away; its body was dropped.
    ClientGone,
    /// The previous action is complete.
    Done,
}

#[derive(Clone, Copy, Debug, PartialEq, Eq, Structural)]
pub enum McastAction {
    /// Open the socket and join the group.
    Join,
    /// Hand the datagram's payload to the client.
    Forward,
    /// Leave the group.
    Leave,
    /// Report the upstream error to the client once, and leave the group.
    FailLeave,
    /// Close the socket.
    Close,
    Idle,
}

/// The multicast relay's transition: errors and a departed client go to
/// `Leaving`, which leaves the group, and `Leaving` always ends in `Closed`,
/// closing the socket.
pub open spec fn mcast_next(s: McastState, e: McastEvent) -> (McastState, McastAction) {
    match s {
        McastState::Closed => (McastState::Closed, McastAction::Idle),
        McastState::Leaving => (McastState::Closed, McastAction::Close),
        _ => match e {
            McastEvent::Failed => (McastState::Leaving, McastAction::FailLeave),
            McastEvent::ClientGone => (McastState::Leaving, McastAction::Leave),
            McastEvent::Start => if s == McastState::Init {
                (McastState::Joining, McastAction::Join)
            } else {
                (s, McastAction::Idle)
            },
            McastEvent::Joined => if s == McastState::Joining {
                (McastState::Receiving, McastAction::Idle)
            } else {
                (s, McastAction::Idle)
            },
            McastEvent::Datagram => if s == McastState::Receiving {
                (McastState::Receiving, McastAction::Forward)
            } else {
                (s, McastAction::Idle)
            },
            McastEvent::Done => (s, McastAction::Idle),
        },
    }
}

/// One step of the multicast relay.
pub fn mcast_step(s: McastState, e: McastEvent) -> (r: (McastState, McastAction))
    ensures
        r == mcast_next(s, e),
{
    match s {
        McastState::Closed => (McastState::Closed, McastAction::Idle),
        McastState::Leaving => (McastState::Closed, McastAction::Close),
        _ => match e {
            McastEvent::Failed => (McastState::Leaving, McastAction::FailLeave),
            McastEvent::ClientGone => (McastState::Leaving, McastAction::Leave),
            McastEvent::Start => if s == McastState::Init {
                (McastState::Joining, McastAction::Join)
            } else {
                (s, McastAction::Idle)
            },
            McastEvent::Joined => if s == McastState::Joining {
                (McastState::Receiving, McastAction::Idle)
            } else {
                (s, McastAction::Idle)
            },
            McastEvent::Datagram => if s == McastState::Receiving {
                (McastState::Receiving, McastAction::Forward)
            } else {
                (s, McastAction::Idle)
            },
            McastEvent::Done => (s, McastAction::Idle),
        },
    }
}

/// The state after a run of events from `s`, and the action taken at each.
pub open spec fn mcast_run(s: McastState, events: Seq<McastEvent>) -> (McastState, Seq<McastAction>)
    decreases events.len(),
{
    if events.len() == 0 {
        (s, Seq::empty())
    } else {
        let prev = mcast_run(s, events.drop_last());
        let step = mcast_next(prev.0, events.last());
        (step.0, prev.1.push(step.1))
    }
}

proof fn lemma_mcast_run_len(s: McastState, events: Seq<McastEvent>)
    ensures
        mcast_run(s, events).1.len() == events.len(),
    decreases events.len(),
{
    if events.len() > 0 {
        lemma_mcast_run_len(s, events.drop_last());
    }
}

/// A run over `a` then `b` is the run over `a` followed by the run over `b`
/// from where `a` left the relay.
proof fn lemma_mcast_run_split(s: McastState, a: Seq<McastEvent>, b: Seq<McastEvent>)
    ensures
        mcast_run(s, a + b).0 == mcast_run(mcast_run(s, a).0, b).0,
        mcast_run(s, a + b).1 == mcast_run(s, a).1 + mcast_run(mcast_run(s, a).0, b).1,
    decreases b.len(),
{
    if b.len() == 0 {
        assert(a + b =~= a);
        assert(mcast_run(s, a).1 + Seq::<McastAction>::empty() =~= mcast_run(s, a).1);
    } else {
        lemma_mcast_run_split(s, a, b.drop_last());
        assert((a + b).drop_last() =~= a + b.drop_last());
        assert((a + b).last() == b.last());
        let mid = mcast_run(s, a);
        let tail = mcast_run(mid.0, b.drop_last());
        assert(mid.1 + tail.1.push(mcast_next(tail.0, b.last()).1) =~= (mid.1 + tail.1).push(
            mcast_next(tail.0, b.last()).1,
        ));
    }
}

/// From `Leaving` or `Closed` a relay only closes its socket or idles,
/// and never leaves those two states.
proof fn lemma_mcast_winding_down(s: McastState, events: Seq<McastEvent>)
    requires
        s == McastState::Leaving || s == McastState::Closed,
    ensures
        mcast_run(s, events).0 == McastState::Leaving || mcast_run(s, events).0 == McastState::Closed,
        forall|j: int|
            0 <= j < mcast_run(s, events).1.len() ==> #[trigger] mcast_run(s, events).1[j]
                == McastAction::Close || mcast_run(s, events).1[j] == McastAction::Idle,
    decreases events.len(),
{
    if events.len() > 0 {
        lemma_mcast_winding_down(s, events.drop_last());
        let acts = mcast_run(s, events).1;
        let prev = mcast_run(s, events.drop_last()).1;
        assert forall|j: int| 0 <= j < acts.len() implies #[trigger] acts[j] == McastAction::Close
            || acts[j] == McastAction::Idle by {
            if j < prev.len() {
                assert(acts[j] == prev[j]);
            }
        }
    }
}

/// A relay does not retry: once it has reported an upstream error it never
/// joins again, nor reports a second error.
pub proof fn lemma_mcast_fails_once(events: Seq<McastEvent>, i: int, j: int)
    requires
        0 <= i < j < events.len(),
        mcast_run(McastState::Init, events).1[i] == McastAction::FailLeave,
    ensures
        mcast_run(McastState::Init, events).1[j] != McastAction::FailLeave,
        mcast_run(McastState::Init, events).1[j] != McastAction::Join,
{
    let a = events.take(i + 1);
    let b = events.skip(i + 1);
    assert(a + b =~= events);
    lemma_mcast_run_split(McastState::Init, a, b);
    lemma_mcast_run_len(McastState::Init, a);
    lemma_mcast_run_len(McastState::Init, events);
    assert(a.drop_last() =~= events.take(i));
    lemma_mcast_run_len(McastState::Init, events.take(i));
    let mid = mcast_run(McastState::Init, a);
    let all = mcast_run(McastState::Init, events).1;
    assert(all[i] == mid.1[i]);
    assert(mid.1[i] == mcast_next(mcast_run(McastState::Init, a.drop_last()).0, a.last()).1);
    assert(mid.0 == McastState::Leaving);
    lemma_mcast_winding_down(mid.0, b);
    lemma_mcast_run_len(mid.0, b);
    assert(all[j] == mcast_run(mid.0, b).1[j - (i + 1)]);
}

/// Group membership, as a tracker of the actions sees it: a member since the
/// last join, unless a leave came after it.
pub open spec fn in_group(acts: Seq<McastAction>) -> bool
    decreases acts.len(),
{
    if acts.len() == 0 {
        false
    } else if acts.last() == McastAction::Join {
        true
    } else if acts.last() == McastAction::Leave || acts.last() == McastAction::FailLeave {
        false
    } else {
        in_group(acts.drop_last())
    }
}

/// Whether the socket is open: opened by the last join, unless closed after it.
pub open spec fn socket_open(acts: Seq<McastAction>) -> bool
    decreases acts.len(),
{
    if acts.len() == 0 {
        false
    } else if acts.last() == McastAction::Join {
        true
    } else if acts.last() == McastAction::Close {
        false
    } else {
        socket_open(acts.drop_last())
    }
}

/// What the tracker sees in each state of a run from `Init`.
pub open spec fn mcast_consistent(s: McastState, acts: Seq<McastAction>) -> bool {
    match s {
        McastState::Init => !in_group(acts) && !socket_open(acts),
        McastState::Joining | McastState::Receiving => in_group(acts) && socket_open(acts),
        McastState::Leaving => !in_group(acts),
        McastState::Closed => !in_group(acts) && !socket_open(acts),
    }
}

proof fn lemma_mcast_consistent(events: Seq<McastEvent>)
    ensures
        mcast_consistent(mcast_run(McastState::Init, events).0, mcast_run(McastState::Init, events).1),
    decreases events.len(),
{
    if events.len() > 0 {
        lemma_mcast_consistent(events.drop_last());
        let acts = mcast_run(McastState::Init, events).1;
        assert(acts.drop_last() =~= mcast_run(McastState::Init, events.drop_last()).1);
    }
}

/// When the client drops the stream, whatever state the relay was in, the
/// next read cycle finds it closed, out of the group, with its socket closed.
pub proof fn lemma_drop_leaves_group(events: Seq<McastEvent>, next: McastEvent)
    ensures
        ({
            let run = mcast_run(McastState::Init, events.push(McastEvent::ClientGone).push(next));
            run.0 == McastState::Closed && !in_group(run.1) && !socket_open(run.1)
        }),
{
    let all = events.push(McastEvent::ClientGone).push(next);
    let mid = events.push(McastEvent::ClientGone);
    assert(all.drop_last() =~= mid);
    assert(mid.drop_last() =~= events);
    assert(all.last() == next);
    assert(mid.last() == McastEvent::ClientGone);
    let s0 = mcast_run(McastState::Init, events).0;
    let s1 = mcast_run(McastState::Init, mid).0;
    assert(s1 == mcast_next(s0, McastEvent::ClientGone).0);
    assert(s1 == McastState::Leaving || s1 == McastState::Closed);
    assert(mcast_run(McastState::Init, all).0 == mcast_next(s1, next).0);
    lemma_mcast_consistent(all);
}

/// The last `cap` of `pushed` (all of them when there are fewer): what a
/// window of `cap` slots holds after they were pushed in turn.
pub open spec fn latest(pushed: Seq<Seq<u8>>, cap: nat) -> Seq<Seq<u8>> {
    if pushed.len() <= cap {
        pushed
    } else {
        pushed.skip(pushed.len() - cap)
    }
}

/// A bounded window of datagrams between the socket and a slower client:
/// when it is full, the oldest datagram is dropped to make room.
pub struct PacketWindow {
    packets: Vec<Vec<u8>>,
    cap: usize,
}

pub open spec fn packets_view(v: Seq<Vec<u8>>) -> Seq<Seq<u8>> {
    v.map_values(|p: Vec<u8>| p@)
}

impl View for PacketWindow {
    type V = Seq<Seq<u8>>;

    closed spec fn view(&self) -> Seq<Seq<u8>> {
        packets_view(self.packets@)
    }
}

impl PacketWindow {
    /// The number of slots.
    pub closed spec fn capacity(&self) -> nat {
        self.cap as nat
    }

    pub closed spec fn wf(&self) -> bool {
        0 < self.cap && self.packets@.len() <= self.cap
    }

    /// An empty window of `cap` slots.
    pub fn new(cap: usize) -> (r: Self)
        requires
            cap > 0,
        ensures
            r.wf(),
            r@ == Seq::<Seq<u8>>::empty(),
            r.capacity() == cap,
    {
        let r = PacketWindow { packets: Vec::new(), cap };
        assert(r@ =~= Seq::<Seq<u8>>::empty());
        r
    }

    pub fn len(&self) -> (r: usize)
        requires
            self.wf(),
        ensures
            r == self@.len(),
            r <= self.capacity(),
    {
        self.packets.len()
    }

    /// Adds the newest datagram, dropping the oldest when the window is full.
    pub fn push(&mut self, packet: Vec<u8>)
        requires
            old(self).wf(),
        ensures
            final(self).wf(),
            final(self).capacity() == old(self).capacity(),
            final(self)@ == latest(old(self)@.push(packet@), old(self).capacity()),
    {
        let ghost before = self@;
        let ghost p = packet@;
        if self.packets.len() == self.cap {
            let _dropped = self.packets.remove(0);
        }
        self.packets.push(packet);
        proof {
            let all = before.push(p);
            if before.len() < self.cap {
                assert(self@ =~= all);
            } else {
                assert(self@ =~= all.skip(all.len() - self.cap));
            }
        }
    }

    /// Takes the oldest datagram, if any.
    pub fn pop_oldest(&mut self) -> (r: Option<Vec<u8>>)
        requires
            old(self).wf(),
        ensures
            final(self).wf(),
            final(self).capacity() == old(self).capacity(),
            old(self)@.len() == 0 ==> r is None && final(self)@ == old(self)@,
            old(self)@.len() > 0 ==> (r matches Some(p) && p@ == old(self)@[0] && final(self)@
                == old(self)@.skip(1)),
    {
        if self.packets.len() == 0 {
            None
        } else {
            let ghost before = self@;
            let p = self.packets.remove(0);
            assert(self@ =~= before.skip(1));
            Some(p)
        }
    }
}

/// Pushing datagrams one after another into a window of `cap` slots keeps
/// exactly the latest `cap` of them, oldest first.
pub proof fn lemma_latest_wins(held: Seq<Seq<u8>>, pushed: Seq<Seq<u8>>, p: Seq<u8>, cap: nat)
    requires
        cap > 0,
        held == latest(pushed, cap),
    ensures
        latest(held.push(p), cap) == latest(pushed.push(p), cap),
{
    let all = pushed.push(p);
    if pushed.len() < cap {
        assert(held.push(p) =~= all);
    } else if pushed.len() == cap {
        assert(held.push(p).skip(1) =~= all.skip(all.len() - cap));
    } else {
        assert(held.push(p).skip(1) =~= all.skip(all.len() - cap));
    }
}

} // verus!
