use iptv_proxy::relay::{
    mcast_step, rtsp_step, McastAction, McastEvent, McastState, Negotiation, PacketWindow, RtspAction,
    RtspEvent, RtspState,
};

fn run_rtsp(events: &[RtspEvent]) -> (RtspState, Vec<RtspAction>) {
    let mut s = RtspState::Init;
    let mut acts = vec![];
    for e in events {
        let (n, a) = rtsp_step(s, *e);
        s = n;
        acts.push(a);
    }
    (s, acts)
}

fn run_mcast(events: &[McastEvent]) -> (McastState, Vec<McastAction>) {
    let mut s = McastState::Init;
    let mut acts = vec![];
    for e in events {
        let (n, a) = mcast_step(s, *e);
        s = n;
        acts.push(a);
    }
    (s, acts)
}

#[test]
fn rtsp_reaches_streaming_and_forwards() {
    let (s, acts) = run_rtsp(&[RtspEvent::Start, RtspEvent::Connected, RtspEvent::ReplyOk, RtspEvent::ReplyOk, RtspEvent::ReplyOk, RtspEvent::Media, RtspEvent::Media]);
    assert_eq!(s, RtspState::Streaming);
    assert_eq!(
        acts,
        vec![
            RtspAction::Connect,
            RtspAction::SendDescribe,
            RtspAction::SendSetup,
            RtspAction::SendPlay,
            RtspAction::Idle,
            RtspAction::Forward,
            RtspAction::Forward,
        ]
    );
}

#[test]
fn rtsp_negotiation_error_never_forwards_and_releases() {
    let (s, acts) = run_rtsp(&[RtspEvent::Start, RtspEvent::Connected, RtspEvent::ReplyOk, RtspEvent::Media, RtspEvent::Failed, RtspEvent::Media, RtspEvent::Done]);
    assert_eq!(s, RtspState::Closed);
    assert!(!acts.contains(&RtspAction::Forward));
    assert_eq!(acts[4], RtspAction::Fail);
    assert_eq!(acts[5], RtspAction::Release);
    assert_eq!(acts[6], RtspAction::Idle);
    assert_eq!(rtsp_step(RtspState::Negotiating(Negotiation::Play), RtspEvent::Failed), (RtspState::Teardown, RtspAction::Fail));
}

#[test]
fn rtsp_client_gone_sends_teardown_then_releases() {
    let (s, acts) = run_rtsp(&[RtspEvent::Start, RtspEvent::Connected, RtspEvent::ReplyOk, RtspEvent::ReplyOk, RtspEvent::ReplyOk, RtspEvent::Media, RtspEvent::ClientGone, RtspEvent::Done]);
    assert_eq!(s, RtspState::Closed);
    assert_eq!(acts[6], RtspAction::SendTeardown);
    assert_eq!(acts[7], RtspAction::Release);
}

#[test]
fn multicast_drop_leaves_group_and_closes() {
    let (s, acts) = run_mcast(&[McastEvent::Start, McastEvent::Joined, McastEvent::Datagram, McastEvent::Datagram, McastEvent::ClientGone, McastEvent::Datagram]);
    assert_eq!(s, McastState::Closed);
    assert_eq!(acts[4], McastAction::Leave);
    assert_eq!(acts[5], McastAction::Close);
    // a fake membership tracker over the actions
    let mut member = false;
    let mut open = false;
    for a in &acts {
        match a {
            McastAction::Join => {
                member = true;
                open = true;
            }
            McastAction::Leave | McastAction::FailLeave => member = false,
            McastAction::Close => open = false,
            _ => {}
        }
    }
    assert!(!member);
    assert!(!open);
}

#[test]
fn multicast_join_error_reports_and_closes() {
    let (s, acts) = run_mcast(&[McastEvent::Start, McastEvent::Failed, McastEvent::Done, McastEvent::Datagram]);
    assert_eq!(s, McastState::Closed);
    assert_eq!(acts, vec![McastAction::Join, McastAction::FailLeave, McastAction::Close, McastAction::Idle]);
}

#[test]
fn window_drops_oldest_when_full() {
    let mut w = PacketWindow::new(2);
    w.push(vec![1]);
    w.push(vec![2]);
    w.push(vec![3]);
    assert_eq!(w.len(), 2);
    assert_eq!(w.pop_oldest(), Some(vec![2]));
    assert_eq!(w.pop_oldest(), Some(vec![3]));
    assert_eq!(w.pop_oldest(), None);
}
