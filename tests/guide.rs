use iptv_proxy::guide::{guide_window, merge_guide, programs_from_bills, Bill, DAY_MS};
use iptv_proxy::model::Channel;

fn channel(id: u64) -> Channel {
    Channel {
        id,
        name: format!("C{id}"),
        rtsp: format!("rtsp://h/{id}"),
        igmp: None,
        epg: vec![],
        category: "普通频道".to_string(),
    }
}

fn bill(name: &str, start: i64, end: i64) -> Bill {
    Bill { name: name.to_string(), start_time: start, end_time: end }
}

#[test]
fn window_spans_two_days_back_five_ahead() {
    let now = 1_700_000_000_000u64;
    assert_eq!(guide_window(now), (now - 2 * 86_400_000, now + 5 * 86_400_000));
    assert_eq!(guide_window(2 * DAY_MS), (0, 7 * DAY_MS));
}

#[test]
fn one_failed_reply_leaves_an_empty_list() {
    let chans = vec![channel(1), channel(2), channel(3)];
    let replies = vec![
        Some(vec![bill("News", 10, 20), bill("Film", 20, 30)]),
        None,
        Some(vec![bill("Sport", 5, 6)]),
    ];
    let out = merge_guide(chans, replies);
    assert_eq!(out.len(), 3);
    assert_eq!(out.iter().map(|c| c.id).collect::<Vec<_>>(), vec![1, 2, 3]);
    assert_eq!(out[0].epg.len(), 2);
    assert!(out[1].epg.is_empty());
    assert_eq!(out[2].epg.len(), 1);
    assert_eq!(out[0].epg[1].title, "Film");
    assert_eq!(out[0].epg[1].desc, "Film");
    assert_eq!(out[0].epg[1].start, 20);
    assert_eq!(out[0].epg[1].stop, 30);
}

#[test]
fn empty_catalog_merges_to_empty() {
    assert!(merge_guide(vec![], vec![]).is_empty());
}

#[test]
fn bills_become_programs() {
    let ps = programs_from_bills(&vec![bill("A", 1, 2)]);
    assert_eq!(ps.len(), 1);
    assert_eq!((ps[0].start, ps[0].stop), (1, 2));
    assert_eq!(ps[0].title, "A");
    assert_eq!(ps[0].desc, "A");
}
