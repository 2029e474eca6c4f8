use iptv_proxy::mapping::{
    find_mapped_channel_id, get_mapped_channel_name, guide_source_of, logo_id, parse_channel_mapping,
};
use iptv_proxy::model::{Channel, Program};

fn pairs(v: &[(&str, &str)]) -> Vec<(String, String)> {
    v.iter().map(|(a, b)| (a.to_string(), b.to_string())).collect()
}

fn channel(id: u64, name: &str, programs: usize) -> Channel {
    Channel {
        id,
        name: name.to_string(),
        rtsp: String::new(),
        igmp: None,
        epg: (0..programs)
            .map(|k| Program { start: k as i64, stop: k as i64 + 1, title: "t".into(), desc: "d".into() })
            .collect(),
        category: String::new(),
    }
}

#[test]
fn mapping_pairs_are_trimmed() {
    assert_eq!(
        parse_channel_mapping(" a = b ,c=d,e,=f, g=h=i "),
        pairs(&[("a", "b"), ("c", "d"), ("", "f"), ("g", "h=i")])
    );
    assert!(parse_channel_mapping("").is_empty());
}

#[test]
fn mapped_name_or_own() {
    let m = parse_channel_mapping("CCTV1=CCTV-1,x=y,x=z");
    assert_eq!(get_mapped_channel_name("CCTV1", &m), "CCTV-1");
    assert_eq!(get_mapped_channel_name("x", &m), "z");
    assert_eq!(get_mapped_channel_name("other", &m), "other");
}

#[test]
fn mapped_channel_id_lookup() {
    let chans = vec![channel(10, "A", 0), channel(20, "B", 0), channel(30, "B", 0)];
    let m = parse_channel_mapping("X=B,Y=Nope");
    assert_eq!(find_mapped_channel_id("X", &chans, &m), 20);
    assert_eq!(find_mapped_channel_id("Y", &chans, &m), 0);
    assert_eq!(find_mapped_channel_id("Z", &chans, &m), 0);
}

#[test]
fn guide_source_rules() {
    let chans = vec![channel(1, "A", 2), channel(2, "B", 0), channel(3, "C", 1), channel(4, "D", 0)];
    let ids = vec![(2u64, 1u64)];
    let names = pairs(&[("D", "C")]);
    // channel 1 is a remapping target with programs: its own
    assert_eq!(guide_source_of(&chans, &ids, &names, 0), Some(0));
    // channel 2 is remapped by id onto channel 1
    assert_eq!(guide_source_of(&chans, &ids, &names, 1), Some(0));
    // channel 3 has programs of its own and no mapping
    assert_eq!(guide_source_of(&chans, &ids, &names, 2), Some(2));
    // channel 4 is remapped by name onto C
    assert_eq!(guide_source_of(&chans, &ids, &names, 3), Some(2));
    // without any mapping a channel with no programs has no source
    assert_eq!(guide_source_of(&chans, &vec![], &vec![], 1), None);
}

#[test]
fn logo_id_rules() {
    let chans = vec![channel(1, "A", 0), channel(2, "B", 0), channel(3, "C", 0)];
    let ids = vec![(2u64, 7u64)];
    let names = pairs(&[("C", "A"), ("A", "missing")]);
    assert_eq!(logo_id(&chans, &ids, &names, 1), 7);
    assert_eq!(logo_id(&chans, &ids, &names, 2), 1);
    assert_eq!(logo_id(&chans, &ids, &names, 0), 1);
}
