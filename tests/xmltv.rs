use iptv_proxy::xmltv::{parse_epg_from_events, parse_epg_from_xmltv, parse_xmltv_time, XmlItem};

fn start(name: &str, attrs: &[(&str, &str)]) -> XmlItem {
    XmlItem::Start {
        name: name.to_string(),
        attributes: attrs.iter().map(|(a, b)| (a.to_string(), b.to_string())).collect(),
    }
}

fn end(name: &str) -> XmlItem {
    XmlItem::End { name: name.to_string() }
}

#[test]
fn times_without_an_offset_do_not_parse() {
    assert_eq!(parse_xmltv_time("20240101120000 +0800"), None);
    assert_eq!(parse_xmltv_time("garbage"), None);
}

#[test]
fn programmes_without_readable_times_are_skipped() {
    let items = vec![
        start("tv", &[]),
        start("programme", &[("start", "20240101120000 +0800"), ("stop", "20240101130000 +0800"), ("channel", "\"5\"")]),
        start("title", &[("lang", "chi")]),
        XmlItem::Text("News".to_string()),
        end("title"),
        end("programme"),
        end("tv"),
    ];
    assert!(parse_epg_from_events(&items).is_empty());
}

#[test]
fn document_without_programmes() {
    assert!(parse_epg_from_xmltv("<tv><channel id=\"1\"><display-name>A</display-name></channel></tv>").is_empty());
    assert!(parse_epg_from_xmltv("not xml").is_empty());
}
