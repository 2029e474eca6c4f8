use iptv_proxy::category::categorize_channel;
use iptv_proxy::locator::{fix_zone_offset, rewrite_igmp, rewrite_rtsp, select_locators};
use iptv_proxy::text::{parse_u64, replace_chars, split_chars, trim_chars};

fn chars(s: &str) -> Vec<char> {
    s.chars().collect()
}

#[test]
fn category_tiers_for_sample_names() {
    assert_eq!(categorize_channel("CCTV-1 4K"), "超清频道");
    assert_eq!(categorize_channel("广东超高清"), "超清频道");
    assert_eq!(categorize_channel("广东卫视"), "高清频道");
    assert_eq!(categorize_channel("CCTV-5高清"), "高清频道");
    assert_eq!(categorize_channel("CCTV-1"), "普通频道");
    assert_eq!(categorize_channel(""), "普通频道");
}

#[test]
fn category_first_match_wins() {
    assert_eq!(categorize_channel("湖南卫视4K"), "超清频道");
    assert_eq!(categorize_channel("4k lower case"), "普通频道");
}

#[test]
fn zone_offset_rewritten_anywhere() {
    assert_eq!(
        fix_zone_offset("rtsp://10.0.0.1/ch1?zoneoffset=0&a=1"),
        "rtsp://10.0.0.1/ch1?zoneoffset=480&a=1"
    );
    assert_eq!(fix_zone_offset("rtsp://h/p?a=1&zoneoffset=0"), "rtsp://h/p?a=1&zoneoffset=480");
    assert_eq!(fix_zone_offset("zoneoffset=0 zoneoffset=0"), "zoneoffset=480 zoneoffset=480");
}

#[test]
fn zone_offset_absent_passes_through() {
    assert_eq!(fix_zone_offset("rtsp://h/p?zoneoffset=8"), "rtsp://h/p?zoneoffset=8");
    assert_eq!(fix_zone_offset("rtsp://h/p"), "rtsp://h/p");
    assert_eq!(fix_zone_offset(""), "");
}

#[test]
fn locators_primary_and_secondary() {
    let (p, s) = select_locators("rtsp://h/p|igmp://g:p");
    assert_eq!(p.as_deref(), Some("rtsp://h/p"));
    assert_eq!(s.as_deref(), Some("igmp://g:p"));
}

#[test]
fn locators_without_rtsp_entry() {
    let (p, s) = select_locators("igmp://g:p|http://x/y");
    assert_eq!(p, None);
    assert_eq!(s.as_deref(), Some("igmp://g:p"));
    let (p, s) = select_locators("");
    assert_eq!(p, None);
    assert_eq!(s, None);
}

#[test]
fn locators_first_entry_wins() {
    let (p, s) = select_locators("igmp://a:1|rtsp://first|rtsp://second|igmp://b:2");
    assert_eq!(p.as_deref(), Some("rtsp://first"));
    assert_eq!(s.as_deref(), Some("igmp://a:1"));
}

#[test]
fn rtsp_routed_through_relay() {
    assert_eq!(
        rewrite_rtsp("rtsp://10.0.0.1:554/ch?zoneoffset=0", true, "http", "host:7878"),
        "http://host:7878/rtsp/10.0.0.1:554/ch?zoneoffset=480"
    );
    assert_eq!(
        rewrite_rtsp("rtsp://10.0.0.1:554/ch?zoneoffset=0", false, "http", "host:7878"),
        "rtsp://10.0.0.1:554/ch?zoneoffset=480"
    );
}

#[test]
fn rtsp_playseek_passes_verbatim() {
    assert_eq!(
        rewrite_rtsp("rtsp://h/p?playseek=20240101000000-20240101010000", true, "https", "x"),
        "https://x/rtsp/h/p?playseek=20240101000000-20240101010000"
    );
}

#[test]
fn igmp_routed_through_relay() {
    assert_eq!(
        rewrite_igmp("igmp://239.0.0.1:5000", true, "http", "h"),
        "http://h/udp/239.0.0.1:5000"
    );
    assert_eq!(rewrite_igmp("igmp://239.0.0.1:5000", false, "http", "h"), "igmp://239.0.0.1:5000");
}

#[test]
fn replace_is_left_to_right_non_overlapping() {
    let r = replace_chars(&chars("aaaa"), &chars("aa"), &chars("b"));
    assert_eq!(r, chars("bb"));
    let r = replace_chars(&chars("aaa"), &chars("aa"), &chars("b"));
    assert_eq!(r, chars("ba"));
}

#[test]
fn split_keeps_empty_pieces() {
    let r = split_chars(&chars("a||b|"), &chars("|"));
    assert_eq!(r, vec![chars("a"), chars(""), chars("b"), chars("")]);
    let r = split_chars(&chars("k=\"v\",x=\"y"), &chars("\","));
    assert_eq!(r, vec![chars("k=\"v"), chars("x=\"y")]);
}

#[test]
fn trim_strips_unicode_space() {
    assert_eq!(trim_chars(&chars(" \t a b \u{3000}\n")), chars("a b"));
    assert_eq!(trim_chars(&chars("   ")), chars(""));
}

#[test]
fn parse_u64_like_from_str() {
    assert_eq!(parse_u64(&chars("42")), Some(42));
    assert_eq!(parse_u64(&chars("+7")), Some(7));
    assert_eq!(parse_u64(&chars("+")), None);
    assert_eq!(parse_u64(&chars("")), None);
    assert_eq!(parse_u64(&chars("-1")), None);
    assert_eq!(parse_u64(&chars("1a")), None);
    assert_eq!(parse_u64(&chars("18446744073709551615")), Some(u64::MAX));
    assert_eq!(parse_u64(&chars("18446744073709551616")), None);
}
