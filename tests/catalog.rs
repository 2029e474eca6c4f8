use iptv_proxy::catalog::{parse_catalog_page, scan_records};

fn chars(s: &str) -> Vec<char> {
    s.chars().collect()
}

const PAGE: &str = "<script>\n\
Authentication.CTCSetConfig('Channel','ChannelID=\"1\",ChannelName=\"CCTV-1高清\",UserChannelID=\"1\",ChannelURL=\"igmp://239.1.1.1:5000|rtsp://10.0.0.1/ch1?zoneoffset=0\",TimeShift=\"1\"');\n\
Authentication.CTCSetConfig('Channel','ChannelID=\"2\",ChannelName=\"Radio\",ChannelURL=\"igmp://239.1.1.2:5000\",TimeShift=\"0\"');\n\
Authentication.CTCSetConfig('Channel','ChannelID=\"abc\",ChannelName=\"Bad\",ChannelURL=\"rtsp://10.0.0.3/x\",TimeShift=\"0\"');\n\
Authentication.CTCSetConfig('Channel','ChannelID=\"+4\",ChannelName=\"广东卫视\",ChannelURL=\"rtsp://10.0.0.4/ch4\",TimeShift=\"0\"');\n\
</script>";

#[test]
fn catalog_keeps_channels_with_rtsp() {
    let chans = parse_catalog_page(PAGE, true, true, "http", "h:1");
    assert_eq!(chans.len(), 2);
    assert_eq!(chans[0].id, 1);
    assert_eq!(chans[0].name, "CCTV-1高清");
    assert_eq!(chans[0].rtsp, "http://h:1/rtsp/10.0.0.1/ch1?zoneoffset=480");
    assert_eq!(chans[0].igmp.as_deref(), Some("http://h:1/udp/239.1.1.1:5000"));
    assert_eq!(chans[0].category, "高清频道");
    assert!(chans[0].epg.is_empty());
    assert_eq!(chans[1].id, 4);
    assert_eq!(chans[1].rtsp, "http://h:1/rtsp/10.0.0.4/ch4");
    assert_eq!(chans[1].igmp, None);
}

#[test]
fn catalog_primary_and_secondary_entries() {
    let page = "Authentication.CTCSetConfig('Channel','ChannelID=\"9\",ChannelName=\"N\",ChannelURL=\"rtsp://h/p|igmp://g:p\",End=\"1\"')";
    let chans = parse_catalog_page(page, false, false, "http", "x");
    assert_eq!(chans.len(), 1);
    assert_eq!(chans[0].rtsp, "rtsp://h/p");
    assert_eq!(chans[0].igmp.as_deref(), Some("igmp://g:p"));
    assert_eq!(chans[0].category, "普通频道");
}

#[test]
fn catalog_drops_channel_without_rtsp() {
    let page = "Authentication.CTCSetConfig('Channel','ChannelID=\"9\",ChannelName=\"N\",ChannelURL=\"igmp://g:p|http://x\",End=\"1\"')";
    assert!(parse_catalog_page(page, false, false, "http", "x").is_empty());
}

#[test]
fn catalog_empty_page() {
    assert!(parse_catalog_page("", true, true, "http", "x").is_empty());
    assert!(parse_catalog_page("no records here", true, true, "http", "x").is_empty());
}

#[test]
fn catalog_last_field_keeps_its_quote() {
    let page = "Authentication.CTCSetConfig('Channel','ChannelID=\"5\",ChannelName=\"N\",ChannelURL=\"rtsp://h/p\"')";
    let chans = parse_catalog_page(page, false, false, "http", "x");
    assert_eq!(chans.len(), 1);
    assert_eq!(chans[0].rtsp, "rtsp://h/p\"");
}

#[test]
fn catalog_later_field_overrides() {
    let page = "Authentication.CTCSetConfig('Channel','ChannelID=\"5\",ChannelName=\"A\",ChannelName=\"B\",ChannelURL=\"rtsp://h/p\",E=\"\"')";
    let chans = parse_catalog_page(page, false, false, "http", "x");
    assert_eq!(chans[0].name, "B");
}

#[test]
fn records_are_shortest_match_on_one_line() {
    let recs = scan_records(&chars("Authentication.CTCSetConfig('Channel','a') b') Authentication_CTCSetConfig('Channel','c')"));
    assert_eq!(recs, vec![chars("a"), chars("c")]);
}

#[test]
fn records_do_not_cross_lines() {
    let recs = scan_records(&chars("Authentication.CTCSetConfig('Channel','a\nb')"));
    assert!(recs.is_empty());
    let recs = scan_records(&chars("Authentication.CTCSetConfig('Channel','')x')"));
    assert_eq!(recs, vec![chars("')x")]);
}
