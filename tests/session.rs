use iptv_proxy::session::{
    authorize_params, authorize_url, catalog_url, fetch_step, get_base_url, guide_params, guide_url,
    login_params, login_url, token_params, token_url, FetchError, FetchStep, Outcome,
};

fn pairs(v: &[(&str, &str)]) -> Vec<(String, String)> {
    v.iter().map(|(a, b)| (a.to_string(), b.to_string())).collect()
}

#[test]
fn base_url_from_parts() {
    assert_eq!(get_base_url("http", Some("10.0.0.8"), Some(33200)), Ok("http://10.0.0.8:33200".to_string()));
    assert_eq!(get_base_url("https", Some("h"), Some(0)), Ok("https://h:0".to_string()));
}

#[test]
fn base_url_without_host_or_port_fails() {
    assert_eq!(get_base_url("http", None, Some(80)), Err(FetchError::Auth));
    assert_eq!(get_base_url("http", Some("h"), None), Err(FetchError::Auth));
}

#[test]
fn endpoints() {
    assert_eq!(login_url(), "http://eds.iptv.gd.cn:8082/EDS/jsp/AuthenticationURL");
    assert_eq!(authorize_url("http://b:1"), "http://b:1/EPG/oauth/v2/authorize");
    assert_eq!(token_url("http://b:1"), "http://b:1/EPG/oauth/v2/token");
    assert_eq!(catalog_url("http://b:1"), "http://b:1/EPG/jsp/getchannellistHWCTC.jsp");
    assert_eq!(
        guide_url("http://b:1"),
        "http://b:1/EPG/jsp/iptvsnmv3/en/play/ajax/_ajax_getPlaybillList.jsp"
    );
}

#[test]
fn query_parameters() {
    assert_eq!(login_params("u1"), pairs(&[("Action", "Login"), ("return_type", "1"), ("UserID", "u1")]));
    assert_eq!(
        authorize_params("u1"),
        pairs(&[("response_type", "EncryToken"), ("client_id", "smcphone"), ("userid", "u1")])
    );
    assert_eq!(
        token_params("u1", "ABCD"),
        pairs(&[
            ("client_id", "smcphone"),
            ("DeviceType", "deviceType"),
            ("UserID", "u1"),
            ("DeviceVersion", "deviceVersion"),
            ("userdomain", "2"),
            ("datadomain", "3"),
            ("accountType", "1"),
            ("authinfo", "ABCD"),
            ("grant_type", "EncryToken"),
        ])
    );
    assert_eq!(
        guide_params(42, 100, 200),
        pairs(&[("channelId", "42"), ("begin", "100"), ("end", "200")])
    );
}

#[test]
fn fetch_steps_in_order() {
    let mut s = FetchStep::Login;
    for expected in [FetchStep::Authorize, FetchStep::Token, FetchStep::Catalog, FetchStep::Guide, FetchStep::Done] {
        s = fetch_step(s, Outcome::Success, true);
        assert_eq!(s, expected);
    }
    assert_eq!(fetch_step(FetchStep::Catalog, Outcome::Success, false), FetchStep::Done);
}

#[test]
fn fetch_errors_by_step() {
    assert_eq!(fetch_step(FetchStep::Login, Outcome::Unreachable, true), FetchStep::Failed(FetchError::Network));
    assert_eq!(fetch_step(FetchStep::Authorize, Outcome::Malformed, true), FetchStep::Failed(FetchError::Auth));
    assert_eq!(fetch_step(FetchStep::Token, Outcome::Rejected, true), FetchStep::Failed(FetchError::Auth));
    assert_eq!(fetch_step(FetchStep::Catalog, Outcome::Rejected, true), FetchStep::Failed(FetchError::Parse));
    assert_eq!(fetch_step(FetchStep::Guide, Outcome::Unreachable, true), FetchStep::Done);
    assert_eq!(
        fetch_step(FetchStep::Failed(FetchError::Auth), Outcome::Success, true),
        FetchStep::Failed(FetchError::Auth)
    );
}
