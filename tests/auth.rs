use des::cipher::block_padding::Pkcs7;
use des::cipher::{BlockDecryptMut, KeyInit};
use iptv_proxy::auth::{auth_payload, derive_auth_info, derive_key, make_auth_info, Credentials};

fn creds(passwd: &str) -> Credentials {
    Credentials {
        user: "user1".to_string(),
        passwd: passwd.to_string(),
        mac: "00:11:22:33:44:55".to_string(),
        imei: "imei9".to_string(),
        address: "10.1.2.3".to_string(),
        interface: None,
    }
}

fn decrypt(key: &[u8], hex_text: &str) -> Vec<u8> {
    let bytes = hex::decode(hex_text).unwrap();
    ecb::Decryptor::<des::TdesEde3>::new_from_slice(key)
        .unwrap()
        .decrypt_padded_vec_mut::<Pkcs7>(&bytes)
        .unwrap()
}

#[test]
fn key_is_md5_hex_prefix() {
    assert_eq!(derive_key("password"), b"5F4DCC3B5AA765D61D8327DE".to_vec());
    assert_eq!(derive_key("123456"), b"E10ADC3949BA59ABBE56E057".to_vec());
    assert_eq!(derive_key(""), b"D41D8CD98F00B204E9800998".to_vec());
}

#[test]
fn payload_layout() {
    assert_eq!(
        auth_payload(1234, "tok", "u", "imei", "1.2.3.4", "mac"),
        "1234$tok$u$imei$1.2.3.4$mac$$CTC"
    );
    assert_eq!(auth_payload(0, "", "", "", "", ""), "0$$$$$$$CTC");
    assert_eq!(auth_payload(9999999, "t", "u", "i", "p", "m"), "9999999$t$u$i$p$m$$CTC");
}

#[test]
fn auth_info_round_trips() {
    let c = creds("password");
    let info = derive_auth_info(&c, "TOKEN42", 77);
    assert!(info.chars().all(|ch| ch.is_ascii_digit() || ('A'..='F').contains(&ch)));
    let payload = "77$TOKEN42$user1$imei9$10.1.2.3$00:11:22:33:44:55$$CTC";
    assert_eq!(info.len(), (payload.len() / 8 + 1) * 8 * 2);
    let plain = decrypt(b"5F4DCC3B5AA765D61D8327DE", &info);
    assert_eq!(plain, payload.as_bytes());
}

#[test]
fn auth_info_is_deterministic_for_a_nonce() {
    let c = creds("123456");
    assert_eq!(derive_auth_info(&c, "T", 5), derive_auth_info(&c, "T", 5));
    assert_ne!(derive_auth_info(&c, "T", 5), derive_auth_info(&c, "T", 6));
}

#[test]
fn fresh_auth_info_carries_a_small_nonce() {
    let c = creds("password");
    let info = make_auth_info(&c, "TK");
    let plain = String::from_utf8(decrypt(b"5F4DCC3B5AA765D61D8327DE", &info)).unwrap();
    let (nonce, rest) = plain.split_once('$').unwrap();
    assert!(nonce.parse::<u32>().unwrap() < 10000000);
    assert_eq!(rest, "TK$user1$imei9$10.1.2.3$00:11:22:33:44:55$$CTC");
}

#[test]
fn key_from_known_digest() {
    let digest = hex::decode("5f4dcc3b5aa765d61d8327deb882cf99").unwrap();
    assert_eq!(iptv_proxy::auth::key_from_digest(&digest), b"5F4DCC3B5AA765D61D8327DE".to_vec());
    let digest = [0xABu8; 12];
    assert_eq!(iptv_proxy::auth::key_from_digest(&digest), b"ABABABABABABABABABABABAB".to_vec());
}
