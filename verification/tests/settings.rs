//! Settings that outlive a reboot.

use wifi_display::nvs::{
    clear_wifi_error_flag_if_set, load_display_mode, load_display_text, load_display_url,
    load_last_update_timestamp, load_max_cycles, load_min_update_interval, load_mqtt_topics,
    load_wifi_credentials, load_wifi_error_flag, save_last_update_timestamp, save_max_cycles,
    save_min_update_interval, save_mqtt_topics, save_wifi_error_flag, set_display_mode,
    DisplayMode, NfcData, RecordFault, MQTT_TOPICS_STORAGE_SIZE,
};
use wifi_display::short_text::short_text;

fn list(topics: &[&str]) -> heapless::Vec<heapless::String<64>, 4> {
    let mut list = heapless::Vec::new();
    for topic in topics {
        list.push(short_text(topic).unwrap()).unwrap();
    }
    list
}

#[test]
fn modes_are_read_back() {
    for mode in [DisplayMode::LiveUpdates, DisplayMode::CustomText, DisplayMode::QRCode] {
        let stored = set_display_mode(mode);
        assert_eq!(load_display_mode(Some(&stored)), mode);
    }
    assert_eq!(set_display_mode(DisplayMode::QRCode), [2]);
}

#[test]
fn mode_defaults_to_live_updates() {
    assert_eq!(load_display_mode(None), DisplayMode::LiveUpdates);
    assert_eq!(load_display_mode(Some(&[0xFF])), DisplayMode::LiveUpdates);
    assert_eq!(load_display_mode(Some(&[3])), DisplayMode::LiveUpdates);
}

#[test]
fn credentials_come_from_a_wifi_record() {
    let record = Ok(NfcData::Wifi("home".to_string(), "secret".to_string()));
    let (ssid, password) = load_wifi_credentials(record).unwrap();
    assert_eq!(ssid, "home");
    assert_eq!(password.as_str(), "secret");
}

#[test]
fn credentials_errors() {
    let cases: [(Result<NfcData, RecordFault>, &str); 5] = [
        (Err(RecordFault::Unreadable), "Failed to read WiFi credentials from storage"),
        (Err(RecordFault::Malformed), "Failed to parse WiFi credentials"),
        (
            Ok(NfcData::Wifi("x".repeat(33), "p".to_string())),
            "Failed to convert SSID to String",
        ),
        (
            Ok(NfcData::Wifi("x".repeat(32), "p".repeat(65))),
            "Failed to convert password to String",
        ),
        (Ok(NfcData::Unknown), "Storage contains non-WiFi credential data"),
    ];
    for (record, fault) in cases {
        assert_eq!(load_wifi_credentials(record).unwrap_err(), fault);
    }
}

#[test]
fn display_text_and_errors() {
    assert_eq!(load_display_text(Ok(NfcData::Text("hello".to_string())), 5).unwrap(), "hello");
    assert_eq!(
        load_display_text(Ok(NfcData::Text("hello".to_string())), 4).unwrap_err(),
        "Failed to convert text to String or text too long"
    );
    assert_eq!(
        load_display_text(Ok(NfcData::Uri("u".to_string())), 4).unwrap_err(),
        "Storage contains non-text data"
    );
    assert_eq!(
        load_display_text(Err(RecordFault::Unreadable), 4).unwrap_err(),
        "Failed to read display text from storage"
    );
    assert_eq!(
        load_display_text(Err(RecordFault::Malformed), 4).unwrap_err(),
        "Failed to parse display text"
    );
}

#[test]
fn display_url_and_errors() {
    assert_eq!(load_display_url(Ok(NfcData::Uri("a.bc".to_string())), 4).unwrap(), "a.bc");
    assert_eq!(
        load_display_url(Ok(NfcData::Uri("a.bcd".to_string())), 4).unwrap_err(),
        "Failed to convert URL to String or URL too long"
    );
    assert_eq!(
        load_display_url(Ok(NfcData::Text("t".to_string())), 4).unwrap_err(),
        "Storage contains non-URL data"
    );
    assert_eq!(
        load_display_url(Err(RecordFault::Unreadable), 4).unwrap_err(),
        "Failed to read display URL from storage"
    );
    assert_eq!(
        load_display_url(Err(RecordFault::Malformed), 4).unwrap_err(),
        "Failed to parse display URL"
    );
}

#[test]
fn topics_are_stored_with_their_lengths() {
    let mut out = [0xEEu8; 16];
    let n = save_mqtt_topics(&list(&["ab", "c\u{e9}"]), &mut out).unwrap();
    assert_eq!(n, 8);
    assert_eq!(&out[..8], &[2, 2, b'a', b'b', 3, b'c', 0xC3, 0xA9]);
    assert_eq!(out[8], 0xEE);
}

#[test]
fn topics_are_read_back() {
    let long = "t".repeat(64);
    for topics in [
        &[][..],
        &["one"][..],
        &["one", "", "three"][..],
        &[long.as_str(), long.as_str(), long.as_str(), long.as_str()][..],
    ] {
        let mut out = [0xFFu8; MQTT_TOPICS_STORAGE_SIZE];
        save_mqtt_topics(&list(topics), &mut out).unwrap();
        assert_eq!(load_mqtt_topics(Some(&out)), list(topics));
    }
}

#[test]
fn topics_that_do_not_fit_are_refused() {
    let mut out = [0u8; 6];
    assert_eq!(
        save_mqtt_topics(&list(&["abcdef"]), &mut out),
        Err("Failed to serialize MQTT topics")
    );
    assert_eq!(save_mqtt_topics(&list(&["abcd"]), &mut out), Ok(6));
}

#[test]
fn no_topics_where_none_were_stored() {
    assert!(load_mqtt_topics(None).is_empty());
    assert!(load_mqtt_topics(Some(&[0xFF; MQTT_TOPICS_STORAGE_SIZE])).is_empty());
    // Five topics are more than a list holds.
    assert!(load_mqtt_topics(Some(&[5, 0, 0, 0, 0, 0])).is_empty());
    // The second topic is cut off.
    assert!(load_mqtt_topics(Some(&[2, 1, b'a', 4, b'b'])).is_empty());
}

#[test]
fn numbers_are_little_endian() {
    assert_eq!(save_min_update_interval(0x0102_0304), [4, 3, 2, 1]);
    assert_eq!(save_last_update_timestamp(0x0102_0304_0506_0708), [8, 7, 6, 5, 4, 3, 2, 1]);
    assert_eq!(save_max_cycles(30), [30, 0]);
}

#[test]
fn numbers_are_read_back() {
    assert_eq!(load_min_update_interval(Some(&save_min_update_interval(600))), Some(600));
    assert_eq!(
        load_last_update_timestamp(Some(&save_last_update_timestamp(1_700_000_000))),
        Some(1_700_000_000)
    );
    assert_eq!(load_max_cycles(Some(&save_max_cycles(30))), Some(30));
}

#[test]
fn numbers_that_were_never_stored() {
    assert_eq!(load_min_update_interval(None), None);
    assert_eq!(load_min_update_interval(Some(&[0xFF; 4])), None);
    assert_eq!(load_max_cycles(None), None);
    assert_eq!(load_max_cycles(Some(&[0xFF; 2])), None);
    assert_eq!(load_last_update_timestamp(None), None);
    assert_eq!(load_last_update_timestamp(Some(&[0xFF; 8])), None);
}

#[test]
fn error_flag_is_read_back_and_cleared_once() {
    let set = save_wifi_error_flag(true);
    let clear = save_wifi_error_flag(false);
    assert!(load_wifi_error_flag(Some(&set)));
    assert!(!load_wifi_error_flag(Some(&clear)));
    assert!(!load_wifi_error_flag(Some(&[0xFF])));
    assert!(!load_wifi_error_flag(None));
    assert_eq!(clear_wifi_error_flag_if_set(Some(&set)), Some(clear));
    assert_eq!(clear_wifi_error_flag_if_set(Some(&clear)), None);
    assert_eq!(clear_wifi_error_flag_if_set(None), None);
}
