//! Messages about updates.

use serde::de::{Deserialize, Deserializer, Error, IgnoredAny, MapAccess, Visitor};
use wifi_display::ota::message::{parse_trigger, OtaAck, OtaStatus, OtaTrigger};

/// The wire form of a trigger.
struct WireTrigger<'a> {
    url: &'a str,
    version: &'a str,
    size: u32,
    crc32: u32,
}

struct TriggerVisitor;

impl<'de> Visitor<'de> for TriggerVisitor {
    type Value = WireTrigger<'de>;

    fn expecting(&self, f: &mut core::fmt::Formatter<'_>) -> core::fmt::Result {
        f.write_str("a trigger")
    }

    fn visit_map<A: MapAccess<'de>>(self, mut map: A) -> Result<Self::Value, A::Error> {
        let mut url: Option<&'de str> = None;
        let mut version: Option<&'de str> = None;
        let mut size: Option<u32> = None;
        let mut crc32: Option<u32> = None;
        while let Some(key) = map.next_key::<&'de str>()? {
            match key {
                "url" => url = Some(map.next_value()?),
                "version" => version = Some(map.next_value()?),
                "size" => size = Some(map.next_value()?),
                "crc32" => crc32 = Some(map.next_value()?),
                _ => {
                    map.next_value::<IgnoredAny>()?;
                }
            }
        }
        Ok(WireTrigger {
            url: url.ok_or_else(|| A::Error::missing_field("url"))?,
            version: version.ok_or_else(|| A::Error::missing_field("version"))?,
            size: size.ok_or_else(|| A::Error::missing_field("size"))?,
            crc32: crc32.unwrap_or(0),
        })
    }
}

impl<'de> Deserialize<'de> for WireTrigger<'de> {
    fn deserialize<D: Deserializer<'de>>(deserializer: D) -> Result<Self, D::Error> {
        deserializer.deserialize_struct(
            "OtaTrigger",
            &["url", "version", "size", "crc32"],
            TriggerVisitor,
        )
    }
}

fn decode_trigger(json: &[u8]) -> Option<OtaTrigger<'_>> {
    let (wire, _): (WireTrigger<'_>, usize) = serde_json_core::from_slice(json).ok()?;
    Some(OtaTrigger {
        url: wire.url,
        version: wire.version,
        size: wire.size,
        crc32: wire.crc32,
    })
}

#[test]
fn test_parse_trigger_valid() {
    let json = br#"{"url":"https://fw.example.com/v1.2.0/firmware.bin","version":"1.2.0","size":1258000}"#;
    let trigger = parse_trigger(json, decode_trigger).unwrap();
    assert_eq!(trigger.url, "https://fw.example.com/v1.2.0/firmware.bin");
    assert_eq!(trigger.version, "1.2.0");
    assert_eq!(trigger.size, 1258000);
}

#[test]
fn test_parse_trigger_null_terminated() {
    let json = *b"{\"url\":\"https://example.com/fw.bin\",\"version\":\"0.1\",\"size\":100}\0\0\0";
    let trigger = parse_trigger(&json, decode_trigger).unwrap();
    assert_eq!(trigger.url, "https://example.com/fw.bin");
    assert_eq!(trigger.size, 100);
}

#[test]
fn test_parse_trigger_empty_url() {
    let json = br#"{"url":"","version":"1.0","size":100}"#;
    let result = parse_trigger(json, decode_trigger);
    assert_eq!(result.unwrap_err(), "OTA trigger URL is empty");
}

#[test]
fn test_parse_trigger_zero_size() {
    let json = br#"{"url":"https://example.com/fw.bin","version":"1.0","size":0}"#;
    let result = parse_trigger(json, decode_trigger);
    assert_eq!(result.unwrap_err(), "OTA trigger size is zero");
}

#[test]
fn test_parse_trigger_invalid_json() {
    let json = b"{not json}";
    assert!(parse_trigger(json, decode_trigger).is_err());
}

#[test]
fn test_parse_trigger_missing_field() {
    let json = br#"{"url":"https://example.com/fw.bin","version":"1.0"}"#;
    assert!(parse_trigger(json, decode_trigger).is_err());
}

#[test]
fn test_ota_ack_success_json() {
    let ack = OtaAck {
        status: OtaStatus::Success,
        version: "1.2.0",
    };
    let mut buf = [0u8; 128];
    let len = ack.write_json(&mut buf).unwrap();
    let json = core::str::from_utf8(&buf[..len]).unwrap();
    assert_eq!(json, r#"{"ota_status":"success","version":"1.2.0"}"#);
}

#[test]
fn test_ota_ack_error_json() {
    let ack = OtaAck {
        status: OtaStatus::Error,
        version: "2.0.0",
    };
    let mut buf = [0u8; 128];
    let len = ack.write_json(&mut buf).unwrap();
    let json = core::str::from_utf8(&buf[..len]).unwrap();
    assert_eq!(json, r#"{"ota_status":"error","version":"2.0.0"}"#);
}

#[test]
fn test_ota_ack_buffer_too_small() {
    let ack = OtaAck {
        status: OtaStatus::Success,
        version: "1.0.0",
    };
    let mut buf = [0u8; 5]; // way too small
    assert!(ack.write_json(&mut buf).is_none());
}
