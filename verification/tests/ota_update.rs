//! Updates, step by step.

use serde::de::{Deserialize, Deserializer, Error, IgnoredAny, MapAccess, Visitor};
use wifi_display::ota::message::{OtaStatus, OtaTrigger};
use wifi_display::ota::state::OtaState;
use wifi_display::ota::update::{FlashWriter, OtaError, OtaManager, DEFAULT_CHUNK_SIZE};

/// The wire form of a trigger.
struct WireTrigger<'a> {
    url: &'a str,
    version: &'a str,
    size: u32,
    crc32: u32,
}

struct TriggerVisitor;

impl<'de> Visitor<'de> for TriggerVisitor {
    type Value = WireTrigger<'de>;

    fn expecting(&self, f: &mut core::fmt::Formatter<'_>) -> core::fmt::Result {
        f.write_str("a trigger")
    }

    fn visit_map<A: MapAccess<'de>>(self, mut map: A) -> Result<Self::Value, A::Error> {
        let mut url: Option<&'de str> = None;
        let mut version: Option<&'de str> = None;
        let mut size: Option<u32> = None;
        let mut crc32: Option<u32> = None;
        while let Some(key) = map.next_key::<&'de str>()? {
            match key {
                "url" => url = Some(map.next_value()?),
                "version" => version = Some(map.next_value()?),
                "size" => size = Some(map.next_value()?),
                "crc32" => crc32 = Some(map.next_value()?),
                _ => {
                    map.next_value::<IgnoredAny>()?;
                }
            }
        }
        Ok(WireTrigger {
            url: url.ok_or_else(|| A::Error::missing_field("url"))?,
            version: version.ok_or_else(|| A::Error::missing_field("version"))?,
            size: size.ok_or_else(|| A::Error::missing_field("size"))?,
            crc32: crc32.unwrap_or(0),
        })
    }
}

impl<'de> Deserialize<'de> for WireTrigger<'de> {
    fn deserialize<D: Deserializer<'de>>(deserializer: D) -> Result<Self, D::Error> {
        deserializer.deserialize_struct(
            "OtaTrigger",
            &["url", "version", "size", "crc32"],
            TriggerVisitor,
        )
    }
}

fn decode_trigger(json: &[u8]) -> Option<OtaTrigger<'_>> {
    let (wire, _): (WireTrigger<'_>, usize) = serde_json_core::from_slice(json).ok()?;
    Some(OtaTrigger {
        url: wire.url,
        version: wire.version,
        size: wire.size,
        crc32: wire.crc32,
    })
}

/// Mock flash writer that stores data in memory
struct MockFlash {
    data: Vec<u8>,
    begun: bool,
    finalized: bool,
    pending_verification: bool,
    validated: bool,
    fail_on_write: bool,
    fail_on_finalize: bool,
    last_size: u32,
    last_crc32: u32,
}

impl MockFlash {
    fn new() -> Self {
        Self {
            data: Vec::new(),
            begun: false,
            finalized: false,
            pending_verification: false,
            validated: false,
            fail_on_write: false,
            fail_on_finalize: false,
            last_size: 0,
            last_crc32: 0,
        }
    }

    fn with_pending_verification() -> Self {
        Self {
            pending_verification: true,
            ..Self::new()
        }
    }
}

impl FlashWriter for MockFlash {
    fn begin(&mut self, size: u32, crc32: u32) -> Result<(), OtaError> {
        self.data.clear();
        self.begun = true;
        self.finalized = false;
        self.last_size = size;
        self.last_crc32 = crc32;
        Ok(())
    }

    fn write_chunk(&mut self, data: &[u8]) -> Result<(), OtaError> {
        if self.fail_on_write {
            return Err(OtaError::FlashWriteError);
        }
        self.data.extend_from_slice(data);
        Ok(())
    }

    fn finalize(&mut self) -> Result<(), OtaError> {
        if self.fail_on_finalize {
            return Err(OtaError::FinalizeError);
        }
        self.finalized = true;
        Ok(())
    }

    fn is_pending_verification(&self) -> bool {
        self.pending_verification
    }

    fn mark_valid(&mut self) -> Result<(), OtaError> {
        self.validated = true;
        self.pending_verification = false;
        Ok(())
    }
}

fn make_trigger_json(url: &str, version: &str, size: u32) -> Vec<u8> {
    format!(
        r#"{{"url":"{}","version":"{}","size":{},"crc32":0}}"#,
        url, version, size
    )
    .into_bytes()
}

#[test]
fn test_successful_update() {
    let firmware = vec![0xAB; 1024];
    let trigger_json = make_trigger_json("https://fw.example.com/v1.bin", "1.0.0", 1024);

    let flash = MockFlash::new();
    let mut mgr = OtaManager::new(flash);

    // Step 1: begin
    let trigger = mgr.begin_update(&trigger_json, decode_trigger).unwrap();
    assert_eq!(trigger.version, "1.0.0");
    assert_eq!(trigger.url, "https://fw.example.com/v1.bin");

    // Step 2: write chunks (simulate 4KB chunked download)
    for chunk in firmware.chunks(512) {
        mgr.write_chunk(chunk).unwrap();
    }

    // Step 3: finalize
    let ack = mgr.finalize_update(trigger.version).unwrap();
    assert_eq!(ack.status, OtaStatus::Success);
    assert_eq!(ack.version, "1.0.0");

    assert_eq!(mgr.progress().state, OtaState::Complete);
    assert_eq!(mgr.progress().bytes_written, 1024);
    assert_eq!(mgr.progress().percent(), 100);

    assert!(mgr.flash().begun);
    assert!(mgr.flash().finalized);
    assert_eq!(mgr.flash().data, firmware);
    assert_eq!(mgr.flash().last_size, 1024);
}

#[test]
fn test_size_mismatch() {
    let trigger_json = make_trigger_json("https://example.com/fw.bin", "1.0.0", 1024);
    let flash = MockFlash::new();
    let mut mgr = OtaManager::new(flash);

    let trigger = mgr.begin_update(&trigger_json, decode_trigger).unwrap();

    // Only write 512 bytes instead of 1024
    mgr.write_chunk(&[0xAB; 512]).unwrap();

    let err = mgr.finalize_update(trigger.version).unwrap_err();
    assert_eq!(
        err,
        OtaError::SizeMismatch {
            got: 512,
            expected: 1024
        }
    );
    assert_eq!(mgr.progress().state, OtaState::Failed);
}

#[test]
fn test_invalid_trigger() {
    let flash = MockFlash::new();
    let mut mgr = OtaManager::new(flash);

    let err = mgr.begin_update(b"not json", decode_trigger).unwrap_err();
    assert_eq!(err, OtaError::InvalidTrigger);
}

#[test]
fn test_flash_write_failure() {
    let trigger_json = make_trigger_json("https://example.com/fw.bin", "1.0.0", 100);
    let mut flash = MockFlash::new();
    flash.fail_on_write = true;

    let mut mgr = OtaManager::new(flash);
    mgr.begin_update(&trigger_json, decode_trigger).unwrap();

    let err = mgr.write_chunk(&[0xAB; 100]).unwrap_err();
    assert_eq!(err, OtaError::FlashWriteError);
    assert_eq!(mgr.progress().state, OtaState::Failed);
}

#[test]
fn test_finalize_failure() {
    let trigger_json = make_trigger_json("https://example.com/fw.bin", "1.0.0", 100);
    let mut flash = MockFlash::new();
    flash.fail_on_finalize = true;

    let mut mgr = OtaManager::new(flash);
    let trigger = mgr.begin_update(&trigger_json, decode_trigger).unwrap();
    mgr.write_chunk(&[0xAB; 100]).unwrap();

    let err = mgr.finalize_update(trigger.version).unwrap_err();
    assert_eq!(err, OtaError::FinalizeError);
    assert_eq!(mgr.progress().state, OtaState::Failed);
}

#[test]
fn test_large_firmware_multiple_chunks() {
    let firmware = vec![0xCD; DEFAULT_CHUNK_SIZE * 3 + 500];
    let size = firmware.len() as u32;
    let trigger_json = make_trigger_json("https://example.com/fw.bin", "2.0.0", size);

    let flash = MockFlash::new();
    let mut mgr = OtaManager::new(flash);

    let trigger = mgr.begin_update(&trigger_json, decode_trigger).unwrap();

    for chunk in firmware.chunks(DEFAULT_CHUNK_SIZE) {
        mgr.write_chunk(chunk).unwrap();
    }

    let ack = mgr.finalize_update(trigger.version).unwrap();
    assert_eq!(ack.status, OtaStatus::Success);
    assert_eq!(mgr.flash().data, firmware);
    assert_eq!(mgr.progress().bytes_written, size);
}

#[test]
fn test_confirm_boot_when_pending() {
    let flash = MockFlash::with_pending_verification();
    let mut mgr = OtaManager::new(flash);

    let confirmed = mgr.confirm_boot_if_needed().unwrap();
    assert!(confirmed);
    assert!(mgr.flash().validated);
    assert!(!mgr.flash().pending_verification);
}

#[test]
fn test_confirm_boot_when_not_pending() {
    let flash = MockFlash::new();
    let mut mgr = OtaManager::new(flash);

    let confirmed = mgr.confirm_boot_if_needed().unwrap();
    assert!(!confirmed);
    assert!(!mgr.flash().validated);
}

#[test]
fn test_ack_json_from_successful_update() {
    let trigger_json = make_trigger_json("https://example.com/fw.bin", "3.1.0", 50);

    let flash = MockFlash::new();
    let mut mgr = OtaManager::new(flash);

    let trigger = mgr.begin_update(&trigger_json, decode_trigger).unwrap();
    mgr.write_chunk(&[0x01; 50]).unwrap();
    let ack = mgr.finalize_update(trigger.version).unwrap();

    let mut buf = [0u8; 128];
    let len = ack.write_json(&mut buf).unwrap();
    let json = core::str::from_utf8(&buf[..len]).unwrap();
    assert_eq!(json, r#"{"ota_status":"success","version":"3.1.0"}"#);
}

#[test]
fn test_progress_tracking() {
    let trigger_json = make_trigger_json("https://example.com/fw.bin", "1.0.0", 1000);
    let flash = MockFlash::new();
    let mut mgr = OtaManager::new(flash);

    assert_eq!(mgr.progress().state, OtaState::Idle);

    let trigger = mgr.begin_update(&trigger_json, decode_trigger).unwrap();
    assert_eq!(mgr.progress().state, OtaState::Downloading);
    assert_eq!(mgr.progress().percent(), 0);

    mgr.write_chunk(&[0xFF; 500]).unwrap();
    assert_eq!(mgr.progress().percent(), 50);

    mgr.write_chunk(&[0xFF; 500]).unwrap();
    assert_eq!(mgr.progress().percent(), 100);

    mgr.finalize_update(trigger.version).unwrap();
    assert_eq!(mgr.progress().state, OtaState::Complete);
}

#[test]
fn test_write_before_begin() {
    let flash = MockFlash::new();
    let mut mgr = OtaManager::new(flash);

    let err = mgr.write_chunk(&[0xFF; 100]).unwrap_err();
    assert_eq!(err, OtaError::NotStarted);
}

#[test]
fn test_finalize_before_begin() {
    let flash = MockFlash::new();
    let mut mgr = OtaManager::new(flash);

    let err = mgr.finalize_update("1.0.0").unwrap_err();
    assert_eq!(err, OtaError::NotStarted);
}

#[test]
fn test_begin_passes_size_and_crc() {
    let trigger_json = br#"{"url":"https://example.com/fw.bin","version":"1.0.0","size":5000,"crc32":12345}"#;
    let flash = MockFlash::new();
    let mut mgr = OtaManager::new(flash);

    mgr.begin_update(trigger_json, decode_trigger).unwrap();
    assert_eq!(mgr.flash().last_size, 5000);
    assert_eq!(mgr.flash().last_crc32, 12345);
}
