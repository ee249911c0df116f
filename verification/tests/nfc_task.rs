//! The task that watches the NFC tag.

use wifi_display::nvs::NfcData;
use wifi_display::tasks::task_nfc::{Slot, TagEvent, TagStage, TagTask};
use wifi_display::tasks::{format_registration_response, is_registration_response};
use wifi_display::NotificationType;

/// A task that waits for a record.
fn waiting() -> TagTask {
    let mut task = TagTask::new();
    assert_eq!(task.step(TagEvent::Initialized(true)), TagStage::Seeding);
    assert_eq!(task.step(TagEvent::Written), TagStage::Depowering);
    assert_eq!(task.step(TagEvent::Depowered(true)), TagStage::Reading);
    task
}

#[test]
fn credentials_are_answered_then_stored_then_announced() {
    let mut task = waiting();
    let record = NfcData::Wifi("home".to_string(), "secret".to_string());
    assert_eq!(
        task.step(TagEvent::Read(Some(&record))),
        TagStage::Serializing(Slot::WifiCredentials)
    );
    assert_eq!(task.step(TagEvent::Serialized(true)), TagStage::Answering);
    assert_eq!(task.step(TagEvent::Written), TagStage::Storing(Slot::WifiCredentials));
    assert_eq!(
        task.step(TagEvent::Stored(true)),
        TagStage::Announcing(NotificationType::WifiCredentials)
    );
    assert_eq!(task.change_counter, 1);
    assert_eq!(task.step(TagEvent::Announced), TagStage::Reasserting);
    assert_eq!(task.step(TagEvent::Written), TagStage::Depowering);
}

#[test]
fn text_and_address_are_stored_then_announced() {
    for (record, slot, notification) in [
        (NfcData::Text("hi".to_string()), Slot::DisplayText, NotificationType::DisplayText),
        (NfcData::Uri("a.b".to_string()), Slot::DisplayURL, NotificationType::DisplayURL),
    ] {
        let mut task = waiting();
        assert_eq!(task.step(TagEvent::Read(Some(&record))), TagStage::Serializing(slot));
        assert_eq!(task.step(TagEvent::Serialized(true)), TagStage::Storing(slot));
        assert_eq!(task.step(TagEvent::Stored(true)), TagStage::Announcing(notification));
        assert_eq!(task.step(TagEvent::Announced), TagStage::Reasserting);
    }
}

#[test]
fn command_for_live_updates() {
    let mut task = waiting();
    let record = NfcData::Text("LIVE_UPDATES".to_string());
    assert_eq!(
        task.step(TagEvent::Read(Some(&record))),
        TagStage::Announcing(NotificationType::LiveSecureUpdates)
    );
    assert_eq!(task.change_counter, 1);
}

#[test]
fn own_text_is_left_alone() {
    let response = format_registration_response("80F1B2ECB820");
    assert_eq!(response.as_str(), "REG:C:80F1B2ECB820;;");
    assert!(is_registration_response(&response));
    let mut task = waiting();
    let record = NfcData::Text(response.as_str().to_string());
    assert_eq!(task.step(TagEvent::Read(Some(&record))), TagStage::Depowering);
    assert_eq!(task.change_counter, 0);
}

#[test]
fn response_that_does_not_fit_is_cut() {
    let code = "c".repeat(57);
    assert_eq!(format_registration_response(&code).as_str(), format!("REG:C:{}", code));
    let code = "c".repeat(59);
    assert_eq!(format_registration_response(&code).as_str(), "REG:C:");
    assert!(!is_registration_response("REG:C:;"));
    assert!(is_registration_response("REG:C:;;"));
}

#[test]
fn failures_of_the_tag_task() {
    let mut task = TagTask::new();
    assert_eq!(task.step(TagEvent::Initialized(false)), TagStage::Ended);

    let mut task = waiting();
    assert_eq!(task.step(TagEvent::Read(None)), TagStage::Reasserting);

    let mut task = waiting();
    assert_eq!(task.step(TagEvent::Read(Some(&NfcData::Unknown))), TagStage::Reasserting);
    assert_eq!(task.step(TagEvent::Written), TagStage::Depowering);
    assert_eq!(task.step(TagEvent::Depowered(false)), TagStage::Depowering);

    let record = NfcData::Uri("a.b".to_string());
    let mut task = waiting();
    task.step(TagEvent::Read(Some(&record)));
    assert_eq!(task.step(TagEvent::Serialized(false)), TagStage::Depowering);

    let mut task = waiting();
    task.step(TagEvent::Read(Some(&record)));
    task.step(TagEvent::Serialized(true));
    assert_eq!(task.step(TagEvent::Stored(false)), TagStage::Depowering);
    assert_eq!(task.change_counter, 0);
}

#[test]
fn number_of_changes_wraps_around() {
    let mut task = waiting();
    task.change_counter = u32::MAX;
    let record = NfcData::Text("LIVE_UPDATES".to_string());
    task.step(TagEvent::Read(Some(&record)));
    assert_eq!(task.change_counter, 0);
}
