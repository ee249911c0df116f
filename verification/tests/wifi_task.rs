//! The WiFi task and its sessions with the broker.

use wifi_display::nvs::DisplayMode;
use wifi_display::short_text::short_text;
use wifi_display::tasks::chunks::{FrameMetadata, ProcessChunkResult};
use wifi_display::tasks::task_wifi_runner::{
    after_ota, boot_step, make_topic, next_setup_step, pending_notification, response_json,
    screen_link, screen_text, stage_ota, BootStep, ChunkEffects, ConfigPayload, Connection, Link,
    LiveSession, MqttSessionError, OtaEnd, ResetReason, Route, RunnerAction, RunnerEvent, Screen,
    SessionAction, SessionEvent, SessionTopics, SetupStep, WifiRunner, OTA_PAYLOAD_SIZE,
};
use wifi_display::NotificationType;

fn session(interval: u32, last: Option<u64>) -> LiveSession {
    let mut saved = heapless::Vec::new();
    saved.push(short_text("news").unwrap()).unwrap();
    LiveSession::new(SessionTopics::new("DEV1").unwrap(), saved, Some(interval), last)
}

fn frame_at(timestamp: Option<u64>) -> Option<FrameMetadata> {
    Some(FrameMetadata {
        requires_response: true,
        chunk_index: 0,
        total_chunks: 1,
        timestamp,
        unsubscribe_all: false,
    })
}

#[test]
fn topics_of_a_device() {
    let topics = SessionTopics::new("DEV1").unwrap();
    assert_eq!(topics.raw.as_str(), "DEV1/root/raw");
    assert_eq!(topics.config.as_str(), "DEV1/root/config");
    assert_eq!(topics.response.as_str(), "DEV1/root/response");
    assert_eq!(topics.ping.as_str(), "DEV1/root/ping");
    assert_eq!(topics.ota.as_str(), "DEV1/root/ota");
    assert_eq!(make_topic("a", "/b").unwrap().as_str(), "a/b");
    assert!(make_topic(&"a".repeat(60), "/root").is_none());
    assert_eq!(
        SessionTopics::new(&"a".repeat(60)).unwrap_err(),
        MqttSessionError::TopicFormatError
    );
}

#[test]
fn messages_are_routed_by_topic() {
    let s = session(0, None);
    assert_eq!(s.route("DEV1/root/raw"), Route::Raw);
    assert_eq!(s.route("DEV1/root/config"), Route::Config);
    assert_eq!(s.route("DEV1/root/ping"), Route::Ping);
    assert_eq!(s.route("DEV1/root/ota"), Route::Ota);
    assert_eq!(s.route("public/ota"), Route::Ota);
    assert_eq!(s.route("news"), Route::Live);
    assert_eq!(s.route("other"), Route::Unknown);
}

#[test]
fn events_of_a_session() {
    let s = session(0, Some(9));
    assert_eq!(
        s.on_event(SessionEvent::Notified(NotificationType::DisplayText)),
        SessionAction::Leave(NotificationType::DisplayText)
    );
    assert_eq!(s.on_event(SessionEvent::PingDue), SessionAction::SendPing);
    assert_eq!(s.on_event(SessionEvent::Message("DEV1/root/raw")), SessionAction::TakeChunk);
    assert_eq!(s.on_event(SessionEvent::Message("DEV1/root/config")), SessionAction::TakeConfig);
    assert_eq!(s.on_event(SessionEvent::Message("DEV1/root/ping")), SessionAction::Respond);
    assert_eq!(s.on_event(SessionEvent::Message("public/ota")), SessionAction::BeginOta);
    assert_eq!(s.on_event(SessionEvent::Message("news")), SessionAction::TakeChunkIfDue);
    assert_eq!(s.on_event(SessionEvent::Message("other")), SessionAction::Ignore);
    assert_eq!(s.on_event(SessionEvent::Failed(true)), SessionAction::Ignore);
    assert_eq!(
        s.on_event(SessionEvent::Failed(false)),
        SessionAction::Fail(MqttSessionError::ReceiveError, Some(9))
    );
}

#[test]
fn configuration_is_taken_in() {
    let mut s = session(5, None);
    let effects = s.on_config(Ok(ConfigPayload {
        subscribe: Some("more"),
        unsubscribe: None,
        unsubscribe_all: false,
        min_update_interval: Some(60),
        max_cycles: Some(7),
        requires_response: true,
    }));
    assert_eq!(effects.save_interval, Some(60));
    assert_eq!(effects.max_cycles, Some(7));
    assert!(effects.respond);
    assert_eq!(s.min_update_interval_secs, 60);
    let effects = s.on_config(Err("Failed to parse"));
    assert_eq!((effects.save_interval, effects.max_cycles, effects.respond), (None, None, false));
    assert_eq!(s.min_update_interval_secs, 60);
}

#[test]
fn updates_are_limited() {
    let s = session(60, Some(1_000));
    // Four seconds early is in time.
    assert!(s.should_process(frame_at(Some(1_056))));
    assert!(!s.should_process(frame_at(Some(1_055))));
    assert!(!s.should_process(frame_at(Some(900))));
    assert!(s.should_process(frame_at(None)));
    assert!(s.should_process(None));
    assert!(session(0, Some(1_000)).should_process(frame_at(Some(1_000))));
    assert!(session(60, None).should_process(frame_at(Some(1))));
    assert!(session(3, Some(1_000)).should_process(frame_at(Some(900))));
}

#[test]
fn chunk_effects() {
    let mut s = session(60, Some(1));
    let result = ProcessChunkResult {
        send_response: true,
        success: true,
        unsubscribe_all: false,
        timestamp: Some(50),
        clears_error: true,
    };
    assert_eq!(
        s.on_chunk(Ok(result)),
        ChunkEffects { save_timestamp: Some(50), respond: Some(true), clear_error: true }
    );
    assert_eq!(s.last_update_unix_ts, Some(50));
    let failed = ProcessChunkResult { success: false, clears_error: false, ..result };
    assert_eq!(
        s.on_chunk(Ok(failed)),
        ChunkEffects { save_timestamp: None, respond: Some(false), clear_error: false }
    );
    assert_eq!(
        s.on_chunk(Err("bad")),
        ChunkEffects { save_timestamp: None, respond: None, clear_error: false }
    );
}

#[test]
fn responses_as_json() {
    let ok = response_json(true);
    let bad = response_json(false);
    assert_eq!(core::str::from_utf8(&ok).unwrap(), "{\"response\":\"success\"}");
    assert_eq!(core::str::from_utf8(&bad).unwrap(), "{\"response\":\"error\"}");
}

#[test]
fn announcement_is_kept_for_later() {
    let (kept, len) = stage_ota(b"{\"url\":1}");
    assert_eq!(len, 9);
    assert_eq!(&kept[..10], b"{\"url\":1}\0");
    let (kept, len) = stage_ota(&[7; OTA_PAYLOAD_SIZE + 1]);
    assert_eq!(len, OTA_PAYLOAD_SIZE);
    assert!(kept.iter().all(|b| *b == 7));
}

#[test]
fn setup_failures() {
    for (step, fault) in [
        (SetupStep::Resolve, MqttSessionError::DnsLookupFailed),
        (SetupStep::Connect, MqttSessionError::TcpConnectFailed),
        (SetupStep::OpenTls, MqttSessionError::TlsFailed),
        (SetupStep::Handshake, MqttSessionError::TlsFailed),
        (SetupStep::Login, MqttSessionError::MqttConnectFailed),
        (SetupStep::SubscribeRaw, MqttSessionError::SubscriptionFailed),
    ] {
        assert_eq!(next_setup_step(step, false), Err(fault));
        assert!(next_setup_step(step, true).is_ok());
    }
    assert_eq!(boot_step(true, 0), Some(BootStep::ShowComplete));
    assert_eq!(boot_step(true, 1), Some(BootStep::Confirm));
    assert_eq!(boot_step(false, 0), None);
}

#[test]
fn setup_leads_to_service() {
    let mut step = SetupStep::Uplink;
    let mut count = 0;
    while step != SetupStep::Serve {
        step = next_setup_step(step, true).unwrap();
        count += 1;
    }
    assert_eq!(count, 15);
}

#[test]
fn loss_is_shown_once() {
    let mut c = Connection::new(false, ResetReason::Other);
    assert_eq!(c.on_connect_failed(), Some((Screen::WifiDisconnected, true)));
    assert_eq!(c.on_connect_failed(), None);
    assert_eq!(c.on_connected(), Some((Screen::WifiConnected, false)));
    assert_eq!(c.on_connected(), None);
}

#[test]
fn loss_after_a_power_failure_is_shown_the_second_time() {
    for reason in [ResetReason::SysBrownOut, ResetReason::ChipPowerOn] {
        let mut c = Connection::new(false, reason);
        assert_eq!(c.on_connect_failed(), None);
        assert_eq!(c.on_connect_failed(), Some((Screen::WifiDisconnected, true)));
        assert_eq!(c.on_connect_failed(), None);

        let mut c = Connection::new(false, reason);
        assert_eq!(c.on_connect_failed(), None);
        assert_eq!(c.on_connected(), None);
        assert_eq!(c.on_connect_failed(), Some((Screen::WifiDisconnected, true)));
    }
    let mut c = Connection::new(true, ResetReason::Other);
    assert_eq!(c.on_connect_failed(), None);
    assert_eq!(c.on_connected(), Some((Screen::WifiConnected, false)));
}

#[test]
fn runner_shows_a_loss_after_a_power_failure() {
    let mut runner = WifiRunner::new(false, DisplayMode::LiveUpdates, ResetReason::ChipPowerOn);
    let step = runner.step(RunnerEvent::Connected(false));
    assert_eq!(step.show, None);
    assert_eq!(step.action, RunnerAction::WaitToRetry);
    let step = runner.step(RunnerEvent::Connected(false));
    assert_eq!(step.show, Some((Screen::WifiDisconnected, true)));
    assert_eq!(screen_link(Screen::WifiDisconnected), Link::Support);
}

#[test]
fn screens() {
    assert!(screen_text(Screen::WifiDisconnected).starts_with("WiFi Disconnected\n\n1. Check"));
    assert!(screen_text(Screen::OtaComplete).starts_with("All set!"));
    assert_eq!(screen_link(Screen::WifiDisconnected), Link::Support);
    assert_eq!(screen_link(Screen::WifiConnected), Link::GetStarted);
}

#[test]
fn tag_written_again_repeats_the_notification() {
    let text = NotificationType::DisplayText;
    let url = NotificationType::DisplayURL;
    assert_eq!(pending_notification(Some(text), false, Some(url)), Some(text));
    assert_eq!(pending_notification(None, true, Some(url)), Some(url));
    assert_eq!(pending_notification(None, false, Some(url)), None);
}

#[test]
fn device_goes_online_only_in_live_mode() {
    let mut runner = WifiRunner::new(false, DisplayMode::LiveUpdates, ResetReason::Other);
    let step = runner.step(RunnerEvent::Notified(Some(NotificationType::DisplayText)));
    assert_eq!(step.action, RunnerAction::LoadText);
    assert_eq!(step.store_mode, Some(DisplayMode::CustomText));
    runner.step(RunnerEvent::ContentLoaded(true));
    let step = runner.step(RunnerEvent::Notified(None));
    assert_eq!(step.action, RunnerAction::AwaitChange);
    let step = runner.step(RunnerEvent::Notified(Some(NotificationType::LiveSecureUpdates)));
    assert_eq!(step.action, RunnerAction::LoadCredentials);
    assert_eq!(step.store_mode, Some(DisplayMode::LiveUpdates));
}

#[test]
fn default_credentials() {
    let mut runner = WifiRunner::new(false, DisplayMode::LiveUpdates, ResetReason::Other);
    runner.step(RunnerEvent::Credentials(Err("none")));
    assert_eq!(runner.ssid.as_deref(), Some("HONESTWIFI-2325-2G"));
    assert_eq!(runner.password.as_ref().unwrap().as_str(), "9526070855!");
    let ssid = heapless::String::try_from("home").unwrap();
    let given = (ssid, short_text("secret").unwrap());
    runner.step(RunnerEvent::Credentials(Ok(given)));
    assert_eq!(runner.ssid.as_deref(), Some("home"));
    assert_eq!(runner.password.as_ref().unwrap().as_str(), "secret");
}

#[test]
fn session_ends() {
    let mut runner = WifiRunner::new(false, DisplayMode::LiveUpdates, ResetReason::Other);
    let step = runner.step(RunnerEvent::SessionEnded(Err(MqttSessionError::OtaRequested)));
    assert_eq!(step.action, RunnerAction::RunOta);
    assert_eq!(after_ota(true, true), OtaEnd::Reboot);
    assert_eq!(after_ota(true, false), OtaEnd::ShowFailureAndReboot);
    assert_eq!(after_ota(false, false), OtaEnd::Rest);
    let step = runner.step(RunnerEvent::SessionEnded(Ok(NotificationType::DisplayURL)));
    assert_eq!(step.store_mode, Some(DisplayMode::QRCode));
    assert_eq!(runner.display_mode, DisplayMode::QRCode);
}
