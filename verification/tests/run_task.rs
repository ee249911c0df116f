//! The main task of a device that keeps no settings.

use wifi_display::nvs::DisplayMode;
use wifi_display::tasks::task_run::{
    is_reserved_topic, next_setup_step, Action, Config, Event, Route, Session, SessionAction,
    SessionEvent, SetupStep, TaskState,
};
use wifi_display::NotificationType;

#[test]
fn session_of_the_run_task() {
    let mut s = Session::new("client1", heapless::Vec::new()).unwrap_or_else(|e| panic!("{}", e));
    assert_eq!(s.route("client1/root/raw"), Route::Raw);
    assert_eq!(s.route("client1/root/config"), Route::Config);
    assert_eq!(s.route("news"), Route::Unknown);
    assert_eq!(s.response.as_str(), "client1/root/response");
    let config = Config {
        subscribe: None,
        unsubscribe: None,
        unsubscribe_all: false,
        min_update_interval: Some(30),
        max_cycles: Some(4),
        requires_response: true,
    };
    assert_eq!(s.on_config(Ok(config)), (Some(4), true));
    assert_eq!(s.on_config(Err("bad")), (None, false));
    assert!(s.should_process(5_600_000));
    assert!(s.on_live_chunk(Ok(true), 5_600_000));
    assert!(!s.should_process(35_599_999));
    assert!(s.should_process(35_600_000));
    assert!(!s.on_live_chunk(Ok(false), 40_000_000));
    assert!(!s.on_live_chunk(Err("bad"), 40_000_000));
    assert_eq!(s.last_update, Some(5_600_000));
    assert_eq!(
        s.on_event(SessionEvent::Message("client1/root/raw")),
        SessionAction::Take(Route::Raw)
    );
    assert_eq!(s.on_event(SessionEvent::PingDue), SessionAction::SendPing);
    assert_eq!(s.on_event(SessionEvent::Failed(true)), SessionAction::Ignore);
    assert_eq!(s.on_event(SessionEvent::Failed(false)), SessionAction::Fail);
    assert_eq!(
        s.on_event(SessionEvent::Notified(NotificationType::DisplayURL)),
        SessionAction::Leave(NotificationType::DisplayURL)
    );
}

#[test]
fn names_that_are_too_long() {
    let fault = |n: usize| Session::new(&"a".repeat(n), heapless::Vec::new()).err();
    assert_eq!(fault(50), None);
    assert_eq!(fault(51), Some("Failed to format response topic"));
    assert_eq!(fault(53), Some("Failed to format config topic"));
    assert_eq!(fault(56), Some("Failed to format raw topic"));
}

#[test]
fn reserved_topics() {
    assert!(is_reserved_topic("a", "a", "b"));
    assert!(is_reserved_topic("b", "a", "b"));
    assert!(!is_reserved_topic("c", "a", "b"));
}

#[test]
fn faults_of_the_setup() {
    for (step, fault) in [
        (SetupStep::BrokerName, "Unable to convert broker name to a string"),
        (SetupStep::Resolve, "MQTT DNS lookup failed"),
        (SetupStep::FirstAddress, "No MQTT broker IP found"),
        (SetupStep::Connect, "Failed to connect to MQTT broker"),
        (SetupStep::OpenTls, "Failed to create TLS session"),
        (SetupStep::Handshake, "TLS handshake failed"),
        (SetupStep::Login, "Failed to connect to MQTT broker"),
        (SetupStep::SubscribeRaw, "Failed to subscribe to MQTT topic"),
        (SetupStep::SubscribeConfig, "Failed to subscribe to config topic"),
    ] {
        assert_eq!(next_setup_step(step, false), Err(fault));
    }
    assert_eq!(next_setup_step(SetupStep::Restore, false), Ok(SetupStep::Serve));
}

#[test]
fn text_is_shown_and_wifi_stays_off() {
    let mut task = TaskState::new();
    let pending = Event::Pending(Some(NotificationType::DisplayText));
    assert_eq!(task.step(pending), (Action::LoadText, true));
    assert_eq!(task.step(Event::ContentLoaded(true)), (Action::StopAndPause, false));
    assert_eq!(task.step(Event::Continue), (Action::PollNotification, false));
    assert_eq!(task.step(Event::Pending(None)), (Action::Pause, false));
    // New credentials wait until the device is in live mode.
    let pending = Event::Pending(Some(NotificationType::WifiCredentials));
    assert_eq!(task.step(pending), (Action::Pause, false));
    let pending = Event::Pending(Some(NotificationType::LiveSecureUpdates));
    assert_eq!(task.step(pending), (Action::LoadCredentials, true));
}

#[test]
fn content_that_cannot_be_loaded() {
    let mut task = TaskState::new();
    task.step(Event::Pending(Some(NotificationType::DisplayURL)));
    assert_eq!(task.display_mode, DisplayMode::QRCode);
    task.step(Event::ContentLoaded(false));
    assert_eq!(task.display_mode, DisplayMode::LiveUpdates);
}

#[test]
fn connection_of_the_run_task() {
    let mut task = TaskState::new();
    assert_eq!(task.step(Event::Pending(None)), (Action::LoadCredentials, false));
    assert_eq!(task.step(Event::Credentials(true)), (Action::StartWifi(true), false));
    assert_eq!(task.step(Event::Connected(false)), (Action::ShowFailureAndPause, false));
    assert_eq!(task.step(Event::Connected(false)), (Action::Pause, false));
    assert_eq!(task.step(Event::Connected(true)), (Action::RunSession, false));
    let end = Event::SessionEnded(Some(NotificationType::DisplayText));
    assert_eq!(task.step(end), (Action::LoadText, false));
    assert_eq!(task.display_mode, DisplayMode::CustomText);
    assert_eq!(task.step(Event::ContentLoaded(true)), (Action::StopAndPause, false));
    assert_eq!(task.step(Event::Connected(true)), (Action::StopUntilRefresh, false));
    let mut task = TaskState { has_credentials: true, ..TaskState::new() };
    assert_eq!(task.step(Event::Pending(None)), (Action::StartWifi(false), false));
    let pending = Event::Pending(Some(NotificationType::WifiCredentials));
    assert_eq!(task.step(pending), (Action::LoadCredentials, true));
    assert_eq!(task.step(Event::SessionEnded(None)), (Action::StopAndPause, false));
    let end = Event::SessionEnded(Some(NotificationType::LiveSecureUpdates));
    assert_eq!(task.step(end), (Action::StopAndPause, false));
    let end = Event::SessionEnded(Some(NotificationType::WifiCredentials));
    assert_eq!(task.step(end), (Action::StopAndPause, false));
    assert_eq!(task.step(Event::Continue), (Action::PollNotification, false));
    assert_eq!(task.step(Event::Pending(None)), (Action::LoadCredentials, false));
    assert_eq!(task.step(Event::Credentials(false)), (Action::StartWifi(false), false));
    assert_eq!(task.step(Event::Connected(true)), (Action::RunSession, false));
    let end = Event::SessionEnded(Some(NotificationType::DisplayURL));
    assert_eq!(task.step(end), (Action::LoadUrl, false));
    assert_eq!(task.display_mode, DisplayMode::QRCode);
}
