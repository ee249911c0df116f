//! The main task of a device with a fixed name that stores its topics only: which
//! mode it is in, when it goes online, and what it does with the messages that
//! it receives.

use super::chunks::{accept_chunk, ChunkMeta};
use super::subscriptions::Subscriptions;
use super::task_display_handler::{queue_frame_ready, DisplayMessage, Frame, Queued};
use super::task_wifi_runner::make_topic;
use crate::decoding::ChunkMetadata;
use crate::nvs::DisplayMode;
use crate::short_text::as_str;
use crate::text::same_text;
use crate::NotificationType;
use vstd::prelude::*;
use vstd::string::*;

verus! {

/// Name of the device.
pub const MQTT_CLIENT_ID: &'static str = "client1";

/// Port of the broker.
pub const MQTT_PORT: u16 = 8883;

/// Seconds after which the broker gives up on the device.
pub const MQTT_TIMEOUT_SECS: u16 = 120;

/// Seconds between two pings, three quarters of the timeout.
pub const PING_INTERVAL_SECS: u64 = 90;

/// Bytes of a message at most.
pub const MQTT_BUFFER_SIZE: usize = 7_500;

/// Microseconds of a second.
pub const MICROS_PER_SEC: u64 = 1_000_000;

/// Seconds until the next refresh.
pub const REFRESH_INTERVAL_SECS: u64 = 60;

/// Seconds to wait before starting over.
pub const PAUSE_SECS: u64 = 5;

/// Shown when the network could not be connected to.
pub const CONNECTION_FAILED_MSG: &'static str =
    "WiFi Connection\nFailed\n-------------------\nPlease tap with\nNFC to update";

// =============================================================================
// Chunks
// =============================================================================

/// Takes in a chunk that was decoded into `decode_buf`, and returns whether to
/// send a response. When the chunk completes a frame, the display is told, and
/// only then.
/// `decoded` is what decoding returned: the number of bytes and the metadata,
/// or an error. The second result tells whether the flag for the screen that
/// reports a lost connection is to be cleared.
pub fn process_chunk<S: FnOnce(DisplayMessage) -> bool>(
    decoded: Result<(usize, ChunkMetadata), &'static str>,
    decode_buf: &[u8],
    meta: &mut ChunkMeta,
    buffer: Option<&mut Frame>,
    try_send: S,
) -> (r: Result<(bool, bool), &'static str>)
    requires
        (decoded matches Ok((_, metadata)) && buffer is Some && metadata.chunk_index != 0) ==> old(
            meta,
        ).received_count < usize::MAX,
        decoded matches Ok((len, _)) ==> len <= decode_buf@.len(),
        (decoded matches Ok((_, metadata)) && if buffer is Some {
            super::chunks::completes(*old(meta), metadata.chunk_index, metadata.total_chunks)
        } else {
            super::chunks::Assembly { meta: *old(meta), frame: Seq::empty() }.started(
                metadata.chunk_index,
                metadata.total_chunks,
            ).meta.complete()
        }) ==> call_requires(try_send, (DisplayMessage::RawBinary,)),
    ensures
        match decoded {
            Err(e) => r == Err::<(bool, bool), &'static str>(e) && *final(meta) == *old(meta) && (
            buffer matches Some(frame) ==> final(frame)@ == (*frame)@),
            Ok((len, metadata)) => {
                let after = match buffer {
                    None => super::chunks::Assembly {
                        meta: *old(meta),
                        frame: Seq::empty(),
                    }.started(metadata.chunk_index, metadata.total_chunks),
                    Some(frame) => super::chunks::Assembly {
                        meta: *old(meta),
                        frame: (*frame)@,
                    }.accept(
                        metadata.chunk_index,
                        metadata.total_chunks,
                        decode_buf@.take(len as int),
                    ),
                };
                &&& buffer matches Some(frame) ==> final(frame)@ == after.frame
                &&& if after.meta.complete() {
                    &&& *final(meta) == ChunkMeta::empty()
                    &&& exists|queued: bool| #[trigger]
                        call_ensures(try_send, (DisplayMessage::RawBinary,), queued) && r == Ok::<
                            (bool, bool),
                            &'static str,
                        >((true, queued))
                } else {
                    &&& *final(meta) == after.meta
                    &&& r == Ok::<(bool, bool), &'static str>((metadata.requires_response, false))
                }
            },
        },
{
    let (len, metadata): (usize, ChunkMetadata) = match decoded {
        Ok(d) => d,
        Err(e) => {
            return Err(e);
        },
    };
    accept_chunk(
        meta,
        buffer,
        metadata.chunk_index,
        metadata.total_chunks,
        &decode_buf[0..len],
    );
    if meta.is_complete() {
        let sent: Queued = queue_frame_ready(try_send);
        meta.reset();
        return Ok(
            (
                true,
                match sent {
                    Queued::SentClearsError => true,
                    _ => false,
                },
            ),
        );
    }
    Ok((metadata.requires_response, false))
}

// =============================================================================
// A session
// =============================================================================

/// Whether a topic is one of those that cannot be subscribed to or
/// unsubscribed from on request.
pub fn is_reserved_topic(topic: &str, raw_topic: &str, config_topic: &str) -> (r: bool)
    ensures
        r == (topic@ == raw_topic@ || topic@ == config_topic@),
{
    same_text(topic, raw_topic) || same_text(topic, config_topic)
}

/// A configuration message.
#[derive(Debug, Clone, Copy)]
pub struct Config<'a> {
    /// Topic to subscribe to.
    pub subscribe: Option<&'a str>,
    /// Topic to unsubscribe from.
    pub unsubscribe: Option<&'a str>,
    /// Whether to unsubscribe from all topics.
    pub unsubscribe_all: bool,
    /// Least number of seconds between two updates.
    pub min_update_interval: Option<u16>,
    /// Updates between two full refreshes of the display.
    pub max_cycles: Option<u8>,
    /// Whether the sender wants a response.
    pub requires_response: bool,
}

/// What a message is, by its topic.
#[derive(Debug, Clone, Copy, PartialEq, Eq, Structural)]
pub enum Route {
    /// A chunk of a frame.
    Raw,
    /// Configuration.
    Config,
    /// A chunk of a frame on a topic subscribed to on request.
    Live,
    /// Something else.
    Unknown,
}

/// The state of a session.
pub struct Session {
    /// Topic for frames.
    pub raw: heapless::String<64>,
    /// Topic for configuration.
    pub config: heapless::String<64>,
    /// Topic for responses of the device.
    pub response: heapless::String<64>,
    /// The topics subscribed to on request.
    pub subscriptions: Subscriptions,
    /// Least number of seconds between two updates; 0 for no limit.
    pub min_update_interval_secs: u16,
    /// When the last update came, in microseconds.
    pub last_update: Option<u64>,
}

impl Session {
    /// A session of a device, with the stored topics, or what is wrong with
    /// the device's name.
    pub fn new(
        client_id: &str,
        saved_topics: heapless::Vec<heapless::String<64>, 4>,
    ) -> (r: Result<Self, &'static str>)
        ensures
            ({
                let raw = super::task_wifi_runner::device_topic(client_id@, "/root/raw"@);
                let config = super::task_wifi_runner::device_topic(client_id@, "/root/config"@);
                let response = super::task_wifi_runner::device_topic(client_id@, "/root/response"@);
                if !crate::short_text::fits(raw) {
                    r matches Err(e) && e@ == "Failed to format raw topic"@
                } else if !crate::short_text::fits(config) {
                    r matches Err(e) && e@ == "Failed to format config topic"@
                } else if !crate::short_text::fits(response) {
                    r matches Err(e) && e@ == "Failed to format response topic"@
                } else {
                    &&& r is Ok
                    &&& crate::short_text::text_of(r->Ok_0.raw) == raw
                    &&& crate::short_text::text_of(r->Ok_0.config) == config
                    &&& crate::short_text::text_of(r->Ok_0.response) == response
                    &&& r->Ok_0.subscriptions@ == (super::subscriptions::SubscriptionsView {
                        topics: crate::short_text::texts_of(saved_topics),
                        subscribe: None,
                        unsubscribe: None,
                        clear: false,
                        changed: false,
                        keeps_refused: true,
                    })
                    &&& r->Ok_0.min_update_interval_secs == 0
                    &&& r->Ok_0.last_update is None
                }
            }),
    {
        let raw = match make_topic(client_id, "/root/raw") {
            Some(topic) => topic,
            None => {
                return Err("Failed to format raw topic");
            },
        };
        let config = match make_topic(client_id, "/root/config") {
            Some(topic) => topic,
            None => {
                return Err("Failed to format config topic");
            },
        };
        let response = match make_topic(client_id, "/root/response") {
            Some(topic) => topic,
            None => {
                return Err("Failed to format response topic");
            },
        };
        Ok(
            Session {
                raw,
                config,
                response,
                subscriptions: Subscriptions::new(saved_topics, true),
                min_update_interval_secs: 0,
                last_update: None,
            },
        )
    }

    /// What a message is, by its topic.
    pub open spec fn route_of(&self, topic: Seq<char>) -> Route {
        if topic == crate::short_text::text_of(self.raw) {
            Route::Raw
        } else if topic == crate::short_text::text_of(self.config) {
            Route::Config
        } else if self.subscriptions@.topics.contains(topic) {
            Route::Live
        } else {
            Route::Unknown
        }
    }

    /// What a message is, by its topic.
    pub fn route(&self, topic: &str) -> (r: Route)
        ensures
            r == self.route_of(topic@),
    {
        if same_text(topic, as_str(&self.raw)) {
            Route::Raw
        } else if same_text(topic, as_str(&self.config)) {
            Route::Config
        } else if self.subscriptions.contains(topic) {
            Route::Live
        } else {
            Route::Unknown
        }
    }

    /// Takes in a configuration message; an error stands for one that could
    /// not be parsed. The number of updates between full refreshes, to tell
    /// the display, is returned, and whether to send a response.
    pub fn on_config(&mut self, config: Result<Config<'_>, &'static str>) -> (r: (Option<u8>, bool))
        ensures
            final(self).raw == old(self).raw,
            final(self).config == old(self).config,
            final(self).response == old(self).response,
            final(self).last_update == old(self).last_update,
            match config {
                Err(_) => {
                    &&& r == (None::<u8>, false)
                    &&& final(self).subscriptions@ == old(self).subscriptions@
                    &&& final(self).min_update_interval_secs == old(self).min_update_interval_secs
                },
                Ok(config) => {
                    &&& r == (config.max_cycles, config.requires_response)
                    &&& final(self).subscriptions@ == old(self).subscriptions@.queued(
                        super::subscriptions::RequestView {
                            subscribe: super::subscriptions::optional_text(config.subscribe),
                            unsubscribe: super::subscriptions::optional_text(config.unsubscribe),
                            unsubscribe_all: config.unsubscribe_all,
                        },
                        seq![
                            crate::short_text::text_of(old(self).raw),
                            crate::short_text::text_of(old(self).config),
                        ],
                    )
                    &&& final(self).min_update_interval_secs == (match config.min_update_interval {
                        Some(interval) => interval,
                        None => old(self).min_update_interval_secs,
                    })
                },
            },
    {
        let config: Config<'_> = match config {
            Ok(config) => config,
            Err(_) => {
                return (None, false);
            },
        };
        let reserved: [&str; 2] = [as_str(&self.raw), as_str(&self.config)];
        proof {
            assert(super::subscriptions::texts(reserved@) =~= seq![
                crate::short_text::text_of(self.raw),
                crate::short_text::text_of(self.config),
            ]);
        }
        self.subscriptions.queue(
            config.subscribe,
            config.unsubscribe,
            config.unsubscribe_all,
            &reserved,
        );
        if let Some(interval) = config.min_update_interval {
            self.min_update_interval_secs = interval;
        }
        (config.max_cycles, config.requires_response)
    }

    /// Whether a chunk on a topic subscribed to on request is taken in at this
    /// time, in microseconds: there is no limit, or it is the first one, or
    /// enough whole seconds have passed.
    pub fn should_process(&self, now: u64) -> (r: bool)
        requires
            self.last_update matches Some(last) ==> last <= now,
        ensures
            r == (self.min_update_interval_secs == 0 || (self.last_update matches Some(last)
                ==> (now - last) / MICROS_PER_SEC as int >= self.min_update_interval_secs)),
    {
        if self.min_update_interval_secs == 0 {
            return true;
        }
        match self.last_update {
            Some(last) => (now - last) / MICROS_PER_SEC >= self.min_update_interval_secs as u64,
            None => true,
        }
    }

    /// Takes in what came of a chunk on a topic subscribed to on request, and
    /// returns whether to send a response.
    pub fn on_live_chunk(&mut self, result: Result<bool, &'static str>, now: u64) -> (r: bool)
        ensures
            r == (result matches Ok(send_ack) && send_ack),
            *final(self) == (Session {
                last_update: if r {
                    Some(now)
                } else {
                    old(self).last_update
                },
                ..*old(self)
            }),
    {
        match result {
            Ok(send_ack) => {
                if send_ack {
                    self.last_update = Some(now);
                }
                send_ack
            },
            Err(_) => false,
        }
    }
}

/// What a session waits for.
#[derive(Debug, Clone, Copy)]
pub enum SessionEvent<'a> {
    /// A notification came.
    Notified(NotificationType),
    /// It is time for a ping.
    PingDue,
    /// A message came on a topic.
    Message(&'a str),
    /// Receiving failed; the flag tells whether that is harmless.
    Failed(bool),
}

/// What a session does about it.
#[derive(Debug, Clone, Copy, PartialEq, Eq, Structural)]
pub enum SessionAction {
    /// Disconnect, and end the session with the notification.
    Leave(NotificationType),
    /// Send a ping.
    SendPing,
    /// Take in a message.
    Take(Route),
    /// Nothing.
    Ignore,
    /// Disconnect, and end the session with the error `MQTT receive error`.
    Fail,
}

impl Session {
    /// What is done about an event. Before a session waits for the next one,
    /// the changes to its subscriptions are carried out.
    pub fn on_event(&self, event: SessionEvent<'_>) -> (r: SessionAction)
        ensures
            r == (match event {
                SessionEvent::Notified(n) => SessionAction::Leave(n),
                SessionEvent::PingDue => SessionAction::SendPing,
                SessionEvent::Message(topic) => SessionAction::Take(self.route_of(topic@)),
                SessionEvent::Failed(harmless) => if harmless {
                    SessionAction::Ignore
                } else {
                    SessionAction::Fail
                },
            }),
    {
        match event {
            SessionEvent::Notified(n) => SessionAction::Leave(n),
            SessionEvent::PingDue => SessionAction::SendPing,
            SessionEvent::Message(topic) => SessionAction::Take(self.route(topic)),
            SessionEvent::Failed(harmless) => if harmless {
                SessionAction::Ignore
            } else {
                SessionAction::Fail
            },
        }
    }
}

/// A step on the way to a session with the broker.
#[derive(Debug, Clone, Copy, PartialEq, Eq, Structural)]
pub enum SetupStep {
    /// Read the name of the broker.
    BrokerName,
    /// Look up the broker.
    Resolve,
    /// Take its first address.
    FirstAddress,
    /// Connect to it.
    Connect,
    /// Create the encrypted connection.
    OpenTls,
    /// Perform its handshake.
    Handshake,
    /// Log in to the broker; [`Session::new`] comes next.
    Login,
    /// Subscribe to frames.
    SubscribeRaw,
    /// Subscribe to configuration.
    SubscribeConfig,
    /// Subscribe to the stored topics.
    Restore,
    /// Receive messages.
    Serve,
}

/// What a failed step ends the session with; restoring topics may fail.
pub open spec fn setup_fault(step: SetupStep) -> Option<Seq<char>> {
    match step {
        SetupStep::BrokerName => Some("Unable to convert broker name to a string"@),
        SetupStep::Resolve => Some("MQTT DNS lookup failed"@),
        SetupStep::FirstAddress => Some("No MQTT broker IP found"@),
        SetupStep::Connect | SetupStep::Login => Some("Failed to connect to MQTT broker"@),
        SetupStep::OpenTls => Some("Failed to create TLS session"@),
        SetupStep::Handshake => Some("TLS handshake failed"@),
        SetupStep::SubscribeRaw => Some("Failed to subscribe to MQTT topic"@),
        SetupStep::SubscribeConfig => Some("Failed to subscribe to config topic"@),
        _ => None,
    }
}

/// The step after one that is done.
pub open spec fn step_after(step: SetupStep) -> SetupStep {
    match step {
        SetupStep::BrokerName => SetupStep::Resolve,
        SetupStep::Resolve => SetupStep::FirstAddress,
        SetupStep::FirstAddress => SetupStep::Connect,
        SetupStep::Connect => SetupStep::OpenTls,
        SetupStep::OpenTls => SetupStep::Handshake,
        SetupStep::Handshake => SetupStep::Login,
        SetupStep::Login => SetupStep::SubscribeRaw,
        SetupStep::SubscribeRaw => SetupStep::SubscribeConfig,
        SetupStep::SubscribeConfig => SetupStep::Restore,
        _ => SetupStep::Serve,
    }
}

/// The step after one that is done, or the error that a failed one ends the
/// session with.
pub fn next_setup_step(step: SetupStep, ok: bool) -> (r: Result<SetupStep, &'static str>)
    ensures
        if !ok && setup_fault(step) is Some {
            r matches Err(e) && e@ == setup_fault(step).unwrap()
        } else {
            r == Ok::<SetupStep, &'static str>(step_after(step))
        },
{
    match step {
        SetupStep::BrokerName => if ok {
            Ok(SetupStep::Resolve)
        } else {
            Err("Unable to convert broker name to a string")
        },
        SetupStep::Resolve => if ok {
            Ok(SetupStep::FirstAddress)
        } else {
            Err("MQTT DNS lookup failed")
        },
        SetupStep::FirstAddress => if ok {
            Ok(SetupStep::Connect)
        } else {
            Err("No MQTT broker IP found")
        },
        SetupStep::Connect => if ok {
            Ok(SetupStep::OpenTls)
        } else {
            Err("Failed to connect to MQTT broker")
        },
        SetupStep::OpenTls => if ok {
            Ok(SetupStep::Handshake)
        } else {
            Err("Failed to create TLS session")
        },
        SetupStep::Handshake => if ok {
            Ok(SetupStep::Login)
        } else {
            Err("TLS handshake failed")
        },
        SetupStep::Login => if ok {
            Ok(SetupStep::SubscribeRaw)
        } else {
            Err("Failed to connect to MQTT broker")
        },
        SetupStep::SubscribeRaw => if ok {
            Ok(SetupStep::SubscribeConfig)
        } else {
            Err("Failed to subscribe to MQTT topic")
        },
        SetupStep::SubscribeConfig => if ok {
            Ok(SetupStep::Restore)
        } else {
            Err("Failed to subscribe to config topic")
        },
        SetupStep::Restore | SetupStep::Serve => Ok(SetupStep::Serve),
    }
}

// =============================================================================
// The main loop
// =============================================================================

/// What the task is to do next.
#[derive(Debug, Clone, Copy, PartialEq, Eq, Structural)]
pub enum Action {
    /// See whether there is a notification.
    PollNotification,
    /// Load the stored text and hand it to the display.
    LoadText,
    /// Load the stored address and hand it to the display.
    LoadUrl,
    /// Turn WiFi off, then wait.
    StopAndPause,
    /// Turn WiFi off, then wait for the next refresh.
    StopUntilRefresh,
    /// Wait.
    Pause,
    /// Load the credentials.
    LoadCredentials,
    /// Turn WiFi on, unless it is on; with the flag, first turn it off if it
    /// is on.
    StartWifi(bool),
    /// Talk to the broker.
    RunSession,
    /// Show that the network could not be connected to, then wait.
    ShowFailureAndPause,
}

/// What came of the last action.
#[derive(Debug, Clone, Copy, PartialEq, Eq, Structural)]
pub enum Event {
    /// The notification that has not been seen yet.
    Pending(Option<NotificationType>),
    /// Whether the text or address could be loaded.
    ContentLoaded(bool),
    /// The time to wait is over.
    Continue,
    /// Whether there are stored credentials.
    Credentials(bool),
    /// Whether the network could be connected to.
    Connected(bool),
    /// The notification that ended the session, which has been used up by
    /// that, or none if the session failed.
    SessionEnded(Option<NotificationType>),
}

/// What the task remembers.
#[derive(Debug, Clone, Copy, PartialEq, Eq, Structural)]
pub struct TaskState {
    /// It has the name and password of a network, and no newer ones have ended
    /// a session since they were loaded.
    pub has_credentials: bool,
    /// It was online when it last tried.
    pub previously_connected: bool,
    /// What the device shows.
    pub display_mode: DisplayMode,
}

impl TaskState {
    /// The mode after a notification was seen.
    pub open spec fn mode_after(self, pending: Option<NotificationType>) -> DisplayMode {
        match pending {
            Some(NotificationType::DisplayText) => DisplayMode::CustomText,
            Some(NotificationType::DisplayURL) => DisplayMode::QRCode,
            Some(NotificationType::LiveSecureUpdates) => DisplayMode::LiveUpdates,
            _ => self.display_mode,
        }
    }

    /// What follows from a notification, or none, and whether it counts as
    /// seen. New credentials are seen only in live mode, and only by a device
    /// that has some.
    pub open spec fn reaction(self, pending: Option<NotificationType>) -> (Action, bool) {
        match pending {
            Some(NotificationType::DisplayText) => (Action::LoadText, true),
            Some(NotificationType::DisplayURL) => (Action::LoadUrl, true),
            _ => if self.mode_after(pending) != DisplayMode::LiveUpdates {
                (Action::Pause, false)
            } else if !self.has_credentials {
                (
                    Action::LoadCredentials,
                    pending == Some(NotificationType::LiveSecureUpdates),
                )
            } else if pending == Some(NotificationType::WifiCredentials) {
                (Action::LoadCredentials, true)
            } else {
                (
                    Action::StartWifi(false),
                    pending == Some(NotificationType::LiveSecureUpdates),
                )
            },
        }
    }

    /// The task after what came of the last action, what it does next, and
    /// whether the notification counts as seen.
    pub open spec fn after(self, event: Event) -> (TaskState, (Action, bool)) {
        match event {
            Event::Pending(pending) => (
                TaskState { display_mode: self.mode_after(pending), ..self },
                self.reaction(pending),
            ),
            Event::ContentLoaded(ok) => (
                TaskState {
                    display_mode: if ok {
                        self.display_mode
                    } else {
                        DisplayMode::LiveUpdates
                    },
                    ..self
                },
                (Action::StopAndPause, false),
            ),
            Event::Continue => (self, (Action::PollNotification, false)),
            Event::Credentials(stored) => (
                TaskState { has_credentials: true, ..self },
                (Action::StartWifi(stored), false),
            ),
            Event::Connected(ok) => (
                TaskState { previously_connected: ok, ..self },
                (
                    if ok {
                        if self.display_mode == DisplayMode::LiveUpdates {
                            Action::RunSession
                        } else {
                            Action::StopUntilRefresh
                        }
                    } else if self.previously_connected {
                        Action::ShowFailureAndPause
                    } else {
                        Action::Pause
                    },
                    false,
                ),
            ),
            Event::SessionEnded(n) => match n {
                Some(NotificationType::DisplayText) => (
                    TaskState { display_mode: DisplayMode::CustomText, ..self },
                    (Action::LoadText, false),
                ),
                Some(NotificationType::DisplayURL) => (
                    TaskState { display_mode: DisplayMode::QRCode, ..self },
                    (Action::LoadUrl, false),
                ),
                Some(NotificationType::WifiCredentials) => (
                    TaskState { has_credentials: false, ..self },
                    (Action::StopAndPause, false),
                ),
                _ => (self, (Action::StopAndPause, false)),
            },
        }
    }

    /// The task when the device starts.
    pub fn new() -> (r: Self)
        ensures
            r == (TaskState {
                has_credentials: false,
                previously_connected: true,
                display_mode: DisplayMode::LiveUpdates,
            }),
    {
        Self {
            has_credentials: false,
            previously_connected: true,
            display_mode: DisplayMode::LiveUpdates,
        }
    }

    /// Takes in what came of the last action, and returns what to do next, and
    /// whether the notification counts as seen. The first action is to poll
    /// for a notification.
    pub fn step(&mut self, event: Event) -> (r: (Action, bool))
        ensures
            *final(self) == old(self).after(event).0,
            r == old(self).after(event).1,
    {
        match event {
            Event::Pending(pending) => {
                match pending {
                    Some(NotificationType::DisplayText) => {
                        self.display_mode = DisplayMode::CustomText;
                        return (Action::LoadText, true);
                    },
                    Some(NotificationType::DisplayURL) => {
                        self.display_mode = DisplayMode::QRCode;
                        return (Action::LoadUrl, true);
                    },
                    Some(NotificationType::LiveSecureUpdates) => {
                        self.display_mode = DisplayMode::LiveUpdates;
                    },
                    _ => {},
                }
                let live: bool = match pending {
                    Some(NotificationType::LiveSecureUpdates) => true,
                    _ => false,
                };
                if self.display_mode != DisplayMode::LiveUpdates {
                    return (Action::Pause, false);
                }
                if !self.has_credentials {
                    return (Action::LoadCredentials, live);
                }
                match pending {
                    Some(NotificationType::WifiCredentials) => (Action::LoadCredentials, true),
                    _ => (Action::StartWifi(false), live),
                }
            },
            Event::ContentLoaded(ok) => {
                if !ok {
                    self.display_mode = DisplayMode::LiveUpdates;
                }
                (Action::StopAndPause, false)
            },
            Event::Continue => (Action::PollNotification, false),
            Event::Credentials(stored) => {
                self.has_credentials = true;
                (Action::StartWifi(stored), false)
            },
            Event::Connected(ok) => {
                let before: bool = self.previously_connected;
                self.previously_connected = ok;
                if ok {
                    if self.display_mode == DisplayMode::LiveUpdates {
                        (Action::RunSession, false)
                    } else {
                        (Action::StopUntilRefresh, false)
                    }
                } else if before {
                    (Action::ShowFailureAndPause, false)
                } else {
                    (Action::Pause, false)
                }
            },
            Event::SessionEnded(n) => match n {
                Some(NotificationType::DisplayText) => {
                    self.display_mode = DisplayMode::CustomText;
                    (Action::LoadText, false)
                },
                Some(NotificationType::DisplayURL) => {
                    self.display_mode = DisplayMode::QRCode;
                    (Action::LoadUrl, false)
                },
                Some(NotificationType::WifiCredentials) => {
                    self.has_credentials = false;
                    (Action::StopAndPause, false)
                },
                _ => (Action::StopAndPause, false),
            },
        }
    }
}

/// A failed connection is shown once: while it keeps failing, it is not shown
/// again.
pub proof fn law_failure_is_shown_once(task: TaskState)
    ensures
        ({
            let (later, _) = task.after(Event::Connected(false));
            later.after(Event::Connected(false)).1 == (Action::Pause, false)
        }),
{
}

/// The device goes online only in live mode.
pub proof fn law_online_only_in_live_mode(task: TaskState, pending: Option<NotificationType>)
    ensures
        ({
            let (later, (action, _)) = task.after(Event::Pending(pending));
            action is LoadCredentials || action is StartWifi ==> later.display_mode
                == DisplayMode::LiveUpdates
        }),
{
}

/// A text or an address that came by NFC is loaded for the display, whether
/// the notification was found waiting or ended a session.
pub proof fn law_content_is_displayed(task: TaskState)
    ensures
        task.after(Event::SessionEnded(Some(NotificationType::DisplayText))).1.0
            == Action::LoadText,
        task.after(Event::Pending(Some(NotificationType::DisplayText))).1 == (
            Action::LoadText,
            true,
        ),
        task.after(Event::SessionEnded(Some(NotificationType::DisplayURL))).1.0 == Action::LoadUrl,
        task.after(Event::Pending(Some(NotificationType::DisplayURL))).1 == (
            Action::LoadUrl,
            true,
        ),
        task.after(Event::SessionEnded(Some(NotificationType::DisplayText))).0.display_mode
            == DisplayMode::CustomText,
        task.after(Event::SessionEnded(Some(NotificationType::DisplayURL))).0.display_mode
            == DisplayMode::QRCode,
        forall|ok: bool|
            (#[trigger] task.after(Event::ContentLoaded(ok))).1.0 == Action::StopAndPause,
{
}

/// New credentials are not missed. When they end a session, WiFi is stopped, and
/// they are loaded before the device goes online again, whatever is shown in
/// the meantime. A waiting notification of them counts as seen only when they
/// are loaded.
pub proof fn law_credentials_are_not_missed(task: TaskState, event: Event)
    ensures
        ({
            let (left, (action, _)) = task.after(
                Event::SessionEnded(Some(NotificationType::WifiCredentials)),
            );
            action is StopAndPause && !left.has_credentials
        }),
        !task.has_credentials && !(event is Credentials) ==> {
            let (next, (action, _)) = task.after(event);
            &&& !next.has_credentials
            &&& !(action is StartWifi)
            &&& event is Pending && next.display_mode == DisplayMode::LiveUpdates
                ==> action is LoadCredentials
        },
        ({
            let pending = Some(NotificationType::WifiCredentials);
            let (_, (action, seen)) = task.after(Event::Pending(pending));
            seen ==> action is LoadCredentials
        }),
{
}

// =============================================================================
// What the task is for
// =============================================================================

/// After a notification, or none: a text or an address is loaded, and counts as
/// seen; otherwise the device goes online exactly in live mode. It loads the
/// credentials where it has none, or there are new ones, and starts WiFi where
/// it has the latest.
pub proof fn law_reaction_to_notification(
    task: &mut TaskState,
    n: Option<NotificationType>,
    r: (Action, bool),
)
    requires
        call_ensures(TaskState::step, (task, Event::Pending(n)), r),
    ensures
        r.0 == Action::LoadText <==> n == Some(NotificationType::DisplayText),
        r.0 == Action::LoadUrl <==> n == Some(NotificationType::DisplayURL),
        n == Some(NotificationType::DisplayText) ==> final(task).display_mode
            == DisplayMode::CustomText && r.1,
        n == Some(NotificationType::DisplayURL) ==> final(task).display_mode == DisplayMode::QRCode
            && r.1,
        n == Some(NotificationType::LiveSecureUpdates) ==> final(task).display_mode
            == DisplayMode::LiveUpdates && r.1,
        n is None || n == Some(NotificationType::WifiCredentials) ==> final(task).display_mode
            == old(task).display_mode,
        ({
            let live = final(task).display_mode == DisplayMode::LiveUpdates;
            &&& live <==> r.0 is LoadCredentials || r.0 is StartWifi
            &&& r.0 is StartWifi ==> old(task).has_credentials && n != Some(
                NotificationType::WifiCredentials,
            ) && r.0 == Action::StartWifi(false)
            &&& n == Some(NotificationType::WifiCredentials) && live ==> r.0
                == Action::LoadCredentials
            &&& !live && n is None ==> r.0 == Action::Pause && !r.1
        }),
        n is None ==> !r.1,
        n == Some(NotificationType::WifiCredentials) ==> (r.1 <==> r.0 == Action::LoadCredentials
            && old(task).has_credentials),
        final(task).has_credentials == old(task).has_credentials,
        final(task).previously_connected == old(task).previously_connected,
{
}

/// The rest of the way: what is waited for, loaded, connected to and ended leads
/// to the next step, and that the connection failed is shown once.
pub proof fn law_steps_of_task(task: &mut TaskState, event: Event, r: (Action, bool))
    requires
        call_ensures(TaskState::step, (task, event), r),
    ensures
        event is Continue <==> r.0 == Action::PollNotification,
        !(event is Pending) ==> !r.1,
        event matches Event::Credentials(stored) ==> r.0 == Action::StartWifi(stored)
            && final(task).has_credentials,
        r.0 == Action::RunSession <==> event == Event::Connected(true) && old(task).display_mode
            == DisplayMode::LiveUpdates,
        r.0 == Action::StopUntilRefresh <==> event == Event::Connected(true) && old(
            task,
        ).display_mode != DisplayMode::LiveUpdates,
        r.0 == Action::ShowFailureAndPause <==> event == Event::Connected(false) && old(
            task,
        ).previously_connected,
        event == Event::Connected(false) && !old(task).previously_connected ==> r.0
            == Action::Pause,
        event matches Event::Connected(ok) ==> final(task).previously_connected == ok,
        !(event is Connected) ==> final(task).previously_connected == old(
            task,
        ).previously_connected,
        event matches Event::ContentLoaded(ok) ==> {
            &&& r.0 == Action::StopAndPause
            &&& ok ==> final(task).display_mode == old(task).display_mode
            &&& !ok ==> final(task).display_mode == DisplayMode::LiveUpdates
        },
{
}

/// How a session ends: a text or an address is shown, new credentials are loaded
/// before the device goes online again, and in every case WiFi is stopped, at
/// once or when the content was loaded.
pub proof fn law_session_end(
    task: &mut TaskState,
    n: Option<NotificationType>,
    r: (Action, bool),
)
    requires
        call_ensures(TaskState::step, (task, Event::SessionEnded(n)), r),
    ensures
        r.0 == Action::LoadText <==> n == Some(NotificationType::DisplayText),
        r.0 == Action::LoadUrl <==> n == Some(NotificationType::DisplayURL),
        r.0 == Action::LoadText || r.0 == Action::LoadUrl || r.0 == Action::StopAndPause,
        n == Some(NotificationType::DisplayText) ==> final(task).display_mode
            == DisplayMode::CustomText,
        n == Some(NotificationType::DisplayURL) ==> final(task).display_mode == DisplayMode::QRCode,
        r.0 == Action::StopAndPause ==> final(task).display_mode == old(task).display_mode,
        n == Some(NotificationType::WifiCredentials) ==> !final(task).has_credentials,
        n != Some(NotificationType::WifiCredentials) ==> final(task).has_credentials == old(
            task,
        ).has_credentials,
{
}

/// The task begins in live mode, without credentials, and shows the first
/// failure.
pub proof fn law_start(task: TaskState)
    requires
        call_ensures(TaskState::new, (), task),
    ensures
        task.display_mode == DisplayMode::LiveUpdates,
        !task.has_credentials,
        task.previously_connected,
{
}

/// A message is what its topic says, and what else a session reacts to.
pub proof fn law_messages_by_topic(
    session: &Session,
    topic: &str,
    route: Route,
    message: SessionAction,
    n: NotificationType,
    notified: SessionAction,
    due: SessionAction,
    harmless: bool,
    failed: SessionAction,
)
    requires
        call_ensures(Session::route, (session, topic), route),
        call_ensures(Session::on_event, (session, SessionEvent::Message(topic)), message),
        call_ensures(Session::on_event, (session, SessionEvent::Notified(n)), notified),
        call_ensures(Session::on_event, (session, SessionEvent::PingDue), due),
        call_ensures(Session::on_event, (session, SessionEvent::Failed(harmless)), failed),
    ensures
        message == SessionAction::Take(route),
        topic@ == crate::short_text::text_of(session.raw) ==> route == Route::Raw,
        route == Route::Raw ==> topic@ == crate::short_text::text_of(session.raw),
        topic@ == crate::short_text::text_of(session.config) && route != Route::Raw ==> route
            == Route::Config,
        route == Route::Config ==> topic@ == crate::short_text::text_of(session.config),
        route == Route::Live ==> session.subscriptions@.topics.contains(topic@),
        route == Route::Unknown ==> !session.subscriptions@.topics.contains(topic@),
        notified == SessionAction::Leave(n),
        due == SessionAction::SendPing,
        failed == SessionAction::Ignore <==> harmless,
        failed == SessionAction::Fail <==> !harmless,
{
}

/// A session begins with the topics of the device and the stored ones, without a
/// limit, whenever the topics fit in 64 bytes.
pub proof fn law_session_start(
    client_id: &str,
    saved: heapless::Vec<heapless::String<64>, 4>,
    r: Result<Session, &'static str>,
)
    requires
        call_ensures(Session::new, (client_id, saved), r),
    ensures
        r is Ok <==> vstd::utf8::encode_utf8(client_id@).len() <= 50,
        r matches Ok(s) ==> {
            &&& crate::short_text::text_of(s.raw) == client_id@ + "/root/raw"@
            &&& crate::short_text::text_of(s.config) == client_id@ + "/root/config"@
            &&& crate::short_text::text_of(s.response) == client_id@ + "/root/response"@
            &&& s.subscriptions@.topics == crate::short_text::texts_of(saved)
            &&& s.subscriptions@.subscribe is None && s.subscriptions@.unsubscribe is None
            &&& !s.subscriptions@.clear && !s.subscriptions@.changed
            &&& s.subscriptions@.keeps_refused
            &&& s.min_update_interval_secs == 0
            &&& s.last_update is None
        },
{
    let name = client_id@;
    crate::text::lemma_encode_concat(name, "/root/raw"@);
    crate::text::lemma_encode_concat(name, "/root/config"@);
    crate::text::lemma_encode_concat(name, "/root/response"@);
    reveal_strlit("/root/raw");
    reveal_strlit("/root/config");
    reveal_strlit("/root/response");
    vstd::utf8::is_ascii_chars_encode_utf8("/root/raw"@);
    vstd::utf8::is_ascii_chars_encode_utf8("/root/config"@);
    vstd::utf8::is_ascii_chars_encode_utf8("/root/response"@);
}

/// A configuration message changes what it names, and nothing else; one that
/// cannot be parsed changes nothing and is not answered.
pub proof fn law_configuration(
    session: &mut Session,
    config: Result<Config<'_>, &'static str>,
    r: (Option<u8>, bool),
)
    requires
        call_ensures(Session::on_config, (session, config), r),
    ensures
        final(session).raw == old(session).raw && final(session).config == old(session).config,
        final(session).response == old(session).response,
        final(session).last_update == old(session).last_update,
        final(session).subscriptions@.topics == old(session).subscriptions@.topics,
        match config {
            Ok(c) => {
                &&& r.0 == c.max_cycles
                &&& r.1 <==> c.requires_response
                &&& c.min_update_interval matches Some(n) ==> n
                    == final(session).min_update_interval_secs
                &&& c.min_update_interval is None ==> final(session).min_update_interval_secs
                    == old(session).min_update_interval_secs
                &&& final(session).subscriptions@.clear <==> c.unsubscribe_all || old(
                    session,
                ).subscriptions@.clear
                &&& c.subscribe is None ==> final(session).subscriptions@.subscribe == old(
                    session,
                ).subscriptions@.subscribe
            },
            Err(_) => {
                &&& r.0 is None && !r.1
                &&& final(session).subscriptions@ == old(session).subscriptions@
                &&& final(session).min_update_interval_secs == old(
                    session,
                ).min_update_interval_secs
            },
        },
{
}

/// A topic that is asked for is queued exactly when it is none of the device's
/// own, takes at most 64 bytes, and, unless all others are dropped, is new and
/// there are fewer than four.
pub proof fn law_requested_topic(
    session: &mut Session,
    config: Config<'_>,
    topic: &str,
    r: (Option<u8>, bool),
)
    requires
        call_ensures(Session::on_config, (session, Ok(config)), r),
        config.subscribe == Some(topic),
        old(session).subscriptions@.subscribe is None,
    ensures
        ({
            let own = topic@ == crate::short_text::text_of(old(session).raw) || topic@
                == crate::short_text::text_of(old(session).config);
            let held = old(session).subscriptions@.topics;
            let allowed = !own && vstd::utf8::encode_utf8(topic@).len() <= 64 && (
            config.unsubscribe_all || !held.contains(topic@) && held.len() < 4);
            final(session).subscriptions@.subscribe == (if allowed {
                Some(topic@)
            } else {
                None
            })
        }),
{
    let own = seq![
        crate::short_text::text_of(old(session).raw),
        crate::short_text::text_of(old(session).config),
    ];
    assert(own[0] == crate::short_text::text_of(old(session).raw));
    assert(own[1] == crate::short_text::text_of(old(session).config));
    if own.contains(topic@) {
        let i = choose|i: int| 0 <= i < own.len() && own[i] == topic@;
        assert(0 <= i < 2);
    }
}

/// The topics that cannot be subscribed to on request are the device's own.
pub proof fn law_reserved_topics(topic: &str, raw: &str, config: &str, r: bool)
    requires
        call_ensures(is_reserved_topic, (topic, raw, config), r),
    ensures
        topic@ == raw@ ==> r,
        topic@ == config@ ==> r,
        r ==> topic@ == raw@ || topic@ == config@,
{
}

/// The limit on updates: without one, all are taken in, and so is the first.
/// Otherwise an update is taken in exactly when at least the interval has
/// passed since the last one that was answered.
pub proof fn law_update_limit(session: &Session, now: u64, r: bool)
    requires
        call_ensures(Session::should_process, (session, now), r),
        session.last_update matches Some(last) ==> last <= now,
    ensures
        session.min_update_interval_secs == 0 ==> r,
        session.last_update is None ==> r,
        session.min_update_interval_secs > 0 ==> (session.last_update matches Some(last) ==> (r
            <==> now - last >= session.min_update_interval_secs * 1_000_000)),
{
    if let Some(last) = session.last_update {
        let d = now - last;
        let n = session.min_update_interval_secs as int;
        assert(d / 1_000_000 >= n <==> d >= n * 1_000_000);
    }
}

/// A chunk that is answered sets the time of the last update; any other leaves
/// it, and is not answered.
pub proof fn law_live_chunk(
    session: &mut Session,
    result: Result<bool, &'static str>,
    now: u64,
    r: bool,
)
    requires
        call_ensures(Session::on_live_chunk, (session, result, now), r),
    ensures
        r <==> result == Ok::<bool, &'static str>(true),
        r ==> final(session).last_update == Some(now),
        !r ==> final(session).last_update == old(session).last_update,
        final(session).min_update_interval_secs == old(session).min_update_interval_secs,
        final(session).subscriptions@ == old(session).subscriptions@,
{
}

/// The setup goes through its steps in order, none is left out, and none is done
/// twice. A step that fails ends it, except for restoring topics.
pub proof fn law_setup_order(step: SetupStep, ok: bool, r: Result<SetupStep, &'static str>)
    requires
        call_ensures(next_setup_step, (step, ok), r),
    ensures
        ok ==> r is Ok,
        !ok ==> (r is Ok <==> step == SetupStep::Restore || step == SetupStep::Serve),
        r == Ok::<SetupStep, &'static str>(SetupStep::Resolve) <==> ok && step
            == SetupStep::BrokerName,
        r == Ok::<SetupStep, &'static str>(SetupStep::FirstAddress) <==> ok && step
            == SetupStep::Resolve,
        r == Ok::<SetupStep, &'static str>(SetupStep::Connect) <==> ok && step
            == SetupStep::FirstAddress,
        r == Ok::<SetupStep, &'static str>(SetupStep::OpenTls) <==> ok && step
            == SetupStep::Connect,
        r == Ok::<SetupStep, &'static str>(SetupStep::Handshake) <==> ok && step
            == SetupStep::OpenTls,
        r == Ok::<SetupStep, &'static str>(SetupStep::Login) <==> ok && step
            == SetupStep::Handshake,
        r == Ok::<SetupStep, &'static str>(SetupStep::SubscribeRaw) <==> ok && step
            == SetupStep::Login,
        r == Ok::<SetupStep, &'static str>(SetupStep::SubscribeConfig) <==> ok && step
            == SetupStep::SubscribeRaw,
        r == Ok::<SetupStep, &'static str>(SetupStep::Restore) <==> ok && step
            == SetupStep::SubscribeConfig,
        r == Ok::<SetupStep, &'static str>(SetupStep::Serve) <==> step == SetupStep::Restore || step
            == SetupStep::Serve,
        r matches Err(e) ==> match step {
            SetupStep::BrokerName => e@ == "Unable to convert broker name to a string"@,
            SetupStep::Resolve => e@ == "MQTT DNS lookup failed"@,
            SetupStep::FirstAddress => e@ == "No MQTT broker IP found"@,
            SetupStep::OpenTls => e@ == "Failed to create TLS session"@,
            SetupStep::Handshake => e@ == "TLS handshake failed"@,
            SetupStep::SubscribeRaw => e@ == "Failed to subscribe to MQTT topic"@,
            SetupStep::SubscribeConfig => e@ == "Failed to subscribe to config topic"@,
            _ => e@ == "Failed to connect to MQTT broker"@,
        },
{
}

/// What a chunk is answered with: the last one of a frame always is, any other
/// exactly when its sender wants that. The flag for a lost connection is
/// cleared exactly when the display took the frame.
pub proof fn law_chunk_report<S: FnOnce(DisplayMessage) -> bool>(
    decoded: Result<(usize, ChunkMetadata), &'static str>,
    decode_buf: &[u8],
    meta: &mut ChunkMeta,
    frame: &mut Frame,
    try_send: S,
    r: Result<(bool, bool), &'static str>,
)
    requires
        call_ensures(process_chunk::<S>, (decoded, decode_buf, meta, Some(frame), try_send), r),
        decoded matches Ok((_, metadata)) ==> metadata.chunk_index == 0 || old(meta).received_count
            < usize::MAX,
    ensures
        match decoded {
            Err(e) => r == Err::<(bool, bool), &'static str>(e) && *final(meta) == *old(meta),
            Ok((_, metadata)) => {
                let last = if metadata.chunk_index == 0 {
                    metadata.total_chunks == 1
                } else {
                    old(meta).received_count + 1 == old(meta).total_chunks
                };
                &&& r is Ok
                &&& r->Ok_0.0 <==> last || metadata.requires_response
                &&& r->Ok_0.1 ==> last
                &&& last ==> call_ensures(try_send, (DisplayMessage::RawBinary,), r->Ok_0.1)
                &&& last ==> final(meta).received_count == 0 && final(meta).offset == 0
                &&& !last ==> final(meta).received_count == (if metadata.chunk_index == 0 {
                    1int
                } else {
                    old(meta).received_count + 1
                })
            },
        },
{
}

} // verus!
