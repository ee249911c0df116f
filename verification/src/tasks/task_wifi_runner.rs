//! The WiFi task: which mode the device is in, when it goes online, and what
//! it does with the messages that it receives.

use super::chunks::{FrameMetadata, ProcessChunkResult};
use super::subscriptions::Subscriptions;
use super::MatchSliceLengths;
use crate::nvs::DisplayMode;
use crate::short_text::{append, as_str, empty_text, short_text, ssid_text};
use crate::text::same_text;
use crate::NotificationType;
use vstd::prelude::*;
use vstd::string::*;

verus! {

/// Seconds to wait after an error.
pub const RETRY_DELAY_SECS: u64 = 5;

/// Time for the radio to stop or start.
pub const TRANSITION_DELAY_MS: u64 = 200;

/// Time for the radio to settle after a configuration message.
pub const CONFIG_PROCESS_DELAY_MS: u64 = 50;

/// Time for the broker to keep a response before the connection ends.
pub const OTA_RESPONSE_DELAY_MS: u64 = 300;

/// Seconds to wait when there is nothing to do.
pub const REFRESH_INTERVAL_SECS: u64 = 60;

/// Seconds after which the broker gives up on the device.
pub const MQTT_TIMEOUT_SECS: u16 = 300;

/// Seconds that the socket waits longer than the broker.
pub const SOCKET_TIMEOUT_HEADROOM_SECS: u64 = 30;

/// Seconds between two pings, a third of the timeout.
pub const MQTT_PING_INTERVAL_SECS: u64 = 100;

/// Seconds that an update may come too early.
pub const RATE_LIMIT_BUFFER_SECS: u64 = 4;

/// Bytes of a message at most.
pub const MQTT_BUFFER_SIZE: usize = 7_000;

/// Topic on which updates for all devices are announced.
pub const OTA_BROADCAST_TOPIC: &'static str = "public/ota";

/// Bytes of an update announcement that are kept.
pub const OTA_PAYLOAD_SIZE: usize = 512;

// =============================================================================
// Topics
// =============================================================================

/// Why a session with the broker ended, or could not begin.
#[derive(Debug, Clone, Copy, PartialEq, Eq, Structural)]
pub enum MqttSessionError {
    /// An update was announced. It is downloaded once the session is gone.
    OtaRequested,
    /// The broker's address could not be looked up.
    DnsLookupFailed,
    /// The broker could not be reached.
    TcpConnectFailed,
    /// The encrypted connection could not be set up.
    TlsFailed,
    /// The broker refused the connection.
    MqttConnectFailed,
    /// The broker refused a subscription.
    SubscriptionFailed,
    /// A topic is too long.
    TopicFormatError,
    /// Receiving failed.
    ReceiveError,
}

/// The device's own topics.
#[derive(Debug)]
pub struct SessionTopics {
    /// Frames.
    pub raw: heapless::String<64>,
    /// Configuration.
    pub config: heapless::String<64>,
    /// Responses of the device.
    pub response: heapless::String<64>,
    /// Tests of the connection.
    pub ping: heapless::String<64>,
    /// Updates of the firmware.
    pub ota: heapless::String<64>,
}

/// A topic of a device.
pub open spec fn device_topic(client_id: Seq<char>, suffix: Seq<char>) -> Seq<char> {
    client_id + suffix
}

/// All topics of a device are short enough.
pub open spec fn topics_fit(client_id: Seq<char>) -> bool {
    &&& crate::short_text::fits(device_topic(client_id, "/root/raw"@))
    &&& crate::short_text::fits(device_topic(client_id, "/root/config"@))
    &&& crate::short_text::fits(device_topic(client_id, "/root/response"@))
    &&& crate::short_text::fits(device_topic(client_id, "/root/ping"@))
    &&& crate::short_text::fits(device_topic(client_id, "/root/ota"@))
}

/// Makes a topic of a device, if it is short enough.
pub fn make_topic(client_id: &str, suffix: &str) -> (r: Option<heapless::String<64>>)
    ensures
        match r {
            Some(topic) => crate::short_text::fits(device_topic(client_id@, suffix@))
                && crate::short_text::text_of(topic) == device_topic(client_id@, suffix@),
            None => !crate::short_text::fits(device_topic(client_id@, suffix@)),
        },
{
    proof {
        crate::text::lemma_encode_concat(client_id@, suffix@);
        assert(Seq::<char>::empty() + client_id@ =~= client_id@);
    }
    let mut topic: heapless::String<64> = empty_text();
    if append(&mut topic, client_id) && append(&mut topic, suffix) {
        Some(topic)
    } else {
        None
    }
}

impl SessionTopics {
    /// The topics are those of a device.
    pub open spec fn belong_to(&self, client_id: Seq<char>) -> bool {
        &&& crate::short_text::text_of(self.raw) == device_topic(client_id, "/root/raw"@)
        &&& crate::short_text::text_of(self.config) == device_topic(client_id, "/root/config"@)
        &&& crate::short_text::text_of(self.response) == device_topic(client_id, "/root/response"@)
        &&& crate::short_text::text_of(self.ping) == device_topic(client_id, "/root/ping"@)
        &&& crate::short_text::text_of(self.ota) == device_topic(client_id, "/root/ota"@)
    }

    /// The topics that cannot be subscribed to or unsubscribed from on
    /// request.
    pub open spec fn reserved(&self) -> Seq<Seq<char>> {
        seq![
            crate::short_text::text_of(self.raw),
            crate::short_text::text_of(self.config),
            crate::short_text::text_of(self.ping),
            crate::short_text::text_of(self.ota),
            OTA_BROADCAST_TOPIC@,
        ]
    }

    /// The topics of a device.
    pub fn new(client_id: &str) -> (r: Result<Self, MqttSessionError>)
        ensures
            match r {
                Ok(topics) => topics_fit(client_id@) && topics.belong_to(client_id@),
                Err(e) => !topics_fit(client_id@) && e == MqttSessionError::TopicFormatError,
            },
    {
        let raw = make_topic(client_id, "/root/raw");
        let config = make_topic(client_id, "/root/config");
        let response = make_topic(client_id, "/root/response");
        let ping = make_topic(client_id, "/root/ping");
        let ota = make_topic(client_id, "/root/ota");
        match (raw, config, response, ping, ota) {
            (Some(raw), Some(config), Some(response), Some(ping), Some(ota)) => Ok(
                SessionTopics { raw, config, response, ping, ota },
            ),
            _ => Err(MqttSessionError::TopicFormatError),
        }
    }
}

/// A device whose name has at most 50 bytes has topics.
pub proof fn law_short_names_have_topics(client_id: Seq<char>)
    requires
        vstd::utf8::encode_utf8(client_id).len() <= 50,
    ensures
        topics_fit(client_id),
{
    lemma_suffix_size(client_id, "/root/raw");
    lemma_suffix_size(client_id, "/root/config");
    lemma_suffix_size(client_id, "/root/response");
    lemma_suffix_size(client_id, "/root/ping");
    lemma_suffix_size(client_id, "/root/ota");
    reveal_strlit("/root/raw");
    reveal_strlit("/root/config");
    reveal_strlit("/root/response");
    reveal_strlit("/root/ping");
    reveal_strlit("/root/ota");
}

/// The size of a topic with an ASCII suffix.
proof fn lemma_suffix_size(client_id: Seq<char>, suffix: &str)
    ensures
        vstd::utf8::is_ascii_chars(suffix@) ==> vstd::utf8::encode_utf8(
            device_topic(client_id, suffix@),
        ).len() == vstd::utf8::encode_utf8(client_id).len() + suffix@.len(),
{
    crate::text::lemma_encode_concat(client_id, suffix@);
    if vstd::utf8::is_ascii_chars(suffix@) {
        vstd::utf8::is_ascii_chars_encode_utf8(suffix@);
    }
}

// =============================================================================
// Setting up a session
// =============================================================================

/// A step on the way to a session with the broker.
#[derive(Debug, Clone, Copy, PartialEq, Eq, Structural)]
pub enum SetupStep {
    /// Wait for the network.
    Uplink,
    /// Wait for an address.
    Address,
    /// Look up the broker.
    Resolve,
    /// Connect to it.
    Connect,
    /// Create the encrypted connection.
    OpenTls,
    /// Perform its handshake.
    Handshake,
    /// Log in to the broker.
    Login,
    /// Make the topics.
    MakeTopics,
    /// Subscribe to frames.
    SubscribeRaw,
    /// Subscribe to configuration.
    SubscribeConfig,
    /// Subscribe to tests of the connection.
    SubscribePing,
    /// Subscribe to updates of the firmware.
    SubscribeOta,
    /// Subscribe to updates for all devices.
    SubscribeBroadcast,
    /// Confirm new firmware.
    ConfirmBoot,
    /// Subscribe to the stored topics.
    Restore,
    /// Receive messages.
    Serve,
}

/// The place of a step.
pub open spec fn setup_order(step: SetupStep) -> int {
    match step {
        SetupStep::Uplink => 0,
        SetupStep::Address => 1,
        SetupStep::Resolve => 2,
        SetupStep::Connect => 3,
        SetupStep::OpenTls => 4,
        SetupStep::Handshake => 5,
        SetupStep::Login => 6,
        SetupStep::MakeTopics => 7,
        SetupStep::SubscribeRaw => 8,
        SetupStep::SubscribeConfig => 9,
        SetupStep::SubscribePing => 10,
        SetupStep::SubscribeOta => 11,
        SetupStep::SubscribeBroadcast => 12,
        SetupStep::ConfirmBoot => 13,
        SetupStep::Restore => 14,
        SetupStep::Serve => 15,
    }
}

/// What a failed step ends the session with. Waiting cannot fail, and
/// confirming the firmware and restoring topics may.
pub open spec fn setup_fault(step: SetupStep) -> Option<MqttSessionError> {
    match step {
        SetupStep::Resolve => Some(MqttSessionError::DnsLookupFailed),
        SetupStep::Connect => Some(MqttSessionError::TcpConnectFailed),
        SetupStep::OpenTls | SetupStep::Handshake => Some(MqttSessionError::TlsFailed),
        SetupStep::Login => Some(MqttSessionError::MqttConnectFailed),
        SetupStep::MakeTopics => Some(MqttSessionError::TopicFormatError),
        SetupStep::SubscribeRaw
        | SetupStep::SubscribeConfig
        | SetupStep::SubscribePing
        | SetupStep::SubscribeOta
        | SetupStep::SubscribeBroadcast => Some(MqttSessionError::SubscriptionFailed),
        _ => None,
    }
}

/// The step after one that is done, or the error that a failed one ends the
/// session with.
pub fn next_setup_step(step: SetupStep, ok: bool) -> (r: Result<SetupStep, MqttSessionError>)
    ensures
        if !ok && setup_fault(step) is Some {
            r == Err::<SetupStep, MqttSessionError>(setup_fault(step).unwrap())
        } else {
            r matches Ok(next) && setup_order(next) == (if step is Serve {
                15
            } else {
                setup_order(step) + 1
            })
        },
{
    match step {
        SetupStep::Uplink => Ok(SetupStep::Address),
        SetupStep::Address => Ok(SetupStep::Resolve),
        SetupStep::Resolve => if ok {
            Ok(SetupStep::Connect)
        } else {
            Err(MqttSessionError::DnsLookupFailed)
        },
        SetupStep::Connect => if ok {
            Ok(SetupStep::OpenTls)
        } else {
            Err(MqttSessionError::TcpConnectFailed)
        },
        SetupStep::OpenTls => if ok {
            Ok(SetupStep::Handshake)
        } else {
            Err(MqttSessionError::TlsFailed)
        },
        SetupStep::Handshake => if ok {
            Ok(SetupStep::Login)
        } else {
            Err(MqttSessionError::TlsFailed)
        },
        SetupStep::Login => if ok {
            Ok(SetupStep::MakeTopics)
        } else {
            Err(MqttSessionError::MqttConnectFailed)
        },
        SetupStep::MakeTopics => if ok {
            Ok(SetupStep::SubscribeRaw)
        } else {
            Err(MqttSessionError::TopicFormatError)
        },
        SetupStep::SubscribeRaw => if ok {
            Ok(SetupStep::SubscribeConfig)
        } else {
            Err(MqttSessionError::SubscriptionFailed)
        },
        SetupStep::SubscribeConfig => if ok {
            Ok(SetupStep::SubscribePing)
        } else {
            Err(MqttSessionError::SubscriptionFailed)
        },
        SetupStep::SubscribePing => if ok {
            Ok(SetupStep::SubscribeOta)
        } else {
            Err(MqttSessionError::SubscriptionFailed)
        },
        SetupStep::SubscribeOta => if ok {
            Ok(SetupStep::SubscribeBroadcast)
        } else {
            Err(MqttSessionError::SubscriptionFailed)
        },
        SetupStep::SubscribeBroadcast => if ok {
            Ok(SetupStep::ConfirmBoot)
        } else {
            Err(MqttSessionError::SubscriptionFailed)
        },
        SetupStep::ConfirmBoot => Ok(SetupStep::Restore),
        SetupStep::Restore => Ok(SetupStep::Serve),
        SetupStep::Serve => Ok(SetupStep::Serve),
    }
}

/// What is done with new firmware once the device is online, in order.
#[derive(Debug, Clone, Copy, PartialEq, Eq, Structural)]
pub enum BootStep {
    /// Show that the update is complete.
    ShowComplete,
    /// Confirm the firmware.
    Confirm,
}

/// The steps for the running firmware. The screen comes first: if showing it
/// is what the new firmware breaks, it is never confirmed.
pub open spec fn boot_steps(unconfirmed: bool) -> Seq<BootStep> {
    if unconfirmed {
        seq![BootStep::ShowComplete, BootStep::Confirm]
    } else {
        Seq::empty()
    }
}

/// The step for the running firmware with this number, if there are so many.
pub fn boot_step(unconfirmed: bool, index: usize) -> (r: Option<BootStep>)
    ensures
        r == (if index < boot_steps(unconfirmed).len() {
            Some(boot_steps(unconfirmed)[index as int])
        } else {
            None
        }),
{
    if !unconfirmed {
        None
    } else if index == 0 {
        Some(BootStep::ShowComplete)
    } else if index == 1 {
        Some(BootStep::Confirm)
    } else {
        None
    }
}

// =============================================================================
// A session
// =============================================================================

/// A configuration message.
#[derive(Debug, Clone, Copy)]
pub struct ConfigPayload<'a> {
    /// Topic to subscribe to.
    pub subscribe: Option<&'a str>,
    /// Topic to unsubscribe from.
    pub unsubscribe: Option<&'a str>,
    /// Whether to unsubscribe from all topics.
    pub unsubscribe_all: bool,
    /// Least number of seconds between two updates.
    pub min_update_interval: Option<u32>,
    /// Updates between two full refreshes of the display.
    pub max_cycles: Option<u8>,
    /// Whether the sender wants a response.
    pub requires_response: bool,
}

/// What is to be done after a configuration message.
#[derive(Debug, Clone, Copy, PartialEq, Eq, Structural)]
pub struct ConfigEffects {
    /// Interval to store.
    pub save_interval: Option<u32>,
    /// Number of updates between full refreshes, to tell the display and to
    /// store.
    pub max_cycles: Option<u8>,
    /// Whether to send a response, which reports success.
    pub respond: bool,
}

/// What is to be done after a chunk of a frame.
#[derive(Debug, Clone, Copy, PartialEq, Eq, Structural)]
pub struct ChunkEffects {
    /// Unix time of the update, to store.
    pub save_timestamp: Option<u64>,
    /// Response to send, and whether it reports success.
    pub respond: Option<bool>,
    /// Whether the flag for the screen that reports a lost connection is to be
    /// cleared.
    pub clear_error: bool,
}

/// What a message is, by its topic.
#[derive(Debug, Clone, Copy, PartialEq, Eq, Structural)]
pub enum Route {
    /// A chunk of a frame.
    Raw,
    /// Configuration.
    Config,
    /// A test of the connection.
    Ping,
    /// An update of the firmware.
    Ota,
    /// A chunk of a frame on a topic subscribed to on request.
    Live,
    /// Something else.
    Unknown,
}

/// The state of a session.
pub struct LiveSession {
    /// The device's own topics.
    pub topics: SessionTopics,
    /// The topics subscribed to on request.
    pub subscriptions: Subscriptions,
    /// Least number of seconds between two updates; 0 for no limit.
    pub min_update_interval_secs: u32,
    /// Unix time of the last update.
    pub last_update_unix_ts: Option<u64>,
}

/// An update is due: there is no limit, or it is the first one, or it does not
/// tell its time, or it comes at most a few seconds before its time.
pub open spec fn update_due(interval: int, last: Option<u64>, incoming: Option<u64>) -> bool {
    match (last, incoming) {
        (Some(last), Some(now)) => interval == 0 || saturating(now - last) >= saturating(
            interval - RATE_LIMIT_BUFFER_SECS,
        ),
        _ => true,
    }
}

/// A difference, cut off at 0.
pub open spec fn saturating(n: int) -> int {
    if n < 0 {
        0
    } else {
        n
    }
}

impl LiveSession {
    /// A session with what is stored.
    pub fn new(
        topics: SessionTopics,
        saved_topics: heapless::Vec<heapless::String<64>, 4>,
        min_update_interval: Option<u32>,
        last_update: Option<u64>,
    ) -> (r: Self)
        ensures
            r.topics == topics,
            r.subscriptions@ == (super::subscriptions::SubscriptionsView {
                topics: crate::short_text::texts_of(saved_topics),
                subscribe: None,
                unsubscribe: None,
                clear: false,
                changed: false,
                keeps_refused: false,
            }),
            r.min_update_interval_secs == (match min_update_interval {
                Some(interval) => interval,
                None => 0,
            }),
            r.last_update_unix_ts == last_update,
    {
        Self {
            topics,
            subscriptions: Subscriptions::new(saved_topics, false),
            min_update_interval_secs: match min_update_interval {
                Some(interval) => interval,
                None => 0,
            },
            last_update_unix_ts: last_update,
        }
    }

    /// What a message is, by its topic.
    pub open spec fn route_of(&self, topic: Seq<char>) -> Route {
        if topic == crate::short_text::text_of(self.topics.raw) {
            Route::Raw
        } else if topic == crate::short_text::text_of(self.topics.config) {
            Route::Config
        } else if topic == crate::short_text::text_of(self.topics.ping) {
            Route::Ping
        } else if topic == crate::short_text::text_of(self.topics.ota) || topic
            == OTA_BROADCAST_TOPIC@ {
            Route::Ota
        } else if self.subscriptions@.topics.contains(topic) {
            Route::Live
        } else {
            Route::Unknown
        }
    }

    /// What a message is, by its topic.
    pub fn route(&self, topic: &str) -> (r: Route)
        ensures
            r == self.route_of(topic@),
    {
        if same_text(topic, as_str(&self.topics.raw)) {
            Route::Raw
        } else if same_text(topic, as_str(&self.topics.config)) {
            Route::Config
        } else if same_text(topic, as_str(&self.topics.ping)) {
            Route::Ping
        } else if same_text(topic, as_str(&self.topics.ota)) || same_text(
            topic,
            OTA_BROADCAST_TOPIC,
        ) {
            Route::Ota
        } else if self.subscriptions.contains(topic) {
            Route::Live
        } else {
            Route::Unknown
        }
    }

    /// Takes in a configuration message; an error stands for one that could
    /// not be parsed.
    pub fn on_config(&mut self, config: Result<ConfigPayload<'_>, &'static str>) -> (r:
        ConfigEffects)
        ensures
            final(self).topics == old(self).topics,
            final(self).last_update_unix_ts == old(self).last_update_unix_ts,
            match config {
                Err(_) => {
                    &&& r == (ConfigEffects { save_interval: None, max_cycles: None, respond: false })
                    &&& final(self).subscriptions@ == old(self).subscriptions@
                    &&& final(self).min_update_interval_secs == old(self).min_update_interval_secs
                },
                Ok(config) => {
                    &&& r == (ConfigEffects {
                        save_interval: config.min_update_interval,
                        max_cycles: config.max_cycles,
                        respond: config.requires_response,
                    })
                    &&& final(self).subscriptions@ == old(self).subscriptions@.queued(
                        super::subscriptions::RequestView {
                            subscribe: super::subscriptions::optional_text(config.subscribe),
                            unsubscribe: super::subscriptions::optional_text(config.unsubscribe),
                            unsubscribe_all: config.unsubscribe_all,
                        },
                        old(self).topics.reserved(),
                    )
                    &&& final(self).min_update_interval_secs == (match config.min_update_interval {
                        Some(interval) => interval,
                        None => old(self).min_update_interval_secs,
                    })
                },
            },
    {
        let config: ConfigPayload<'_> = match config {
            Ok(config) => config,
            Err(_) => {
                return ConfigEffects { save_interval: None, max_cycles: None, respond: false };
            },
        };
        let reserved: [&str; 5] = [
            as_str(&self.topics.raw),
            as_str(&self.topics.config),
            as_str(&self.topics.ping),
            as_str(&self.topics.ota),
            OTA_BROADCAST_TOPIC,
        ];
        proof {
            assert(super::subscriptions::texts(reserved@) =~= self.topics.reserved());
        }
        self.subscriptions.queue(
            config.subscribe,
            config.unsubscribe,
            config.unsubscribe_all,
            &reserved,
        );
        if let Some(interval) = config.min_update_interval {
            self.min_update_interval_secs = interval;
        }
        ConfigEffects {
            save_interval: config.min_update_interval,
            max_cycles: config.max_cycles,
            respond: config.requires_response,
        }
    }

    /// Whether a chunk on a topic subscribed to on request is taken in; `None`
    /// stands for metadata that could not be parsed.
    pub fn should_process(&self, metadata: Option<FrameMetadata>) -> (r: bool)
        ensures
            r == (match metadata {
                Some(m) => update_due(
                    self.min_update_interval_secs as int,
                    self.last_update_unix_ts,
                    m.timestamp,
                ),
                None => true,
            }),
    {
        let metadata: FrameMetadata = match metadata {
            Some(m) => m,
            None => {
                return true;
            },
        };
        if self.min_update_interval_secs == 0 {
            return true;
        }
        match (self.last_update_unix_ts, metadata.timestamp) {
            (Some(last), Some(now)) => {
                let elapsed: u64 = if now > last {
                    now - last
                } else {
                    0
                };
                let interval: u64 = self.min_update_interval_secs as u64;
                let required: u64 = if interval > RATE_LIMIT_BUFFER_SECS {
                    interval - RATE_LIMIT_BUFFER_SECS
                } else {
                    0
                };
                elapsed >= required
            },
            _ => true,
        }
    }

    /// Takes in what came of a chunk.
    pub fn on_chunk(&mut self, result: Result<ProcessChunkResult, &'static str>) -> (r:
        ChunkEffects)
        ensures
            final(self).topics == old(self).topics,
            final(self).min_update_interval_secs == old(self).min_update_interval_secs,
            match result {
                Err(_) => {
                    &&& r == (ChunkEffects {
                        save_timestamp: None,
                        respond: None,
                        clear_error: false,
                    })
                    &&& final(self).subscriptions@ == old(self).subscriptions@
                    &&& final(self).last_update_unix_ts == old(self).last_update_unix_ts
                },
                Ok(result) => {
                    let updated = result.send_response && result.success && result.timestamp
                        is Some;
                    &&& r == (ChunkEffects {
                        save_timestamp: if updated {
                            result.timestamp
                        } else {
                            None
                        },
                        respond: if result.send_response {
                            Some(result.success)
                        } else {
                            None
                        },
                        clear_error: result.clears_error,
                    })
                    &&& final(self).last_update_unix_ts == (if updated {
                        result.timestamp
                    } else {
                        old(self).last_update_unix_ts
                    })
                    &&& final(self).subscriptions@ == (if result.unsubscribe_all {
                        super::subscriptions::SubscriptionsView {
                            clear: true,
                            ..old(self).subscriptions@
                        }
                    } else {
                        old(self).subscriptions@
                    })
                },
            },
    {
        let result: ProcessChunkResult = match result {
            Ok(result) => result,
            Err(_) => {
                return ChunkEffects { save_timestamp: None, respond: None, clear_error: false };
            },
        };
        let mut save_timestamp: Option<u64> = None;
        let mut respond: Option<bool> = None;
        if result.send_response {
            if result.success {
                if let Some(ts) = result.timestamp {
                    self.last_update_unix_ts = Some(ts);
                    save_timestamp = Some(ts);
                }
            }
            respond = Some(result.success);
        }
        if result.unsubscribe_all {
            self.subscriptions.queue_clear();
        }
        ChunkEffects { save_timestamp, respond, clear_error: result.clears_error }
    }

    /// What ends the session when receiving failed: nothing after a harmless
    /// error; else the time of the last update is stored first, so that the
    /// limit holds in the next session too.
    pub fn on_receive_error(&self, harmless: bool) -> (r: Option<(MqttSessionError, Option<u64>)>)
        ensures
            r == (if harmless {
                None
            } else {
                Some((MqttSessionError::ReceiveError, self.last_update_unix_ts))
            }),
    {
        if harmless {
            None
        } else {
            Some((MqttSessionError::ReceiveError, self.last_update_unix_ts))
        }
    }
}

/// What a session waits for.
#[derive(Debug, Clone, Copy)]
pub enum SessionEvent<'a> {
    /// A notification came.
    Notified(NotificationType),
    /// It is time for a ping.
    PingDue,
    /// A message came on a topic.
    Message(&'a str),
    /// Receiving failed; the flag tells whether that is harmless.
    Failed(bool),
}

/// What a session does about it.
#[derive(Debug, Clone, Copy, PartialEq, Eq)]
pub enum SessionAction {
    /// Disconnect, and end the session with the notification.
    Leave(NotificationType),
    /// Send a ping.
    SendPing,
    /// Take in a chunk of a frame.
    TakeChunk,
    /// Take in a chunk of a frame, if it is due.
    TakeChunkIfDue,
    /// Take in a configuration message, then let the radio settle.
    TakeConfig,
    /// Send a response that reports success.
    Respond,
    /// Keep the announcement of an update, send a response that reports
    /// success, let the broker keep it, disconnect, and end the session.
    BeginOta,
    /// Nothing.
    Ignore,
    /// Store the time of the last update, if there is one, disconnect, and end
    /// the session with the error.
    Fail(MqttSessionError, Option<u64>),
}

impl LiveSession {
    /// What is done about an event.
    pub open spec fn reaction(&self, event: SessionEvent) -> SessionAction {
        match event {
            SessionEvent::Notified(n) => SessionAction::Leave(n),
            SessionEvent::PingDue => SessionAction::SendPing,
            SessionEvent::Message(topic) => match self.route_of(topic@) {
                Route::Raw => SessionAction::TakeChunk,
                Route::Config => SessionAction::TakeConfig,
                Route::Ping => SessionAction::Respond,
                Route::Ota => SessionAction::BeginOta,
                Route::Live => SessionAction::TakeChunkIfDue,
                Route::Unknown => SessionAction::Ignore,
            },
            SessionEvent::Failed(harmless) => if harmless {
                SessionAction::Ignore
            } else {
                SessionAction::Fail(MqttSessionError::ReceiveError, self.last_update_unix_ts)
            },
        }
    }

    /// What is done about an event. Before a session waits for the next one,
    /// the changes to its subscriptions are carried out.
    pub fn on_event(&self, event: SessionEvent<'_>) -> (r: SessionAction)
        ensures
            r == self.reaction(event),
    {
        match event {
            SessionEvent::Notified(n) => SessionAction::Leave(n),
            SessionEvent::PingDue => SessionAction::SendPing,
            SessionEvent::Message(topic) => match self.route(topic) {
                Route::Raw => SessionAction::TakeChunk,
                Route::Config => SessionAction::TakeConfig,
                Route::Ping => SessionAction::Respond,
                Route::Ota => SessionAction::BeginOta,
                Route::Live => SessionAction::TakeChunkIfDue,
                Route::Unknown => SessionAction::Ignore,
            },
            SessionEvent::Failed(harmless) => match self.on_receive_error(harmless) {
                None => SessionAction::Ignore,
                Some((error, timestamp)) => SessionAction::Fail(error, timestamp),
            },
        }
    }
}

/// A topic that was subscribed to on request never stands in for one of the
/// device's own: whatever is subscribed to, messages on these are taken for
/// what they are.
pub proof fn law_own_topics_come_first(session: LiveSession, client_id: Seq<char>)
    requires
        session.topics.belong_to(client_id),
    ensures
        session.route_of(device_topic(client_id, "/root/raw"@)) == Route::Raw,
        session.route_of(device_topic(client_id, "/root/config"@)) == Route::Config,
        session.route_of(device_topic(client_id, "/root/ping"@)) == Route::Ping,
        session.route_of(device_topic(client_id, "/root/ota"@)) == Route::Ota,
{
    reveal_strlit("/root/raw");
    reveal_strlit("/root/config");
    reveal_strlit("/root/ping");
    reveal_strlit("/root/ota");
    let n = client_id.len() as int;
    let raw = device_topic(client_id, "/root/raw"@);
    let config = device_topic(client_id, "/root/config"@);
    let ping = device_topic(client_id, "/root/ping"@);
    let ota = device_topic(client_id, "/root/ota"@);
    assert(raw[n + 6] == 'r' && config[n + 6] == 'c' && ping[n + 6] == 'p' && ota[n + 6] == 'o');
}

/// Updates that keep the interval are all taken in.
pub proof fn law_slow_updates_are_due(interval: int, last: u64, incoming: u64)
    requires
        0 <= interval,
        last + interval <= incoming,
    ensures
        update_due(interval, Some(last), Some(incoming)),
{
}

/// An update that comes earlier than the interval less its tolerance is left
/// out.
pub proof fn law_early_updates_are_not_due(interval: int, last: u64, incoming: u64)
    requires
        last <= incoming,
        incoming - last < interval - RATE_LIMIT_BUFFER_SECS,
    ensures
        !update_due(interval, Some(last), Some(incoming)),
{
}

/// The response that the device sends.
pub fn response_json(success: bool) -> (r: Vec<u8>)
    ensures
        r@ == vstd::utf8::encode_utf8(
            if success {
                "{\"response\":\"success\"}"@
            } else {
                "{\"response\":\"error\"}"@
            },
        ),
{
    if success {
        "{\"response\":\"success\"}".as_bytes_vec()
    } else {
        "{\"response\":\"error\"}".as_bytes_vec()
    }
}

/// Keeps an update announcement for after the session: its bytes, as far as
/// they are kept, and how many there are.
pub fn stage_ota(payload: &[u8]) -> (r: ([u8; OTA_PAYLOAD_SIZE], usize))
    ensures
        r.0@ == super::matched(payload@, OTA_PAYLOAD_SIZE as nat, 0),
        r.1 == (if payload@.len() < OTA_PAYLOAD_SIZE {
            payload@.len() as int
        } else {
            OTA_PAYLOAD_SIZE as int
        }),
        payload@.len() <= OTA_PAYLOAD_SIZE ==> r.0@.take(r.1 as int) == payload@,
{
    let buf: [u8; OTA_PAYLOAD_SIZE] = payload.match_size(0);
    let n: usize = if payload.len() < OTA_PAYLOAD_SIZE {
        payload.len()
    } else {
        OTA_PAYLOAD_SIZE
    };
    proof {
        if payload@.len() <= OTA_PAYLOAD_SIZE {
            assert(buf@.take(n as int) =~= payload@);
        }
    }
    (buf, n)
}

// =============================================================================
// Screens
// =============================================================================

/// Network that is used when none is stored.
pub const DEFAULT_SSID: &'static str = "HONESTWIFI-2325-2G";

/// Password of that network.
pub const DEFAULT_PASSWORD: &'static str = "9526070855!";

/// Shown when the connection is lost.
pub const WIFI_DISCONNECTED_MSG: &'static str =
    "WiFi Disconnected\n\n1. Check router\n   is online\n2. Use 2.4GHz or dual-band supported network\n3. Check password\n\nTap NFC on the back\nusing the app to update or scan QR for help";

/// Shown when the connection is back.
pub const WIFI_CONNECTED_MSG: &'static str =
    "WiFi Connected!\n\nFeatures:\n- Upload images\n- Display QR codes\n- Bible verses\n- Clock display\n- Weather updates\n- Stock prices\n- And more!\n\nScan QR to start";

/// Shown while an update is downloaded.
pub const OTA_UPDATING_MSG: &'static str =
    "Installing\nupdate...\n\nKeep WiFi on\nand don't unplug.\n\nScan to share\nwith a friend.";

/// Shown when an update is complete.
pub const OTA_COMPLETE_MSG: &'static str =
    "All set!\n\nNext display\ncoming soon,\nor refresh now\nfrom the app.\n\nScan to share\nwith a friend.";

/// Shown when an update failed.
pub const OTA_FAILED_MSG: &'static str =
    "Update didn't\nfinish.\n\nYour device is\nstill fine.\n\nScan to visit\nour help site.";

/// A screen of the device's own.
#[derive(Debug, Clone, Copy, PartialEq, Eq, Structural)]
pub enum Screen {
    WifiDisconnected,
    WifiConnected,
    OtaUpdating,
    OtaComplete,
    OtaFailed,
}

/// An address that a screen leads to.
#[derive(Debug, Clone, Copy, PartialEq, Eq, Structural)]
pub enum Link {
    /// The page to start from.
    GetStarted,
    /// The help page.
    Support,
    /// The app's page in the store.
    AppStore,
}

/// The text of a screen.
pub fn screen_text(screen: Screen) -> (r: &'static str)
    ensures
        r@ == (match screen {
            Screen::WifiDisconnected => WIFI_DISCONNECTED_MSG@,
            Screen::WifiConnected => WIFI_CONNECTED_MSG@,
            Screen::OtaUpdating => OTA_UPDATING_MSG@,
            Screen::OtaComplete => OTA_COMPLETE_MSG@,
            Screen::OtaFailed => OTA_FAILED_MSG@,
        }),
{
    match screen {
        Screen::WifiDisconnected => WIFI_DISCONNECTED_MSG,
        Screen::WifiConnected => WIFI_CONNECTED_MSG,
        Screen::OtaUpdating => OTA_UPDATING_MSG,
        Screen::OtaComplete => OTA_COMPLETE_MSG,
        Screen::OtaFailed => OTA_FAILED_MSG,
    }
}

/// Where a screen leads to.
pub fn screen_link(screen: Screen) -> (r: Link)
    ensures
        r == (match screen {
            Screen::WifiConnected => Link::GetStarted,
            Screen::WifiDisconnected | Screen::OtaFailed => Link::Support,
            Screen::OtaUpdating | Screen::OtaComplete => Link::AppStore,
        }),
{
    match screen {
        Screen::WifiConnected => Link::GetStarted,
        Screen::WifiDisconnected | Screen::OtaFailed => Link::Support,
        Screen::OtaUpdating | Screen::OtaComplete => Link::AppStore,
    }
}

// =============================================================================
// The main loop
// =============================================================================

/// Why the device started.
#[derive(Debug, Clone, Copy, PartialEq, Eq, Structural)]
pub enum ResetReason {
    /// The supply voltage sagged.
    SysBrownOut,
    /// The chip was powered on.
    ChipPowerOn,
    /// Any other reason, or none that is known.
    Other,
}

/// What the device remembers of its connection.
#[derive(Debug, Clone, Copy, PartialEq, Eq, Structural)]
pub struct Connection {
    /// The display does not report a lost connection.
    pub previously_connected: bool,
    /// A first failure is not shown.
    pub skip_error_on_first_attempt: bool,
}

impl Connection {
    /// The connection when the device starts; `error_shown` is the stored
    /// flag.
    ///
    /// After a power failure the display still holds what was shown before,
    /// which a first failure is not to replace.
    pub open spec fn at_start(error_shown: bool, reason: ResetReason) -> Connection {
        Connection {
            previously_connected: !error_shown,
            skip_error_on_first_attempt: reason is SysBrownOut || reason is ChipPowerOn,
        }
    }

    /// The device is back online: whether that is shown, and the connection
    /// afterwards.
    pub open spec fn after_success(self) -> (Connection, bool) {
        (
            Connection { previously_connected: true, skip_error_on_first_attempt: false },
            !self.previously_connected,
        )
    }

    /// The device could not get online: whether that is shown, and the
    /// connection afterwards. A failure that was skipped is shown the next
    /// time.
    pub open spec fn after_failure(self) -> (Connection, bool) {
        (
            Connection {
                previously_connected: self.previously_connected
                    && self.skip_error_on_first_attempt,
                skip_error_on_first_attempt: false,
            },
            self.previously_connected && !self.skip_error_on_first_attempt,
        )
    }

    /// The screen that is shown when the device could not get online, and the
    /// flag to store with it.
    pub open spec fn shown_on_failure(self) -> Option<(Screen, bool)> {
        if self.after_failure().1 {
            Some((Screen::WifiDisconnected, true))
        } else {
            None
        }
    }

    /// The connection when the device starts.
    pub fn new(error_shown: bool, reason: ResetReason) -> (r: Self)
        ensures
            r == Self::at_start(error_shown, reason),
    {
        Self {
            previously_connected: !error_shown,
            skip_error_on_first_attempt: match reason {
                ResetReason::SysBrownOut | ResetReason::ChipPowerOn => true,
                ResetReason::Other => false,
            },
        }
    }

    /// Takes note that the device is online. The screen to show, if any, is
    /// returned, and the flag to store with it.
    pub fn on_connected(&mut self) -> (r: Option<(Screen, bool)>)
        ensures
            *final(self) == old(self).after_success().0,
            r == (if old(self).after_success().1 {
                Some((Screen::WifiConnected, false))
            } else {
                None
            }),
    {
        let show: bool = !self.previously_connected;
        self.previously_connected = true;
        self.skip_error_on_first_attempt = false;
        if show {
            Some((Screen::WifiConnected, false))
        } else {
            None
        }
    }

    /// Takes note that the device could not get online. The screen to show, if
    /// any, is returned, and the flag to store with it.
    pub fn on_connect_failed(&mut self) -> (r: Option<(Screen, bool)>)
        ensures
            *final(self) == old(self).after_failure().0,
            r == old(self).shown_on_failure(),
    {
        let show: bool = self.previously_connected && !self.skip_error_on_first_attempt;
        self.previously_connected = self.previously_connected && self.skip_error_on_first_attempt;
        self.skip_error_on_first_attempt = false;
        if show {
            Some((Screen::WifiDisconnected, true))
        } else {
            None
        }
    }
}

/// The flag after a screen was shown, or was not.
pub open spec fn flag_after(flag: bool, shown: bool, value: bool) -> bool {
    if shown {
        value
    } else {
        flag
    }
}

/// A loss that was shown is not shown again while it lasts.
pub proof fn law_loss_is_shown_once(c: Connection)
    requires
        c.shown_on_failure() is Some,
    ensures
        c.after_failure().0.shown_on_failure() is None,
        c.after_failure().0.after_failure().0 == c.after_failure().0,
{
}

/// After a power failure the first failed attempt leaves the display alone; if
/// the next one fails too, that is shown, and the flag is stored.
pub proof fn law_loss_after_power_failure(reason: ResetReason)
    requires
        reason is SysBrownOut || reason is ChipPowerOn,
    ensures
        ({
            let start = Connection::at_start(false, reason);
            &&& start.shown_on_failure() is None
            &&& start.after_failure().0.shown_on_failure() == Some((Screen::WifiDisconnected, true))
        }),
{
}

/// A device that is online is never taken for one whose display reports a lost
/// connection: the stored flag is not set while the device counts as
/// connected, from the start on and after every attempt.
pub proof fn law_flag_tracks_connection(c: Connection, flag: bool, reason: ResetReason)
    ensures
        flag ==> !Connection::at_start(flag, reason).previously_connected,
        (flag ==> !c.previously_connected) ==> {
            &&& !flag_after(flag, c.after_success().1, false)
            &&& flag_after(flag, c.after_failure().1, true)
                ==> !c.after_failure().0.previously_connected
        },
{
}

/// The notification that is to be handled: a new one, or, if the tag was
/// written again, the latest one.
pub fn pending_notification(
    changed: Option<NotificationType>,
    nfc_changed: bool,
    latest: Option<NotificationType>,
) -> (r: Option<NotificationType>)
    ensures
        r == (if changed is Some {
            changed
        } else if nfc_changed {
            latest
        } else {
            None
        }),
{
    match changed {
        Some(n) => Some(n),
        None => if nfc_changed {
            latest
        } else {
            None
        },
    }
}

/// What follows from a notification.
#[derive(Debug, Clone, Copy, PartialEq, Eq, Structural)]
pub enum NotificationStep {
    /// Load the stored text and show it, then turn WiFi off and start over.
    ShowText,
    /// Load the stored address and show it, then turn WiFi off and start over.
    ShowUrl,
    /// Go on; the flag tells whether there are new credentials.
    Proceed(bool),
}

/// What the WiFi task remembers.
pub struct WifiRunner {
    /// Name of the network.
    pub ssid: Option<heapless::String<32>>,
    /// Its password.
    pub password: Option<heapless::String<64>>,
    /// What the device shows.
    pub display_mode: DisplayMode,
    /// The connection.
    pub connection: Connection,
}

/// What follows from a session with the broker.
#[derive(Debug, Clone, Copy, PartialEq, Eq, Structural)]
pub enum SessionEnd {
    /// Turn WiFi off and start over.
    Rest,
    /// Show that an update is installed, and install it.
    RunOta,
}

/// What follows from an update.
#[derive(Debug, Clone, Copy, PartialEq, Eq, Structural)]
pub enum OtaEnd {
    /// There was none: turn WiFi off and start over.
    Rest,
    /// Restart into the new firmware.
    Reboot,
    /// Show that it failed, and restart into the old firmware.
    ShowFailureAndReboot,
}

/// The mode that a notification puts the device into.
pub open spec fn mode_for(notification: NotificationType) -> DisplayMode {
    match notification {
        NotificationType::DisplayText => DisplayMode::CustomText,
        NotificationType::DisplayURL => DisplayMode::QRCode,
        NotificationType::LiveSecureUpdates => DisplayMode::LiveUpdates,
        NotificationType::WifiCredentials => DisplayMode::LiveUpdates,
    }
}

impl WifiRunner {
    /// The task when the device starts, with the stored flag and mode.
    pub fn new(error_shown: bool, display_mode: DisplayMode, reason: ResetReason) -> (r: Self)
        ensures
            r.ssid is None,
            r.password is None,
            r.display_mode == display_mode,
            r.connection == Connection::at_start(error_shown, reason),
    {
        Self {
            ssid: None,
            password: None,
            display_mode,
            connection: Connection::new(error_shown, reason),
        }
    }

    /// Handles a notification. The mode to store, if it was set, is returned
    /// with what follows.
    pub fn on_notification(&mut self, notification: Option<NotificationType>) -> (r: (
        NotificationStep,
        Option<DisplayMode>,
    ))
        ensures
            final(self).ssid == old(self).ssid,
            final(self).password == old(self).password,
            final(self).connection == old(self).connection,
            match notification {
                Some(n) => {
                    &&& final(self).display_mode == mode_for(n)
                    &&& r.1 == Some(mode_for(n))
                    &&& r.0 == (match n {
                        NotificationType::DisplayText => NotificationStep::ShowText,
                        NotificationType::DisplayURL => NotificationStep::ShowUrl,
                        NotificationType::LiveSecureUpdates => NotificationStep::Proceed(false),
                        NotificationType::WifiCredentials => NotificationStep::Proceed(true),
                    })
                },
                None => {
                    &&& final(self).display_mode == old(self).display_mode
                    &&& r.1 is None
                    &&& r.0 == NotificationStep::Proceed(false)
                },
            },
    {
        match notification {
            Some(NotificationType::DisplayText) => {
                self.display_mode = DisplayMode::CustomText;
                (NotificationStep::ShowText, Some(DisplayMode::CustomText))
            },
            Some(NotificationType::DisplayURL) => {
                self.display_mode = DisplayMode::QRCode;
                (NotificationStep::ShowUrl, Some(DisplayMode::QRCode))
            },
            Some(NotificationType::LiveSecureUpdates) => {
                self.display_mode = DisplayMode::LiveUpdates;
                (NotificationStep::Proceed(false), Some(DisplayMode::LiveUpdates))
            },
            Some(NotificationType::WifiCredentials) => {
                self.display_mode = DisplayMode::LiveUpdates;
                (NotificationStep::Proceed(true), Some(DisplayMode::LiveUpdates))
            },
            None => (NotificationStep::Proceed(false), None),
        }
    }

    /// Takes note of whether the stored text or address could be loaded;
    /// without it the device goes back to live updates. The mode to store, if
    /// it was set, is returned.
    pub fn on_content_loaded(&mut self, loaded: bool) -> (r: Option<DisplayMode>)
        ensures
            final(self).ssid == old(self).ssid,
            final(self).password == old(self).password,
            final(self).connection == old(self).connection,
            loaded ==> r is None && final(self).display_mode == old(self).display_mode,
            !loaded ==> r == Some(DisplayMode::LiveUpdates) && final(self).display_mode
                == DisplayMode::LiveUpdates,
    {
        if loaded {
            None
        } else {
            self.display_mode = DisplayMode::LiveUpdates;
            Some(DisplayMode::LiveUpdates)
        }
    }

    /// Whether the device goes online, rather than wait for the next
    /// notification.
    pub fn goes_online(&self) -> (r: bool)
        ensures
            r == (self.display_mode == DisplayMode::LiveUpdates),
    {
        self.display_mode == DisplayMode::LiveUpdates
    }

    /// Whether the credentials are to be loaded.
    pub fn needs_credentials(&self, updated: bool) -> (r: bool)
        ensures
            r == (self.ssid is None || updated),
    {
        self.ssid.is_none() || updated
    }

    /// Takes the loaded credentials, or the default ones where there are none,
    /// and returns whether WiFi is to be turned off, if it is on, to apply
    /// them.
    pub fn on_credentials(
        &mut self,
        loaded: Result<(heapless::String<32>, heapless::String<64>), &'static str>,
    ) -> (r: bool)
        ensures
            final(self).display_mode == old(self).display_mode,
            final(self).connection == old(self).connection,
            match loaded {
                Ok((ssid, password)) => {
                    &&& r
                    &&& final(self).ssid == Some(ssid)
                    &&& final(self).password == Some(password)
                },
                Err(_) => {
                    &&& !r
                    &&& final(self).ssid matches Some(ssid) && crate::short_text::ssid_of(
                        ssid,
                    ) == DEFAULT_SSID@
                    &&& final(self).password matches Some(p) && crate::short_text::text_of(p)
                        == DEFAULT_PASSWORD@
                },
            },
    {
        match loaded {
            Ok((ssid, password)) => {
                self.ssid = Some(ssid);
                self.password = Some(password);
                true
            },
            Err(_) => {
                self.ssid = default_ssid();
                self.password = default_password();
                false
            },
        }
    }

    /// Ends a session: a notification, or an error. The mode to store, if it
    /// was set, is returned with what follows.
    pub fn on_session_end(&mut self, end: Result<NotificationType, MqttSessionError>) -> (r: (
        SessionEnd,
        Option<DisplayMode>,
    ))
        ensures
            final(self).connection == old(self).connection,
            final(self).password == old(self).password,
            end == Ok::<NotificationType, MqttSessionError>(NotificationType::WifiCredentials)
                ==> final(self).ssid is None,
            end != Ok::<NotificationType, MqttSessionError>(NotificationType::WifiCredentials)
                ==> final(self).ssid == old(self).ssid,
            match end {
                Ok(n) => {
                    &&& r.0 == SessionEnd::Rest
                    &&& r.1 == (if n is DisplayText || n is DisplayURL {
                        Some(mode_for(n))
                    } else {
                        None
                    })
                    &&& final(self).display_mode == (if n is DisplayText || n is DisplayURL {
                        mode_for(n)
                    } else {
                        old(self).display_mode
                    })
                },
                Err(e) => {
                    &&& r.0 == (if e == MqttSessionError::OtaRequested {
                        SessionEnd::RunOta
                    } else {
                        SessionEnd::Rest
                    })
                    &&& r.1 is None
                    &&& final(self).display_mode == old(self).display_mode
                },
            },
    {
        match end {
            Ok(NotificationType::DisplayText) => {
                self.display_mode = DisplayMode::CustomText;
                (SessionEnd::Rest, Some(DisplayMode::CustomText))
            },
            Ok(NotificationType::DisplayURL) => {
                self.display_mode = DisplayMode::QRCode;
                (SessionEnd::Rest, Some(DisplayMode::QRCode))
            },
            Ok(NotificationType::LiveSecureUpdates) => (SessionEnd::Rest, None),
            Ok(NotificationType::WifiCredentials) => {
                self.ssid = None;
                (SessionEnd::Rest, None)
            },
            Err(MqttSessionError::OtaRequested) => (SessionEnd::RunOta, None),
            Err(_) => (SessionEnd::Rest, None),
        }
    }
}

/// The name of the default network.
fn default_ssid() -> (r: Option<heapless::String<32>>)
    ensures
        r matches Some(ssid) && crate::short_text::ssid_of(ssid) == DEFAULT_SSID@,
{
    proof {
        reveal_strlit("HONESTWIFI-2325-2G");
        vstd::utf8::is_ascii_chars_encode_utf8(DEFAULT_SSID@);
    }
    ssid_text(DEFAULT_SSID)
}

/// The password of the default network.
fn default_password() -> (r: Option<heapless::String<64>>)
    ensures
        r matches Some(p) && crate::short_text::text_of(p) == DEFAULT_PASSWORD@,
{
    proof {
        reveal_strlit("9526070855!");
        vstd::utf8::is_ascii_chars_encode_utf8(DEFAULT_PASSWORD@);
    }
    short_text(DEFAULT_PASSWORD)
}

/// What follows from an update: whether one had been announced, and whether it
/// succeeded.
pub fn after_ota(announced: bool, ok: bool) -> (r: OtaEnd)
    ensures
        r == (if !announced {
            OtaEnd::Rest
        } else if ok {
            OtaEnd::Reboot
        } else {
            OtaEnd::ShowFailureAndReboot
        }),
{
    if !announced {
        OtaEnd::Rest
    } else if ok {
        OtaEnd::Reboot
    } else {
        OtaEnd::ShowFailureAndReboot
    }
}

/// What the WiFi task is to do next.
#[derive(Debug, Clone, Copy, PartialEq, Eq, Structural)]
pub enum RunnerAction {
    /// See whether there is a notification.
    PollNotification,
    /// Load the stored text and hand it to the display.
    LoadText,
    /// Load the stored address and hand it to the display.
    LoadUrl,
    /// Turn WiFi off, if it is on.
    StopIfStarted,
    /// Wait for a notification.
    AwaitChange,
    /// Load the credentials.
    LoadCredentials,
    /// Turn WiFi on, unless it is on; with the flag, first turn it off if it
    /// is on.
    StartWifi(bool),
    /// Connect to the network.
    Connect,
    /// Talk to the broker.
    RunSession,
    /// Show that an update is installed, and install it.
    RunOta,
    /// Turn WiFi off.
    ShutDown,
    /// Turn WiFi off, and wait for the next refresh.
    ShutDownUntilRefresh,
    /// Wait before the next attempt.
    WaitToRetry,
    /// Restart.
    Reboot,
    /// Show that an update failed, and restart.
    ShowFailureAndReboot,
}

/// What came of the last action.
#[derive(Debug)]
pub enum RunnerEvent {
    /// The notification that is to be handled.
    Notified(Option<NotificationType>),
    /// Whether the text or address could be loaded.
    ContentLoaded(bool),
    /// WiFi is off, or a notification came, or the time to wait is over.
    Continue,
    /// The credentials, or why there are none.
    Credentials(Result<(heapless::String<32>, heapless::String<64>), &'static str>),
    /// Whether WiFi could be turned on.
    Started(bool),
    /// Whether the network could be connected to.
    Connected(bool),
    /// How the session ended.
    SessionEnded(Result<NotificationType, MqttSessionError>),
    /// Whether an update had been announced, and whether it succeeded.
    OtaDone(bool, bool),
    /// WiFi is off after a session.
    ShutDown,
}

/// What the WiFi task is to do.
#[derive(Debug, Clone, Copy, PartialEq, Eq)]
pub struct RunnerStep {
    /// Mode to store first.
    pub store_mode: Option<DisplayMode>,
    /// Screen to show first, and flag to store with it.
    pub show: Option<(Screen, bool)>,
    /// What to do then.
    pub action: RunnerAction,
}

/// A step that only acts.
pub open spec fn plain_step(action: RunnerAction) -> RunnerStep {
    RunnerStep { store_mode: None, show: None, action }
}

impl WifiRunner {
    /// Nothing but the mode may differ.
    pub open spec fn same_but_mode(&self, before: WifiRunner) -> bool {
        &&& self.ssid == before.ssid
        &&& self.password == before.password
        &&& self.connection == before.connection
    }

    /// What follows from a notification, or none: the content it announces is
    /// loaded, or, in live mode, the device goes online, with new credentials
    /// if it has none or there are new ones; or else it waits.
    pub open spec fn notified(&self, notification: Option<NotificationType>) -> RunnerStep {
        let mode = match notification {
            Some(n) => mode_for(n),
            None => self.display_mode,
        };
        RunnerStep {
            store_mode: match notification {
                Some(n) => Some(mode),
                None => None,
            },
            show: None,
            action: if notification == Some(NotificationType::DisplayText) {
                RunnerAction::LoadText
            } else if notification == Some(NotificationType::DisplayURL) {
                RunnerAction::LoadUrl
            } else if mode != DisplayMode::LiveUpdates {
                RunnerAction::AwaitChange
            } else if self.ssid is None || notification == Some(
                NotificationType::WifiCredentials,
            ) {
                RunnerAction::LoadCredentials
            } else {
                RunnerAction::StartWifi(false)
            },
        }
    }

    /// Takes in what came of the last action, and returns what to do next. The
    /// first action is to poll for a notification.
    pub fn step(&mut self, event: RunnerEvent) -> (r: RunnerStep)
        ensures
            match event {
                RunnerEvent::Notified(n) => {
                    &&& r == old(self).notified(n)
                    &&& final(self).same_but_mode(*old(self))
                    &&& final(self).display_mode == (match n {
                        Some(n) => mode_for(n),
                        None => old(self).display_mode,
                    })
                },
                RunnerEvent::ContentLoaded(ok) => {
                    &&& r.action == RunnerAction::StopIfStarted
                    &&& r.show is None
                    &&& r.store_mode == (if ok {
                        None
                    } else {
                        Some(DisplayMode::LiveUpdates)
                    })
                    &&& final(self).same_but_mode(*old(self))
                    &&& final(self).display_mode == (if ok {
                        old(self).display_mode
                    } else {
                        DisplayMode::LiveUpdates
                    })
                },
                RunnerEvent::Continue => r == plain_step(RunnerAction::PollNotification)
                    && *final(self) == *old(self),
                RunnerEvent::Credentials(loaded) => {
                    &&& r == plain_step(RunnerAction::StartWifi(loaded is Ok))
                    &&& final(self).display_mode == old(self).display_mode
                    &&& final(self).connection == old(self).connection
                    &&& match loaded {
                        Ok((ssid, password)) => {
                            &&& final(self).ssid == Some(ssid)
                            &&& final(self).password == Some(password)
                        },
                        Err(_) => {
                            &&& final(self).ssid matches Some(ssid) && crate::short_text::ssid_of(
                        ssid,
                    ) == DEFAULT_SSID@
                            &&& final(self).password matches Some(p) && crate::short_text::text_of(
                                p,
                            ) == DEFAULT_PASSWORD@
                        },
                    }
                },
                RunnerEvent::Started(ok) => *final(self) == *old(self) && r == plain_step(
                    if ok {
                        RunnerAction::Connect
                    } else {
                        RunnerAction::WaitToRetry
                    },
                ),
                RunnerEvent::Connected(true) => {
                    &&& r == (RunnerStep {
                        store_mode: None,
                        show: if old(self).connection.after_success().1 {
                            Some((Screen::WifiConnected, false))
                        } else {
                            None
                        },
                        action: if old(self).display_mode == DisplayMode::LiveUpdates {
                            RunnerAction::RunSession
                        } else {
                            RunnerAction::ShutDownUntilRefresh
                        },
                    })
                    &&& *final(self) == (WifiRunner {
                        connection: old(self).connection.after_success().0,
                        ..*old(self)
                    })
                },
                RunnerEvent::Connected(false) => {
                    &&& r == (RunnerStep {
                        store_mode: None,
                        show: old(self).connection.shown_on_failure(),
                        action: RunnerAction::WaitToRetry,
                    })
                    &&& *final(self) == (WifiRunner {
                        connection: old(self).connection.after_failure().0,
                        ..*old(self)
                    })
                },
                RunnerEvent::SessionEnded(end) => {
                    let left = end matches Ok(n) && (n is DisplayText || n is DisplayURL);
                    &&& r == (RunnerStep {
                        store_mode: if left {
                            Some(mode_for(end->Ok_0))
                        } else {
                            None
                        },
                        show: None,
                        action: if end == Err::<NotificationType, MqttSessionError>(
                            MqttSessionError::OtaRequested,
                        ) {
                            RunnerAction::RunOta
                        } else {
                            RunnerAction::ShutDown
                        },
                    })
                    &&& *final(self) == (WifiRunner {
                        ssid: if end == Ok::<NotificationType, MqttSessionError>(
                            NotificationType::WifiCredentials,
                        ) {
                            None
                        } else {
                            old(self).ssid
                        },
                        display_mode: if left {
                            mode_for(end->Ok_0)
                        } else {
                            old(self).display_mode
                        },
                        ..*old(self)
                    })
                },
                RunnerEvent::OtaDone(announced, ok) => *final(self) == *old(self) && r
                    == plain_step(
                    if !announced {
                        RunnerAction::ShutDown
                    } else if ok {
                        RunnerAction::Reboot
                    } else {
                        RunnerAction::ShowFailureAndReboot
                    },
                ),
                RunnerEvent::ShutDown => *final(self) == *old(self) && r == plain_step(
                    RunnerAction::WaitToRetry,
                ),
            },
    {
        let mut store_mode: Option<DisplayMode> = None;
        let mut show: Option<(Screen, bool)> = None;
        let action: RunnerAction = match event {
            RunnerEvent::Notified(n) => {
                let (next, mode): (NotificationStep, Option<DisplayMode>) = self.on_notification(n);
                store_mode = mode;
                match next {
                    NotificationStep::ShowText => RunnerAction::LoadText,
                    NotificationStep::ShowUrl => RunnerAction::LoadUrl,
                    NotificationStep::Proceed(updated) => if !self.goes_online() {
                        RunnerAction::AwaitChange
                    } else if self.needs_credentials(updated) {
                        RunnerAction::LoadCredentials
                    } else {
                        RunnerAction::StartWifi(false)
                    },
                }
            },
            RunnerEvent::ContentLoaded(ok) => {
                store_mode = self.on_content_loaded(ok);
                RunnerAction::StopIfStarted
            },
            RunnerEvent::Continue => RunnerAction::PollNotification,
            RunnerEvent::Credentials(loaded) => RunnerAction::StartWifi(self.on_credentials(loaded)),
            RunnerEvent::Started(ok) => if ok {
                RunnerAction::Connect
            } else {
                RunnerAction::WaitToRetry
            },
            RunnerEvent::Connected(ok) => if ok {
                show = self.connection.on_connected();
                if self.goes_online() {
                    RunnerAction::RunSession
                } else {
                    RunnerAction::ShutDownUntilRefresh
                }
            } else {
                show = self.connection.on_connect_failed();
                RunnerAction::WaitToRetry
            },
            RunnerEvent::SessionEnded(end) => {
                let (next, mode): (SessionEnd, Option<DisplayMode>) = self.on_session_end(end);
                store_mode = mode;
                match next {
                    SessionEnd::Rest => RunnerAction::ShutDown,
                    SessionEnd::RunOta => RunnerAction::RunOta,
                }
            },
            RunnerEvent::OtaDone(announced, ok) => match after_ota(announced, ok) {
                OtaEnd::Rest => RunnerAction::ShutDown,
                OtaEnd::Reboot => RunnerAction::Reboot,
                OtaEnd::ShowFailureAndReboot => RunnerAction::ShowFailureAndReboot,
            },
            RunnerEvent::ShutDown => RunnerAction::WaitToRetry,
        };
        RunnerStep { store_mode, show, action }
    }
}

/// The device goes online only in live mode: in the modes for content that
/// came by NFC, WiFi stays off.
pub proof fn law_online_only_in_live_mode(
    runner: WifiRunner,
    notification: Option<NotificationType>,
)
    ensures
        ({
            let r = runner.notified(notification);
            let mode = match notification {
                Some(n) => mode_for(n),
                None => runner.display_mode,
            };
            r.action is LoadCredentials || r.action is StartWifi ==> mode
                == DisplayMode::LiveUpdates
        }),
{
}

// =============================================================================
// What the WiFi task is for
// =============================================================================

/// New credentials are taken in: whatever the task remembers, the notification
/// of them is followed by loading them, and the device is in live mode, which
/// is stored.
pub proof fn law_new_credentials_are_loaded(runner: &mut WifiRunner, r: RunnerStep)
    requires
        call_ensures(
            WifiRunner::step,
            (runner, RunnerEvent::Notified(Some(NotificationType::WifiCredentials))),
            r,
        ),
    ensures
        r.action == RunnerAction::LoadCredentials,
        final(runner).display_mode == DisplayMode::LiveUpdates,
        r.store_mode == Some(DisplayMode::LiveUpdates),
        final(runner).ssid == old(runner).ssid,
        final(runner).connection == old(runner).connection,
        r.show is None,
{
}

/// A text or an address that came by NFC is loaded for the display, and its
/// mode is the one that the device comes back in.
pub proof fn law_content_is_loaded(
    runner: &mut WifiRunner,
    n: NotificationType,
    r: RunnerStep,
)
    requires
        call_ensures(WifiRunner::step, (runner, RunnerEvent::Notified(Some(n))), r),
    ensures
        r.action == RunnerAction::LoadText <==> n == NotificationType::DisplayText,
        r.action == RunnerAction::LoadUrl <==> n == NotificationType::DisplayURL,
        n == NotificationType::DisplayText ==> final(runner).display_mode
            == DisplayMode::CustomText,
        n == NotificationType::DisplayURL ==> final(runner).display_mode == DisplayMode::QRCode,
        n == NotificationType::LiveSecureUpdates || n == NotificationType::WifiCredentials
            ==> final(runner).display_mode == DisplayMode::LiveUpdates,
        r.store_mode == Some(final(runner).display_mode),
        r.show is None,
        final(runner).ssid == old(runner).ssid && final(runner).password == old(runner).password,
{
}

/// After a notification, or none, the device goes online exactly in live mode,
/// and with credentials: it loads them if it has none, or there are new ones.
/// In the other modes it waits. Nothing is stored or shown where nothing was
/// announced.
pub proof fn law_online_in_live_mode(
    runner: &mut WifiRunner,
    n: Option<NotificationType>,
    r: RunnerStep,
)
    requires
        call_ensures(WifiRunner::step, (runner, RunnerEvent::Notified(n)), r),
    ensures
        n is None ==> r.store_mode is None && *final(runner) == *old(runner),
        r.show is None,
        ({
            let content = n == Some(NotificationType::DisplayText) || n == Some(
                NotificationType::DisplayURL,
            );
            let live = final(runner).display_mode == DisplayMode::LiveUpdates;
            let online = r.action is LoadCredentials || r.action is StartWifi;
            &&& !content ==> (online <==> live)
            &&& content ==> !online
            &&& !content && !live ==> r.action == RunnerAction::AwaitChange
            &&& r.action is StartWifi ==> final(runner).ssid is Some && n != Some(
                NotificationType::WifiCredentials,
            ) && r.action == RunnerAction::StartWifi(false)
            &&& old(runner).ssid is None && live && !content ==> r.action is LoadCredentials
        }),
{
}

/// WiFi is turned off for content, and the device falls back to live updates,
/// for good, where the content cannot be loaded.
pub proof fn law_content_turns_wifi_off(runner: &mut WifiRunner, ok: bool, r: RunnerStep)
    requires
        call_ensures(WifiRunner::step, (runner, RunnerEvent::ContentLoaded(ok)), r),
    ensures
        r.action == RunnerAction::StopIfStarted,
        r.show is None,
        ok ==> r.store_mode is None && *final(runner) == *old(runner),
        !ok ==> r.store_mode == Some(DisplayMode::LiveUpdates) && final(runner).display_mode
            == DisplayMode::LiveUpdates,
        final(runner).ssid == old(runner).ssid && final(runner).password == old(runner).password,
        final(runner).connection == old(runner).connection,
{
}

/// The credentials that were loaded are the ones that are used from then on,
/// and WiFi is restarted for them. Where there are none, the default network is
/// used.
pub proof fn law_loaded_credentials_are_used(
    runner: &mut WifiRunner,
    loaded: Result<(heapless::String<32>, heapless::String<64>), &'static str>,
    r: RunnerStep,
)
    requires
        call_ensures(WifiRunner::step, (runner, RunnerEvent::Credentials(loaded)), r),
    ensures
        final(runner).ssid is Some && final(runner).password is Some,
        r.action == RunnerAction::StartWifi(loaded is Ok),
        r.store_mode is None && r.show is None,
        loaded matches Ok((ssid, password)) ==> {
            &&& crate::short_text::ssid_of(final(runner).ssid.unwrap())
                == crate::short_text::ssid_of(ssid)
            &&& crate::short_text::text_of(final(runner).password.unwrap())
                == crate::short_text::text_of(password)
        },
        loaded is Err ==> {
            &&& crate::short_text::ssid_of(final(runner).ssid.unwrap()) == "HONESTWIFI-2325-2G"@
            &&& crate::short_text::text_of(final(runner).password.unwrap()) == "9526070855!"@
        },
        final(runner).display_mode == old(runner).display_mode,
        final(runner).connection == old(runner).connection,
{
}

/// The way online: WiFi that is on leads to a connection, a connection in live
/// mode to a session, and whatever fails is tried again later.
pub proof fn law_way_online(
    runner: &mut WifiRunner,
    event: RunnerEvent,
    r: RunnerStep,
)
    requires
        call_ensures(WifiRunner::step, (runner, event), r),
    ensures
        r.action == RunnerAction::Connect <==> event == RunnerEvent::Started(true),
        r.action == RunnerAction::RunSession <==> event == RunnerEvent::Connected(true) && old(
            runner,
        ).display_mode == DisplayMode::LiveUpdates,
        r.action == RunnerAction::ShutDownUntilRefresh <==> event == RunnerEvent::Connected(true)
            && old(runner).display_mode != DisplayMode::LiveUpdates,
        r.action == RunnerAction::WaitToRetry <==> event == RunnerEvent::Started(false) || event
            == RunnerEvent::Connected(false) || event is ShutDown,
        r.action == RunnerAction::PollNotification <==> event is Continue,
        event is Started || event is Continue || event is ShutDown ==> *final(runner) == *old(
            runner,
        ) && r.store_mode is None && r.show is None,
{
}

/// What a connection attempt shows. That the connection is lost is shown when
/// the display does not say so yet, except on the first attempt after a power
/// failure; that it is back is shown when the display says that it is lost. The
/// flag that is stored tells which of the two is on the display.
pub proof fn law_connection_is_reported(runner: &mut WifiRunner, ok: bool, r: RunnerStep)
    requires
        call_ensures(WifiRunner::step, (runner, RunnerEvent::Connected(ok)), r),
    ensures
        r.store_mode is None,
        r.show matches Some((screen, flag)) ==> flag == !ok && screen == (if ok {
            Screen::WifiConnected
        } else {
            Screen::WifiDisconnected
        }),
        ok ==> (r.show is Some <==> !old(runner).connection.previously_connected),
        !ok ==> (r.show is Some <==> old(runner).connection.previously_connected && !old(
            runner,
        ).connection.skip_error_on_first_attempt),
        ok ==> final(runner).connection.previously_connected,
        !final(runner).connection.skip_error_on_first_attempt,
        // What is on the display is remembered.
        !ok ==> final(runner).connection.previously_connected == (old(
            runner,
        ).connection.previously_connected && r.show is None),
        final(runner).display_mode == old(runner).display_mode,
        final(runner).ssid == old(runner).ssid && final(runner).password == old(runner).password,
{
}

/// How a session ends: an update that was announced is installed; in every
/// other case WiFi is turned off. A text or an address changes the mode for
/// good. New credentials make the task forget the old ones, so that they are
/// loaded before it goes online again.
pub proof fn law_session_end(
    runner: &mut WifiRunner,
    end: Result<NotificationType, MqttSessionError>,
    r: RunnerStep,
)
    requires
        call_ensures(WifiRunner::step, (runner, RunnerEvent::SessionEnded(end)), r),
    ensures
        r.action == RunnerAction::RunOta <==> end == Err::<NotificationType, MqttSessionError>(
            MqttSessionError::OtaRequested,
        ),
        r.action == RunnerAction::RunOta || r.action == RunnerAction::ShutDown,
        r.show is None,
        end == Ok::<NotificationType, MqttSessionError>(NotificationType::DisplayText)
            ==> final(runner).display_mode == DisplayMode::CustomText && r.store_mode == Some(
            DisplayMode::CustomText,
        ),
        end == Ok::<NotificationType, MqttSessionError>(NotificationType::DisplayURL)
            ==> final(runner).display_mode == DisplayMode::QRCode && r.store_mode == Some(
            DisplayMode::QRCode,
        ),
        end is Err || end->Ok_0 == NotificationType::LiveSecureUpdates || end->Ok_0
            == NotificationType::WifiCredentials ==> final(runner).display_mode == old(
            runner,
        ).display_mode && r.store_mode is None,
        end == Ok::<NotificationType, MqttSessionError>(NotificationType::WifiCredentials)
            ==> final(runner).ssid is None,
        end != Ok::<NotificationType, MqttSessionError>(NotificationType::WifiCredentials)
            ==> final(runner).ssid == old(runner).ssid,
        final(runner).connection == old(runner).connection,
        final(runner).password == old(runner).password,
{
}

/// After an update the device restarts: into the new firmware where it was
/// installed, and with a word about the failure where it was not. Where no
/// update had been announced, it does not restart.
pub proof fn law_restart_after_update(
    runner: &mut WifiRunner,
    announced: bool,
    ok: bool,
    r: RunnerStep,
    end: OtaEnd,
)
    requires
        call_ensures(WifiRunner::step, (runner, RunnerEvent::OtaDone(announced, ok)), r),
        call_ensures(after_ota, (announced, ok), end),
    ensures
        r.action == RunnerAction::Reboot <==> announced && ok,
        r.action == RunnerAction::ShowFailureAndReboot <==> announced && !ok,
        r.action == RunnerAction::ShutDown <==> !announced,
        end == OtaEnd::Reboot <==> announced && ok,
        end == OtaEnd::ShowFailureAndReboot <==> announced && !ok,
        end == OtaEnd::Rest <==> !announced,
        *final(runner) == *old(runner) && r.store_mode is None && r.show is None,
{
}

/// The task begins in the mode that was stored, without credentials. It takes
/// the display to report a lost connection exactly where the flag says so, and
/// leaves out the first failure exactly after a power failure.
pub proof fn law_start(
    error_shown: bool,
    mode: DisplayMode,
    reason: ResetReason,
    r: WifiRunner,
    c: Connection,
)
    requires
        call_ensures(WifiRunner::new, (error_shown, mode, reason), r),
        call_ensures(Connection::new, (error_shown, reason), c),
    ensures
        r.ssid is None,
        r.display_mode == mode,
        r.connection == c,
        c.previously_connected <==> !error_shown,
        c.skip_error_on_first_attempt <==> reason != ResetReason::Other,
{
}

/// Each operation of the runner does what its step does with the matching event.
pub proof fn law_operations_of_runner(
    a: &mut WifiRunner,
    n: Option<NotificationType>,
    next: (NotificationStep, Option<DisplayMode>),
    b: &mut WifiRunner,
    ok: bool,
    stored: Option<DisplayMode>,
    c: &WifiRunner,
    online: bool,
    updated: bool,
    needed: bool,
)
    requires
        call_ensures(WifiRunner::on_notification, (a, n), next),
        call_ensures(WifiRunner::on_content_loaded, (b, ok), stored),
        call_ensures(WifiRunner::goes_online, (c,), online),
        call_ensures(WifiRunner::needs_credentials, (c, updated), needed),
    ensures
        next.0 == NotificationStep::ShowText <==> n == Some(NotificationType::DisplayText),
        next.0 == NotificationStep::ShowUrl <==> n == Some(NotificationType::DisplayURL),
        next.0 == NotificationStep::Proceed(true) <==> n == Some(NotificationType::WifiCredentials),
        next.1 is Some <==> n is Some,
        next.1 matches Some(mode) ==> final(a).display_mode == mode,
        stored is None <==> ok,
        !ok ==> final(b).display_mode == DisplayMode::LiveUpdates,
        online <==> c.display_mode == DisplayMode::LiveUpdates,
        !needed ==> c.ssid is Some && !updated,
        needed ==> c.ssid is None || updated,
{
}

/// A notification is not lost: a new one is handled first, and where the tag
/// was written again with a record of the same kind, the latest one is.
pub proof fn law_notifications_are_not_lost(
    changed: Option<NotificationType>,
    again: bool,
    latest: Option<NotificationType>,
    r: Option<NotificationType>,
)
    requires
        call_ensures(pending_notification, (changed, again, latest), r),
    ensures
        changed is Some ==> r == changed,
        changed is None && again ==> r == latest,
        changed is None && !again ==> r is None,
{
}

/// The setup goes through its steps in order, none is left out, and none is
/// done twice: each step is followed by the one that is declared after it. The
/// firmware is confirmed, and stored topics are restored, only after all of the
/// device's own topics were subscribed to.
pub proof fn law_setup_order(step: SetupStep, ok: bool, r: Result<SetupStep, MqttSessionError>)
    requires
        call_ensures(next_setup_step, (step, ok), r),
    ensures
        r == Ok::<SetupStep, MqttSessionError>(SetupStep::Resolve) ==> step == SetupStep::Address,
        r == Ok::<SetupStep, MqttSessionError>(SetupStep::Connect) ==> step == SetupStep::Resolve
            && ok,
        r == Ok::<SetupStep, MqttSessionError>(SetupStep::OpenTls) ==> step == SetupStep::Connect
            && ok,
        r == Ok::<SetupStep, MqttSessionError>(SetupStep::Handshake) ==> step == SetupStep::OpenTls
            && ok,
        r == Ok::<SetupStep, MqttSessionError>(SetupStep::Login) ==> step == SetupStep::Handshake
            && ok,
        r == Ok::<SetupStep, MqttSessionError>(SetupStep::MakeTopics) ==> step == SetupStep::Login
            && ok,
        r == Ok::<SetupStep, MqttSessionError>(SetupStep::SubscribeRaw) ==> step
            == SetupStep::MakeTopics && ok,
        r == Ok::<SetupStep, MqttSessionError>(SetupStep::SubscribeConfig) ==> step
            == SetupStep::SubscribeRaw && ok,
        r == Ok::<SetupStep, MqttSessionError>(SetupStep::SubscribePing) ==> step
            == SetupStep::SubscribeConfig && ok,
        r == Ok::<SetupStep, MqttSessionError>(SetupStep::SubscribeOta) ==> step
            == SetupStep::SubscribePing && ok,
        r == Ok::<SetupStep, MqttSessionError>(SetupStep::SubscribeBroadcast) ==> step
            == SetupStep::SubscribeOta && ok,
        r == Ok::<SetupStep, MqttSessionError>(SetupStep::ConfirmBoot) ==> step
            == SetupStep::SubscribeBroadcast && ok,
        r == Ok::<SetupStep, MqttSessionError>(SetupStep::Restore) ==> step
            == SetupStep::ConfirmBoot,
        r == Ok::<SetupStep, MqttSessionError>(SetupStep::Serve) ==> step == SetupStep::Restore
            || step == SetupStep::Serve,
        ok ==> r is Ok,
        r != Ok::<SetupStep, MqttSessionError>(SetupStep::Uplink),
        r == Ok::<SetupStep, MqttSessionError>(step) ==> step == SetupStep::Serve,
{
}

/// A step of the setup that fails ends the session with the error of that step;
/// confirming the firmware and restoring topics do not.
pub proof fn law_setup_faults(step: SetupStep, r: Result<SetupStep, MqttSessionError>)
    requires
        call_ensures(next_setup_step, (step, false), r),
    ensures
        step == SetupStep::Uplink || step == SetupStep::Address || step == SetupStep::ConfirmBoot
            || step == SetupStep::Restore || step == SetupStep::Serve <==> r is Ok,
        r matches Err(e) ==> {
            &&& e == MqttSessionError::DnsLookupFailed <==> step == SetupStep::Resolve
            &&& e == MqttSessionError::TcpConnectFailed <==> step == SetupStep::Connect
            &&& e == MqttSessionError::TlsFailed <==> step == SetupStep::OpenTls || step
                == SetupStep::Handshake
            &&& e == MqttSessionError::MqttConnectFailed <==> step == SetupStep::Login
            &&& e == MqttSessionError::TopicFormatError <==> step == SetupStep::MakeTopics
            &&& e == MqttSessionError::SubscriptionFailed <==> step == SetupStep::SubscribeRaw
                || step == SetupStep::SubscribeConfig || step == SetupStep::SubscribePing || step
                == SetupStep::SubscribeOta || step == SetupStep::SubscribeBroadcast
        },
{
}

/// New firmware is confirmed, once, and only after the screen for it was shown;
/// firmware that is confirmed already is left alone.
pub proof fn law_firmware_is_confirmed(
    unconfirmed: bool,
    index: usize,
    step: Option<BootStep>,
    first: Option<BootStep>,
    second: Option<BootStep>,
)
    requires
        call_ensures(boot_step, (unconfirmed, index), step),
        call_ensures(boot_step, (unconfirmed, 0usize), first),
        call_ensures(boot_step, (unconfirmed, 1usize), second),
    ensures
        !unconfirmed ==> step is None,
        unconfirmed ==> first == Some(BootStep::ShowComplete) && second == Some(BootStep::Confirm),
        index > 1 ==> step is None,
{
}

/// The topics of a device are its name followed by a fixed path, and there are
/// some whenever they fit in 64 bytes. No two of them are the same.
pub proof fn law_topics_of_a_device(
    client_id: &str,
    r: Result<SessionTopics, MqttSessionError>,
)
    requires
        call_ensures(SessionTopics::new, (client_id,), r),
    ensures
        vstd::utf8::encode_utf8(client_id@).len() <= 50 ==> r is Ok,
        vstd::utf8::encode_utf8(client_id@).len() > 50 ==> r == Err::<
            SessionTopics,
            MqttSessionError,
        >(MqttSessionError::TopicFormatError),
        r matches Ok(t) ==> {
            &&& crate::short_text::text_of(t.raw) == client_id@ + "/root/raw"@
            &&& crate::short_text::text_of(t.config) == client_id@ + "/root/config"@
            &&& crate::short_text::text_of(t.response) == client_id@ + "/root/response"@
            &&& crate::short_text::text_of(t.ping) == client_id@ + "/root/ping"@
            &&& crate::short_text::text_of(t.ota) == client_id@ + "/root/ota"@
        },
{
    lemma_suffix_size(client_id@, "/root/response");
    reveal_strlit("/root/response");
    if vstd::utf8::encode_utf8(client_id@).len() <= 50 {
        law_short_names_have_topics(client_id@);
    }
}

/// A topic is made of a name and a path whenever both together take at most 64
/// bytes.
pub proof fn law_topic_is_name_and_path(
    client_id: &str,
    path: &str,
    r: Option<heapless::String<64>>,
)
    requires
        call_ensures(make_topic, (client_id, path), r),
    ensures
        r is Some <==> vstd::utf8::encode_utf8(client_id@).len() + vstd::utf8::encode_utf8(
            path@,
        ).len() <= 64,
        r matches Some(topic) ==> crate::short_text::text_of(topic) == client_id@ + path@,
{
    crate::text::lemma_encode_concat(client_id@, path@);
}

/// A session begins with what is stored: the topics, the interval, or no limit,
/// and the time of the last update. Nothing waits to be changed.
pub proof fn law_session_start(
    topics: SessionTopics,
    saved: heapless::Vec<heapless::String<64>, 4>,
    interval: Option<u32>,
    last: Option<u64>,
    r: LiveSession,
)
    requires
        call_ensures(LiveSession::new, (topics, saved, interval, last), r),
    ensures
        r.topics == topics,
        r.subscriptions@.topics == crate::short_text::texts_of(saved),
        r.subscriptions@.subscribe is None && r.subscriptions@.unsubscribe is None,
        !r.subscriptions@.clear && !r.subscriptions@.changed && !r.subscriptions@.keeps_refused,
        interval matches Some(n) ==> r.min_update_interval_secs == n,
        interval is None ==> r.min_update_interval_secs == 0,
        r.last_update_unix_ts == last,
{
}

/// A message is what its topic says: each of the device's own topics has its
/// use, updates for all devices come on `public/ota`, a topic that was
/// subscribed to on request carries frames, and nothing else is taken in.
pub proof fn law_messages_by_topic(
    session: &LiveSession,
    client_id: Seq<char>,
    topic: &str,
    route: Route,
    action: SessionAction,
)
    requires
        session.topics.belong_to(client_id),
        call_ensures(LiveSession::route, (session, topic), route),
        call_ensures(LiveSession::on_event, (session, SessionEvent::Message(topic)), action),
    ensures
        topic@ == client_id + "/root/raw"@ ==> action == SessionAction::TakeChunk,
        topic@ == client_id + "/root/config"@ ==> action == SessionAction::TakeConfig,
        topic@ == client_id + "/root/ping"@ ==> action == SessionAction::Respond,
        topic@ == client_id + "/root/ota"@ ==> action == SessionAction::BeginOta,
        topic@ == "public/ota"@ ==> action == SessionAction::BeginOta || topic@ == client_id
            + "/root/raw"@ || topic@ == client_id + "/root/config"@ || topic@ == client_id
            + "/root/ping"@,
        action == SessionAction::TakeChunkIfDue ==> session.subscriptions@.topics.contains(topic@),
        action == SessionAction::Ignore ==> !session.subscriptions@.topics.contains(topic@),
        action == SessionAction::BeginOta ==> topic@ == client_id + "/root/ota"@ || topic@
            == "public/ota"@,
        action == SessionAction::TakeConfig ==> topic@ == client_id + "/root/config"@,
        action == SessionAction::TakeChunk ==> topic@ == client_id + "/root/raw"@,
        action == SessionAction::Respond ==> topic@ == client_id + "/root/ping"@,
        !(action is Leave) && !(action is Fail) && !(action is SendPing),
        route == Route::Raw <==> action == SessionAction::TakeChunk,
        route == Route::Config <==> action == SessionAction::TakeConfig,
        route == Route::Ping <==> action == SessionAction::Respond,
        route == Route::Ota <==> action == SessionAction::BeginOta,
        route == Route::Live <==> action == SessionAction::TakeChunkIfDue,
        route == Route::Unknown <==> action == SessionAction::Ignore,
{
    law_own_topics_come_first(*session, client_id);
}

/// What else a session reacts to: a notification ends it, and is handed on;
/// when it is time, a ping is sent; an error ends it unless it is harmless, and
/// then the time of the last update is stored first.
pub proof fn law_session_events(
    session: &LiveSession,
    n: NotificationType,
    harmless: bool,
    notified: SessionAction,
    due: SessionAction,
    failed: SessionAction,
    error: Option<(MqttSessionError, Option<u64>)>,
)
    requires
        call_ensures(LiveSession::on_event, (session, SessionEvent::Notified(n)), notified),
        call_ensures(LiveSession::on_event, (session, SessionEvent::PingDue), due),
        call_ensures(LiveSession::on_event, (session, SessionEvent::Failed(harmless)), failed),
        call_ensures(LiveSession::on_receive_error, (session, harmless), error),
    ensures
        notified == SessionAction::Leave(n),
        due == SessionAction::SendPing,
        harmless ==> failed == SessionAction::Ignore && error is None,
        !harmless ==> failed == SessionAction::Fail(
            MqttSessionError::ReceiveError,
            session.last_update_unix_ts,
        ),
        error matches Some((e, last)) ==> failed == SessionAction::Fail(e, last),
        error is None ==> harmless,
{
}

/// A configuration message changes what it names, and nothing else: an interval
/// holds at once and is stored; the number of updates between full refreshes is
/// handed on; the requests for topics are queued; it is answered if its sender
/// wants that. One that cannot be parsed changes nothing and is not answered.
pub proof fn law_configuration(
    session: &mut LiveSession,
    config: Result<ConfigPayload<'_>, &'static str>,
    r: ConfigEffects,
)
    requires
        call_ensures(LiveSession::on_config, (session, config), r),
    ensures
        final(session).topics == old(session).topics,
        final(session).last_update_unix_ts == old(session).last_update_unix_ts,
        final(session).subscriptions@.topics == old(session).subscriptions@.topics,
        final(session).subscriptions@.changed == old(session).subscriptions@.changed,
        r.save_interval matches Some(n) ==> final(session).min_update_interval_secs == n,
        r.save_interval is None ==> final(session).min_update_interval_secs == old(
            session,
        ).min_update_interval_secs,
        match config {
            Ok(c) => {
                &&& r.save_interval == c.min_update_interval
                &&& r.max_cycles == c.max_cycles
                &&& r.respond <==> c.requires_response
                &&& final(session).subscriptions@.clear <==> c.unsubscribe_all || old(
                    session,
                ).subscriptions@.clear
                &&& c.subscribe is None ==> final(session).subscriptions@.subscribe == old(
                    session,
                ).subscriptions@.subscribe
                &&& c.unsubscribe is None ==> final(session).subscriptions@.unsubscribe == old(
                    session,
                ).subscriptions@.unsubscribe
            },
            Err(_) => {
                &&& r.save_interval is None && r.max_cycles is None && !r.respond
                &&& final(session).subscriptions@ == old(session).subscriptions@
            },
        },
{
}

/// A topic that is asked for is queued exactly when it is none of the device's
/// own, takes at most 64 bytes, and, unless all others are dropped, is new and
/// there are fewer than four.
pub proof fn law_requested_topic(
    session: &mut LiveSession,
    config: ConfigPayload<'_>,
    topic: &str,
    r: ConfigEffects,
)
    requires
        call_ensures(LiveSession::on_config, (session, Ok(config)), r),
        config.subscribe == Some(topic),
        old(session).subscriptions@.subscribe is None,
    ensures
        ({
            let own = topic@ == crate::short_text::text_of(old(session).topics.raw) || topic@
                == crate::short_text::text_of(old(session).topics.config) || topic@
                == crate::short_text::text_of(old(session).topics.ping) || topic@
                == crate::short_text::text_of(old(session).topics.ota) || topic@ == "public/ota"@;
            let held = old(session).subscriptions@.topics;
            let allowed = !own && vstd::utf8::encode_utf8(topic@).len() <= 64 && (
            config.unsubscribe_all || !held.contains(topic@) && held.len() < 4);
            final(session).subscriptions@.subscribe == (if allowed {
                Some(topic@)
            } else {
                None
            })
        }),
{
    let reserved = old(session).topics.reserved();
    assert(reserved[0] == crate::short_text::text_of(old(session).topics.raw));
    assert(reserved[1] == crate::short_text::text_of(old(session).topics.config));
    assert(reserved[2] == crate::short_text::text_of(old(session).topics.ping));
    assert(reserved[3] == crate::short_text::text_of(old(session).topics.ota));
    assert(reserved[4] == "public/ota"@);
    if reserved.contains(topic@) {
        let i = choose|i: int| 0 <= i < reserved.len() && reserved[i] == topic@;
        assert(0 <= i < 5);
    }
}

/// The limit on updates: without one, all are taken in; so are the first one
/// and those that do not tell their time. An update that comes at least the
/// interval after the last one is taken in, also up to four seconds early, and
/// one that comes earlier than that is not.
pub proof fn law_update_limit(
    session: &LiveSession,
    metadata: Option<FrameMetadata>,
    r: bool,
)
    requires
        call_ensures(LiveSession::should_process, (session, metadata), r),
    ensures
        session.min_update_interval_secs == 0 ==> r,
        session.last_update_unix_ts is None ==> r,
        metadata is None ==> r,
        metadata matches Some(m) && m.timestamp is None ==> r,
        match (session.last_update_unix_ts, metadata) {
            (Some(last), Some(m)) => m.timestamp matches Some(now) ==> {
                &&& now >= last && now - last + 4 >= session.min_update_interval_secs ==> r
                &&& now >= last && now - last + 4 < session.min_update_interval_secs ==> !r
                &&& now < last && session.min_update_interval_secs > 4 ==> !r
                &&& now < last && session.min_update_interval_secs <= 4 ==> r
            },
            _ => true,
        },
{
}

/// What becomes of a chunk: it is answered as reported; the time of an update
/// is kept and stored once it was taken in with success; all topics are dropped
/// exactly when the report asks for that; a chunk that could not be taken in
/// changes nothing and is not answered.
pub proof fn law_chunk_is_answered(
    session: &mut LiveSession,
    result: Result<ProcessChunkResult, &'static str>,
    r: ChunkEffects,
)
    requires
        call_ensures(LiveSession::on_chunk, (session, result), r),
    ensures
        final(session).topics == old(session).topics,
        final(session).min_update_interval_secs == old(session).min_update_interval_secs,
        final(session).subscriptions@.topics == old(session).subscriptions@.topics,
        final(session).subscriptions@.subscribe == old(session).subscriptions@.subscribe,
        final(session).subscriptions@.unsubscribe == old(session).subscriptions@.unsubscribe,
        r.save_timestamp is Some ==> final(session).last_update_unix_ts == r.save_timestamp,
        r.save_timestamp is None ==> final(session).last_update_unix_ts == old(
            session,
        ).last_update_unix_ts,
        match result {
            Ok(report) => {
                &&& r.respond is Some <==> report.send_response
                &&& r.respond matches Some(success) ==> success == report.success
                &&& r.clear_error <==> report.clears_error
                &&& r.save_timestamp is Some <==> report.send_response && report.success
                    && report.timestamp is Some
                &&& r.save_timestamp is Some ==> r.save_timestamp == report.timestamp
                &&& final(session).subscriptions@.clear <==> report.unsubscribe_all || old(
                    session,
                ).subscriptions@.clear
            },
            Err(_) => r.respond is None && r.save_timestamp is None && !r.clear_error
                && final(session).subscriptions@ == old(session).subscriptions@,
        },
{
}

/// The response is a JSON object whose only field tells success from failure.
pub proof fn law_response(success: bool, r: Vec<u8>)
    requires
        call_ensures(response_json, (success,), r),
    ensures
        success ==> r@ == vstd::utf8::encode_utf8("{\"response\":\"success\"}"@),
        !success ==> r@ == vstd::utf8::encode_utf8("{\"response\":\"error\"}"@),
{
}

/// An announcement of at most 512 bytes is kept whole; of a longer one, the
/// first 512 bytes are.
pub proof fn law_announcement_is_kept(payload: &[u8], r: ([u8; OTA_PAYLOAD_SIZE], usize))
    requires
        call_ensures(stage_ota, (payload,), r),
    ensures
        r.1 <= payload@.len(),
        payload@.len() <= 512 ==> r.1 == payload@.len(),
        payload@.len() > 512 ==> r.1 == 512,
        forall|i: int| 0 <= i < r.1 ==> #[trigger] r.0@[i] == payload@[i],
{
}

/// Each screen has a text of its own, and leads where it says: help where
/// something went wrong, the start where all is well, and the store while the
/// firmware is new.
pub proof fn law_screens(screen: Screen, text: &'static str, link: Link)
    requires
        call_ensures(screen_text, (screen,), text),
        call_ensures(screen_link, (screen,), link),
    ensures
        screen == Screen::WifiDisconnected <==> text@ == WIFI_DISCONNECTED_MSG@,
        screen == Screen::WifiConnected <==> text@ == WIFI_CONNECTED_MSG@,
        screen == Screen::OtaUpdating <==> text@ == OTA_UPDATING_MSG@,
        screen == Screen::OtaComplete <==> text@ == OTA_COMPLETE_MSG@,
        screen == Screen::OtaFailed <==> text@ == OTA_FAILED_MSG@,
        link == Link::Support <==> screen == Screen::WifiDisconnected || screen
            == Screen::OtaFailed,
        link == Link::GetStarted <==> screen == Screen::WifiConnected,
{
    lemma_screens_differ();
}

/// The first letters of the screens.
proof fn lemma_screens_differ()
    ensures
        WIFI_DISCONNECTED_MSG@[5] == 'D' && WIFI_DISCONNECTED_MSG@[0] == 'W',
        WIFI_CONNECTED_MSG@[5] == 'C' && WIFI_CONNECTED_MSG@[0] == 'W',
        OTA_UPDATING_MSG@[0] == 'I',
        OTA_COMPLETE_MSG@[0] == 'A',
        OTA_FAILED_MSG@[0] == 'U',
{
    reveal_strlit(
        "WiFi Disconnected\n\n1. Check router\n   is online\n2. Use 2.4GHz or dual-band supported network\n3. Check password\n\nTap NFC on the back\nusing the app to update or scan QR for help",
    );
    reveal_strlit(
        "WiFi Connected!\n\nFeatures:\n- Upload images\n- Display QR codes\n- Bible verses\n- Clock display\n- Weather updates\n- Stock prices\n- And more!\n\nScan QR to start",
    );
    reveal_strlit(
        "Installing\nupdate...\n\nKeep WiFi on\nand don't unplug.\n\nScan to share\nwith a friend.",
    );
    reveal_strlit(
        "All set!\n\nNext display\ncoming soon,\nor refresh now\nfrom the app.\n\nScan to share\nwith a friend.",
    );
    reveal_strlit(
        "Update didn't\nfinish.\n\nYour device is\nstill fine.\n\nScan to visit\nour help site.",
    );
}

/// What an attempt to get online does to what is remembered, and shows.
pub proof fn law_attempts(
    online: &mut Connection,
    back: Option<(Screen, bool)>,
    offline: &mut Connection,
    lost: Option<(Screen, bool)>,
)
    requires
        call_ensures(Connection::on_connected, (online,), back),
        call_ensures(Connection::on_connect_failed, (offline,), lost),
    ensures
        back is Some <==> !old(online).previously_connected,
        back matches Some(shown) ==> shown == (Screen::WifiConnected, false),
        final(online).previously_connected && !final(online).skip_error_on_first_attempt,
        lost is Some <==> old(offline).previously_connected && !old(
            offline,
        ).skip_error_on_first_attempt,
        lost matches Some(shown) ==> shown == (Screen::WifiDisconnected, true),
        final(offline).previously_connected <==> old(offline).previously_connected && old(
            offline,
        ).skip_error_on_first_attempt,
        !final(offline).skip_error_on_first_attempt,
{
}

/// Pings come well before the broker gives up on the device, and the socket
/// waits longer than the broker does.
pub proof fn law_times()
    ensures
        3 * MQTT_PING_INTERVAL_SECS == MQTT_TIMEOUT_SECS,
        MQTT_TIMEOUT_SECS == 300,
        SOCKET_TIMEOUT_HEADROOM_SECS > 0,
        RATE_LIMIT_BUFFER_SECS == 4,
        OTA_PAYLOAD_SIZE == 512,
        RETRY_DELAY_SECS == 5,
        REFRESH_INTERVAL_SECS == 60,
{
}

/// The operations on credentials and on the end of a session, by themselves.
pub proof fn law_credentials_and_session_end(
    a: &mut WifiRunner,
    loaded: Result<(heapless::String<32>, heapless::String<64>), &'static str>,
    restart: bool,
    b: &mut WifiRunner,
    end: Result<NotificationType, MqttSessionError>,
    next: (SessionEnd, Option<DisplayMode>),
)
    requires
        call_ensures(WifiRunner::on_credentials, (a, loaded), restart),
        call_ensures(WifiRunner::on_session_end, (b, end), next),
    ensures
        restart <==> loaded is Ok,
        final(a).ssid is Some && final(a).password is Some,
        loaded matches Ok(c) ==> final(a).ssid == Some(c.0) && final(a).password == Some(c.1),
        loaded is Err ==> crate::short_text::ssid_of(final(a).ssid.unwrap())
            == "HONESTWIFI-2325-2G"@,
        next.0 == SessionEnd::RunOta <==> end == Err::<NotificationType, MqttSessionError>(
            MqttSessionError::OtaRequested,
        ),
        next.1 is Some <==> end == Ok::<NotificationType, MqttSessionError>(
            NotificationType::DisplayText,
        ) || end == Ok::<NotificationType, MqttSessionError>(NotificationType::DisplayURL),
        next.1 matches Some(mode) ==> mode == final(b).display_mode && mode
            != DisplayMode::LiveUpdates,
        final(b).display_mode == DisplayMode::CustomText ==> old(b).display_mode
            == DisplayMode::CustomText || end == Ok::<NotificationType, MqttSessionError>(
            NotificationType::DisplayText,
        ),
        final(b).ssid is None <==> old(b).ssid is None || end == Ok::<
            NotificationType,
            MqttSessionError,
        >(NotificationType::WifiCredentials),
{
}

} // verus!
