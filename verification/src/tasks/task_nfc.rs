//! The task that watches the NFC tag: what a phone writes there is stored and
//! announced to the other tasks, and the tag goes back to holding the name of
//! the device.

use super::is_registration_response;
use crate::nvs::NfcData;
use crate::text::same_text;
use crate::NotificationType;
use vstd::prelude::*;

verus! {

/// The text that asks for live updates.
pub const LIVE_UPDATES_COMMAND: &'static str = "LIVE_UPDATES";

/// Milliseconds to wait after the board gave up the power of the tag.
pub const DEPOWER_PAUSE_MS: u64 = 50;

/// Milliseconds for data to settle on the tag.
pub const READ_PAUSE_MS: u64 = 1_000;

/// Where a record is stored.
#[derive(Debug, Clone, Copy, PartialEq, Eq, Structural)]
pub enum Slot {
    /// With the WiFi credentials.
    WifiCredentials,
    /// With the text to display.
    DisplayText,
    /// With the address to display.
    DisplayURL,
}

/// What the task is doing.
#[derive(Debug, Clone, Copy, PartialEq, Eq, Structural)]
pub enum TagStage {
    /// It formats the tag and lets phones write to it.
    Initializing,
    /// It writes the name of the device to the tag, for the first time.
    Seeding,
    /// It gives up the power of the tag.
    Depowering,
    /// It waits for a record.
    Reading,
    /// It serializes a record.
    Serializing(Slot),
    /// It writes the name of the device to the tag before it stores
    /// credentials: a phone that registers the device looks for it at once.
    Answering,
    /// It stores a record.
    Storing(Slot),
    /// It announces what changed, with the number of changes so far.
    Announcing(NotificationType),
    /// It writes the name of the device to the tag again.
    Reasserting,
    /// It has ended.
    Ended,
}

/// What came of it. Whether the name of the device could be written does not
/// matter.
#[derive(Debug)]
pub enum TagEvent<'a> {
    /// Whether the tag could be initialized.
    Initialized(bool),
    /// The name of the device was written, or could not be.
    Written,
    /// Whether the power could be given up.
    Depowered(bool),
    /// A record, or none where it could not be read.
    Read(Option<&'a NfcData>),
    /// Whether the record could be serialized.
    Serialized(bool),
    /// Whether the record could be stored.
    Stored(bool),
    /// The change was announced.
    Announced,
}

/// What is announced once a record is stored.
pub open spec fn notification_of(slot: Slot) -> NotificationType {
    match slot {
        Slot::WifiCredentials => NotificationType::WifiCredentials,
        Slot::DisplayText => NotificationType::DisplayText,
        Slot::DisplayURL => NotificationType::DisplayURL,
    }
}

/// What is done with a record that was read. A registration response was
/// written by the device itself and is left alone.
pub open spec fn stage_for(record: NfcData) -> TagStage {
    match record {
        NfcData::Wifi(_, _) => TagStage::Serializing(Slot::WifiCredentials),
        NfcData::Text(text) => if super::is_response(text@) {
            TagStage::Depowering
        } else if text@ == LIVE_UPDATES_COMMAND@ {
            TagStage::Announcing(NotificationType::LiveSecureUpdates)
        } else {
            TagStage::Serializing(Slot::DisplayText)
        },
        NfcData::Uri(_) => TagStage::Serializing(Slot::DisplayURL),
        NfcData::Unknown => TagStage::Reasserting,
    }
}

/// An event can come of what is done in a stage.
pub open spec fn fits(stage: TagStage, event: TagEvent) -> bool {
    match event {
        TagEvent::Initialized(_) => stage == TagStage::Initializing,
        TagEvent::Written => stage == TagStage::Seeding || stage == TagStage::Answering || stage
            == TagStage::Reasserting,
        TagEvent::Depowered(_) => stage == TagStage::Depowering,
        TagEvent::Read(_) => stage == TagStage::Reading,
        TagEvent::Serialized(_) => stage is Serializing,
        TagEvent::Stored(_) => stage is Storing,
        TagEvent::Announced => stage is Announcing,
    }
}

/// What the task does next.
pub open spec fn stage_after(stage: TagStage, event: TagEvent) -> TagStage {
    match (stage, event) {
        (TagStage::Initializing, TagEvent::Initialized(ok)) => if ok {
            TagStage::Seeding
        } else {
            TagStage::Ended
        },
        (TagStage::Depowering, TagEvent::Depowered(ok)) => if ok {
            TagStage::Reading
        } else {
            TagStage::Depowering
        },
        (TagStage::Reading, TagEvent::Read(Some(record))) => stage_for(*record),
        (TagStage::Reading, TagEvent::Read(None)) => TagStage::Reasserting,
        (TagStage::Serializing(slot), TagEvent::Serialized(ok)) => if !ok {
            TagStage::Depowering
        } else if slot == Slot::WifiCredentials {
            TagStage::Answering
        } else {
            TagStage::Storing(slot)
        },
        (TagStage::Answering, TagEvent::Written) => TagStage::Storing(Slot::WifiCredentials),
        (TagStage::Storing(slot), TagEvent::Stored(ok)) => if ok {
            TagStage::Announcing(notification_of(slot))
        } else {
            TagStage::Depowering
        },
        (TagStage::Announcing(_), TagEvent::Announced) => TagStage::Reasserting,
        _ => TagStage::Depowering,
    }
}

/// The state of the task.
#[derive(Debug, Clone, Copy, PartialEq, Eq, Structural)]
pub struct TagTask {
    /// What the task is doing.
    pub stage: TagStage,
    /// The number of changes so far; it wraps around.
    pub change_counter: u32,
}

impl TagTask {
    /// The task when the device starts.
    pub fn new() -> (r: Self)
        ensures
            r == (TagTask { stage: TagStage::Initializing, change_counter: 0 }),
    {
        Self { stage: TagStage::Initializing, change_counter: 0 }
    }

    /// Takes in what came of the last thing done, and returns what to do next.
    /// A change that is to be announced is counted.
    pub fn step(&mut self, event: TagEvent<'_>) -> (r: TagStage)
        requires
            fits(old(self).stage, event),
        ensures
            r == stage_after(old(self).stage, event),
            final(self).stage == r,
            final(self).change_counter == if r is Announcing {
                (old(self).change_counter + 1) % 0x1_0000_0000
            } else {
                old(self).change_counter as int
            },
    {
        let next: TagStage = match event {
            TagEvent::Initialized(ok) => if ok {
                TagStage::Seeding
            } else {
                TagStage::Ended
            },
            TagEvent::Written => match self.stage {
                TagStage::Answering => TagStage::Storing(Slot::WifiCredentials),
                _ => TagStage::Depowering,
            },
            TagEvent::Depowered(ok) => if ok {
                TagStage::Reading
            } else {
                TagStage::Depowering
            },
            TagEvent::Read(None) => TagStage::Reasserting,
            TagEvent::Read(Some(record)) => match record {
                NfcData::Wifi(_, _) => TagStage::Serializing(Slot::WifiCredentials),
                NfcData::Text(text) => if is_registration_response(text.as_str()) {
                    TagStage::Depowering
                } else if same_text(text.as_str(), LIVE_UPDATES_COMMAND) {
                    TagStage::Announcing(NotificationType::LiveSecureUpdates)
                } else {
                    TagStage::Serializing(Slot::DisplayText)
                },
                NfcData::Uri(_) => TagStage::Serializing(Slot::DisplayURL),
                NfcData::Unknown => TagStage::Reasserting,
            },
            TagEvent::Serialized(ok) => match self.stage {
                TagStage::Serializing(slot) if ok => if slot == Slot::WifiCredentials {
                    TagStage::Answering
                } else {
                    TagStage::Storing(slot)
                },
                _ => TagStage::Depowering,
            },
            TagEvent::Stored(ok) => match self.stage {
                TagStage::Storing(slot) if ok => TagStage::Announcing(
                    match slot {
                        Slot::WifiCredentials => NotificationType::WifiCredentials,
                        Slot::DisplayText => NotificationType::DisplayText,
                        Slot::DisplayURL => NotificationType::DisplayURL,
                    },
                ),
                _ => TagStage::Depowering,
            },
            TagEvent::Announced => TagStage::Reasserting,
        };
        match next {
            TagStage::Announcing(_) => {
                self.change_counter = self.change_counter.wrapping_add(1);
            },
            _ => {},
        }
        self.stage = next;
        next
    }
}

/// What is announced is on flash, except for the command that asks for live
/// updates, of which there is nothing to store.
pub proof fn law_announced_is_stored(stage: TagStage, event: TagEvent, n: NotificationType)
    requires
        fits(stage, event),
        stage_after(stage, event) == TagStage::Announcing(n),
    ensures
        match stage {
            TagStage::Storing(slot) => event == TagEvent::Stored(true) && n == notification_of(
                slot,
            ),
            _ => {
                &&& n == NotificationType::LiveSecureUpdates
                &&& event matches TagEvent::Read(Some(record)) && (*record matches NfcData::Text(
                    text,
                ) && text@ == LIVE_UPDATES_COMMAND@)
            },
        },
{
}

/// The tag names the device before its new credentials are stored, and after
/// every record that was taken in.
pub proof fn law_tag_names_device(stage: TagStage, event: TagEvent)
    requires
        fits(stage, event),
    ensures
        stage_after(stage, event) == TagStage::Storing(Slot::WifiCredentials) ==> stage
            == TagStage::Answering && event == TagEvent::Written,
        event == TagEvent::Announced ==> stage_after(stage, event) == TagStage::Reasserting,
{
}

/// What the device wrote to the tag itself is never stored or announced.
pub proof fn law_own_text_is_left_alone(code: Seq<char>, text: String)
    requires
        crate::short_text::fits(super::REGISTRATION_PREFIX@ + code + super::REGISTRATION_SUFFIX@),
        text@ == super::append_pieces(
            Seq::empty(),
            seq![super::REGISTRATION_PREFIX@, code, super::REGISTRATION_SUFFIX@],
        ),
    ensures
        stage_for(NfcData::Text(text)) == TagStage::Depowering,
{
    super::law_response_is_recognised(code);
}

// =============================================================================
// What the task is for
// =============================================================================

/// The task goes from stage to stage as the stages say, and counts what it
/// announces.
pub proof fn law_steps_and_counter(task: &mut TagTask, event: TagEvent<'_>, r: TagStage)
    requires
        call_ensures(TagTask::step, (task, event), r),
    ensures
        r == stage_after(old(task).stage, event),
        final(task).stage == r,
        r is Announcing && old(task).change_counter < u32::MAX ==> final(task).change_counter
            == old(task).change_counter + 1,
        r is Announcing ==> final(task).change_counter != old(task).change_counter,
        !(r is Announcing) ==> final(task).change_counter == old(task).change_counter,
{
}

/// A record that can be serialized and stored is announced, and stored where it
/// belongs: credentials as credentials, a text as a text, an address as an
/// address. `stages` are those that the task goes through from reading the
/// record on, with success in each.
pub proof fn law_record_is_stored_and_announced(record: NfcData, stages: Seq<TagStage>)
    requires
        stages.len() == 5,
        stages[0] == stage_after(TagStage::Reading, TagEvent::Read(Some(&record))),
        stages[0] is Serializing,
        stages[1] == stage_after(stages[0], TagEvent::Serialized(true)),
        stages[2] == (if stages[1] == TagStage::Answering {
            stage_after(stages[1], TagEvent::Written)
        } else {
            stages[1]
        }),
        stages[3] == stage_after(stages[2], TagEvent::Stored(true)),
        stages[4] == stage_after(stages[3], TagEvent::Announced),
    ensures
        match record {
            NfcData::Wifi(_, _) => {
                &&& stages[1] == TagStage::Answering
                &&& stages[2] == TagStage::Storing(Slot::WifiCredentials)
                &&& stages[3] == TagStage::Announcing(NotificationType::WifiCredentials)
            },
            NfcData::Text(_) => {
                &&& stages[2] == TagStage::Storing(Slot::DisplayText)
                &&& stages[3] == TagStage::Announcing(NotificationType::DisplayText)
            },
            NfcData::Uri(_) => {
                &&& stages[2] == TagStage::Storing(Slot::DisplayURL)
                &&& stages[3] == TagStage::Announcing(NotificationType::DisplayURL)
            },
            NfcData::Unknown => false,
        },
        stages[4] == TagStage::Reasserting,
{
}

/// What is done with each kind of record: credentials and addresses are taken
/// in; so is a text, unless it is the command for live updates, which is
/// announced at once, or was written by the device itself, which is left alone.
/// Anything else makes the tag name the device again.
pub proof fn law_records(task: &mut TagTask, record: &NfcData, r: TagStage)
    requires
        old(task).stage == TagStage::Reading,
        call_ensures(TagTask::step, (task, TagEvent::Read(Some(record))), r),
    ensures
        match *record {
            NfcData::Wifi(_, _) => r == TagStage::Serializing(Slot::WifiCredentials),
            NfcData::Uri(_) => r == TagStage::Serializing(Slot::DisplayURL),
            NfcData::Text(text) => {
                let own = "REG:C:"@.is_prefix_of(text@) && ";;"@.is_suffix_of(text@);
                &&& text@ == "LIVE_UPDATES"@ ==> r == TagStage::Announcing(
                    NotificationType::LiveSecureUpdates,
                )
                &&& own ==> r == TagStage::Depowering
                &&& !own && text@ != "LIVE_UPDATES"@ ==> r == TagStage::Serializing(
                    Slot::DisplayText,
                )
            },
            NfcData::Unknown => r == TagStage::Reasserting,
        },
{
    reveal_strlit("LIVE_UPDATES");
    reveal_strlit("REG:C:");
    if let NfcData::Text(text) = *record {
        if text@ == "LIVE_UPDATES"@ && "REG:C:"@.is_prefix_of(text@) {
            assert("REG:C:"@[0] == text@.subrange(0, 6)[0]);
        }
    }
}

/// The rest of the way: the tag is initialized once, and named once before the
/// first record is awaited; then the task waits for records for ever. What
/// could not be serialized or stored is not announced.
pub proof fn law_way_of_task(task: &mut TagTask, event: TagEvent<'_>, r: TagStage)
    requires
        call_ensures(TagTask::step, (task, event), r),
        fits(old(task).stage, event),
    ensures
        r == TagStage::Ended <==> event == TagEvent::Initialized(false),
        r == TagStage::Seeding <==> event == TagEvent::Initialized(true),
        r == TagStage::Reading <==> event == TagEvent::Depowered(true),
        event == TagEvent::Depowered(false) ==> r == TagStage::Depowering,
        old(task).stage == TagStage::Seeding || old(task).stage == TagStage::Reasserting ==> r
            == TagStage::Depowering,
        event == TagEvent::Serialized(false) || event == TagEvent::Stored(false) ==> r
            == TagStage::Depowering,
        event matches TagEvent::Read(None) ==> r == TagStage::Reasserting,
        r is Storing ==> event == TagEvent::Serialized(true) || old(task).stage
            == TagStage::Answering,
        r == TagStage::Storing(Slot::DisplayText) ==> old(task).stage == TagStage::Serializing(
            Slot::DisplayText,
        ),
        r == TagStage::Storing(Slot::DisplayURL) ==> old(task).stage == TagStage::Serializing(
            Slot::DisplayURL,
        ),
        r != TagStage::Initializing,
{
}

/// The task begins with the tag, and has announced nothing.
pub proof fn law_start(task: TagTask)
    requires
        call_ensures(TagTask::new, (), task),
    ensures
        task.stage == TagStage::Initializing,
        task.change_counter == 0,
{
}

} // verus!
