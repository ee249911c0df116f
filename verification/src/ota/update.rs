//! An update, step by step.
//!
//! The caller downloads the image and hands it over piece by piece:
//! [`OtaManager::begin_update`], then [`OtaManager::write_chunk`] for each
//! piece, then [`OtaManager::finalize_update`]. The flash partition is behind
//! [`FlashWriter`].

use super::message::{parse_trigger, OtaAck, OtaStatus, OtaTrigger};
use super::state::{OtaProgress, OtaState};
use vstd::prelude::*;

verus! {

/// Size of the pieces in which an image is downloaded.
pub const DEFAULT_CHUNK_SIZE: usize = 4096;

/// What can go wrong in an update.
#[derive(Debug, Clone, Copy, PartialEq, Eq, Structural)]
pub enum OtaError {
    /// The trigger could not be parsed.
    InvalidTrigger,
    /// The connection or the download failed.
    HttpError,
    /// A piece could not be written.
    FlashWriteError,
    /// The image does not have the expected size.
    SizeMismatch {
        /// Bytes that were downloaded.
        got: u32,
        /// Bytes that the trigger announced.
        expected: u32,
    },
    /// The new image could not be made the one that boots next.
    FinalizeError,
    /// An update is in progress already.
    AlreadyInProgress,
    /// A step was called before the one that comes first.
    NotStarted,
}

/// A firmware partition while it is written.
pub struct Partition {
    /// Size that was announced for the image.
    pub size: u32,
    /// CRC-32 that was announced for the image.
    pub crc32: u32,
    /// What has been written of the image.
    pub image: Seq<u8>,
    /// The image boots next.
    pub boots_next: bool,
    /// The running firmware is new and has not been confirmed.
    pub unconfirmed: bool,
}

/// What went wrong, if anything did.
pub open spec fn fault<T>(r: Result<T, OtaError>) -> Option<OtaError> {
    match r {
        Ok(_) => None,
        Err(e) => Some(e),
    }
}

/// The flash partition that an update goes to.
///
/// Whether a step succeeds is up to the implementation: for each step it has a
/// relation between its state before, its state after and what went wrong, if
/// anything did. A step that succeeds does what it is for. Only the last step
/// makes an image the one that boots next.
pub trait FlashWriter: Sized {
    /// The state of the partition. A verified partition overrides this: the
    /// state given here is the same for every partition, which none that can
    /// be written to lives up to.
    open spec fn view(&self) -> Partition {
        arbitrary()
    }

    /// What `begin` can do.
    open spec fn begins(
        before: Self,
        after: Self,
        size: u32,
        crc32: u32,
        fault: Option<OtaError>,
    ) -> bool {
        true
    }

    /// What `write_chunk` can do.
    open spec fn writes(
        before: Self,
        after: Self,
        data: Seq<u8>,
        fault: Option<OtaError>,
    ) -> bool {
        true
    }

    /// What `finalize` can do.
    open spec fn finalizes(before: Self, after: Self, fault: Option<OtaError>) -> bool {
        true
    }

    /// What `mark_valid` can do.
    open spec fn confirms(before: Self, after: Self, fault: Option<OtaError>) -> bool {
        true
    }

    /// Prepares the inactive partition for an image of this size and CRC.
    fn begin(&mut self, size: u32, crc32: u32) -> (r: Result<(), OtaError>)
        ensures
            Self::begins(*old(self), *final(self), size, crc32, fault(r)),
            r is Ok ==> final(self)@.size == size && final(self)@.crc32 == crc32
                && final(self)@.image == Seq::<u8>::empty(),
            final(self)@.boots_next ==> old(self)@.boots_next,
    ;

    /// Writes the next piece of the image.
    fn write_chunk(&mut self, data: &[u8]) -> (r: Result<(), OtaError>)
        ensures
            Self::writes(*old(self), *final(self), data@, fault(r)),
            r is Ok ==> final(self)@.size == old(self)@.size && final(self)@.crc32 == old(
                self,
            )@.crc32 && final(self)@.image == old(self)@.image + data@,
            final(self)@.boots_next ==> old(self)@.boots_next,
    ;

    /// Checks the image and makes it the one that boots next.
    fn finalize(&mut self) -> (r: Result<(), OtaError>)
        ensures
            Self::finalizes(*old(self), *final(self), fault(r)),
            r is Ok ==> final(self)@.boots_next && final(self)@.image == old(self)@.image,
    ;

    /// Whether the running firmware is new and has not been confirmed.
    fn is_pending_verification(&self) -> (r: bool)
        ensures
            r == self@.unconfirmed,
    ;

    /// Confirms the running firmware.
    fn mark_valid(&mut self) -> (r: Result<(), OtaError>)
        ensures
            Self::confirms(*old(self), *final(self), fault(r)),
            r is Ok ==> !final(self)@.unconfirmed,
    ;
}

/// Takes an update through its steps.
pub struct OtaManager<F: FlashWriter> {
    flash: F,
    progress: OtaProgress,
    expected_size: u32,
}

impl<F: FlashWriter> OtaManager<F> {
    /// The partition.
    pub closed spec fn writer(&self) -> F {
        self.flash
    }

    /// The progress of the update.
    pub closed spec fn status(&self) -> OtaProgress {
        self.progress
    }

    /// Size that the trigger announced.
    pub closed spec fn expected(&self) -> u32 {
        self.expected_size
    }

    /// While an image is downloaded, the progress tells what is on flash.
    pub open spec fn in_step(&self) -> bool {
        self.status().state == OtaState::Downloading ==> {
            &&& self.status().total_bytes == self.expected()
            &&& self.writer()@.image.len() == self.status().bytes_written
            &&& self.writer()@.size == self.expected()
        }
    }

    /// No update in progress.
    pub fn new(flash: F) -> (r: Self)
        ensures
            r.writer() == flash,
            r.status() == (OtaProgress { bytes_written: 0, total_bytes: 0, state: OtaState::Idle }),
            r.expected() == 0,
            r.in_step(),
    {
        Self { flash, progress: OtaProgress::new(0), expected_size: 0 }
    }

    /// The partition.
    pub fn flash(&self) -> (r: &F)
        ensures
            *r == self.writer(),
    {
        &self.flash
    }

    /// The partition, to be changed.
    pub fn flash_mut(&mut self) -> (r: &mut F)
        ensures
            *r == old(self).writer(),
            final(self).writer() == *final(r),
            final(self).status() == old(self).status(),
            final(self).expected() == old(self).expected(),
    {
        &mut self.flash
    }

    /// The progress of the update.
    pub fn progress(&self) -> (r: &OtaProgress)
        ensures
            *r == self.status(),
    {
        &self.progress
    }

    /// Confirms the running firmware if that is still to be done, and returns
    /// whether it was. To be called once the new firmware is online.
    pub fn confirm_boot_if_needed(&mut self) -> (r: Result<bool, OtaError>)
        ensures
            final(self).status() == old(self).status(),
            final(self).expected() == old(self).expected(),
            !old(self).writer()@.unconfirmed ==> r == Ok::<bool, OtaError>(false) && *final(self)
                == *old(self),
            old(self).writer()@.unconfirmed ==> match r {
                Ok(confirmed) => confirmed && !final(self).writer()@.unconfirmed && F::confirms(
                    old(self).writer(),
                    final(self).writer(),
                    None,
                ),
                Err(e) => F::confirms(old(self).writer(), final(self).writer(), Some(e)),
            },
    {
        if self.flash.is_pending_verification() {
            let outcome: Result<(), OtaError> = self.flash.mark_valid();
            match outcome {
                Ok(()) => Ok(true),
                Err(e) => Err(e),
            }
        } else {
            Ok(false)
        }
    }

    /// Begins the update that a parsed trigger asks for, unless one is in
    /// progress.
    pub fn begin_parsed<'a>(&mut self, parsed: Result<OtaTrigger<'a>, &'static str>) -> (r: Result<
        OtaTrigger<'a>,
        OtaError,
    >)
        ensures
            old(self).status().state == OtaState::Downloading || old(self).status().state
                == OtaState::Finalizing ==> r == Err::<OtaTrigger<'a>, OtaError>(
                OtaError::AlreadyInProgress,
            ) && *final(self) == *old(self),
            old(self).status().state != OtaState::Downloading && old(self).status().state
                != OtaState::Finalizing ==> match parsed {
                Err(_) => r == Err::<OtaTrigger<'a>, OtaError>(OtaError::InvalidTrigger)
                    && *final(self) == *old(self),
                Ok(trigger) => final(self).has_begun(*old(self), trigger, r),
            },
    {
        if self.progress.state == OtaState::Downloading || self.progress.state
            == OtaState::Finalizing {
            return Err(OtaError::AlreadyInProgress);
        }
        let trigger: OtaTrigger<'a> = match parsed {
            Ok(trigger) => trigger,
            Err(_) => {
                return Err(OtaError::InvalidTrigger);
            },
        };
        self.expected_size = trigger.size;
        self.progress = OtaProgress::new(trigger.size);
        self.progress.state = OtaState::Downloading;
        let outcome: Result<(), OtaError> = self.flash.begin(trigger.size, trigger.crc32);
        match self.progress.settle(outcome) {
            Ok(()) => Ok(trigger),
            Err(e) => Err(e),
        }
    }

    /// This is the manager `before` after it began the update that `trigger`
    /// asks for: the partition was told the size and the CRC, and whether it
    /// agreed decides whether the download goes on.
    pub open spec fn has_begun<'a>(
        &self,
        before: Self,
        trigger: OtaTrigger<'a>,
        r: Result<OtaTrigger<'a>, OtaError>,
    ) -> bool {
        &&& F::begins(
            before.writer(),
            self.writer(),
            trigger.size,
            trigger.crc32,
            fault(r),
        )
        &&& self.expected() == trigger.size
        &&& self.status() == (OtaProgress {
            bytes_written: 0,
            total_bytes: trigger.size,
            state: if r is Ok {
                OtaState::Downloading
            } else {
                OtaState::Failed
            },
        })
        &&& r matches Ok(t) ==> t == trigger && self.writer()@.size == trigger.size
            && self.writer()@.crc32 == trigger.crc32 && self.writer()@.image == Seq::<u8>::empty()
        &&& self.in_step()
        &&& self.writer()@.boots_next ==> before.writer()@.boots_next
    }

    /// Parses a trigger and begins the update that it asks for, unless one is
    /// in progress. `decode` decodes the JSON of the trigger. The trigger is
    /// returned, so that the caller can start the download.
    pub fn begin_update<'a, D: FnOnce(&'a [u8]) -> Option<OtaTrigger<'a>>>(
        &mut self,
        trigger_json: &'a [u8],
        decode: D,
    ) -> (r: Result<OtaTrigger<'a>, OtaError>)
        requires
            old(self).status().state != OtaState::Downloading && old(self).status().state
                != OtaState::Finalizing ==> forall|json: &'a [u8]|
                json@ == crate::text::until_zero(trigger_json@) ==> #[trigger] call_requires(
                    decode,
                    (json,),
                ),
        ensures
            old(self).status().state == OtaState::Downloading || old(self).status().state
                == OtaState::Finalizing ==> r == Err::<OtaTrigger<'a>, OtaError>(
                OtaError::AlreadyInProgress,
            ) && *final(self) == *old(self),
            old(self).status().state != OtaState::Downloading && old(self).status().state
                != OtaState::Finalizing ==> exists|parsed: Result<OtaTrigger<'a>, &'static str>|
                #[trigger] super::message::parses_to(trigger_json, decode, parsed) && match parsed {
                    Err(_) => r == Err::<OtaTrigger<'a>, OtaError>(OtaError::InvalidTrigger)
                        && *final(self) == *old(self),
                    Ok(trigger) => final(self).has_begun(*old(self), trigger, r),
                },
    {
        if self.progress.state == OtaState::Downloading || self.progress.state
            == OtaState::Finalizing {
            return Err(OtaError::AlreadyInProgress);
        }
        let parsed: Result<OtaTrigger<'a>, &'static str> = parse_trigger(trigger_json, decode);
        self.begin_parsed(parsed)
    }

    /// This is the manager `before` after it wrote a piece, or failed to.
    pub open spec fn has_written(
        &self,
        before: Self,
        data: Seq<u8>,
        fault: Option<OtaError>,
    ) -> bool {
        &&& F::writes(before.writer(), self.writer(), data, fault)
        &&& self.expected() == before.expected()
        &&& self.writer()@.boots_next ==> before.writer()@.boots_next
        &&& fault is None ==> {
            &&& self.status().bytes_written == before.status().bytes_written + data.len() as int
                % 0x1_0000_0000
            &&& self.status().total_bytes == before.status().total_bytes
            &&& self.status().state == before.status().state
            &&& self.writer()@.image == before.writer()@.image + data
            &&& self.writer()@.size == before.writer()@.size
        }
        &&& fault is Some ==> self.status() == (OtaProgress {
            state: OtaState::Failed,
            ..before.status()
        })
    }

    /// This is the manager `before` after it finalized an image of the
    /// announced size, or failed to.
    pub open spec fn has_finalized(&self, before: Self, fault: Option<OtaError>) -> bool {
        &&& F::finalizes(before.writer(), self.writer(), fault)
        &&& self.expected() == before.expected()
        &&& fault is None ==> self.writer()@.boots_next && self.writer()@.image
            == before.writer()@.image
        &&& self.status() == (OtaProgress {
            state: if fault is None {
                OtaState::Complete
            } else {
                OtaState::Failed
            },
            ..before.status()
        })
    }

    /// Writes the next piece of the image and returns how many bytes have been
    /// written in all.
    pub fn write_chunk(&mut self, data: &[u8]) -> (r: Result<u32, OtaError>)
        requires
            old(self).status().state == OtaState::Downloading ==> old(self).status().bytes_written
                + data@.len() as int % 0x1_0000_0000 <= u32::MAX,
        ensures
            old(self).status().state != OtaState::Downloading ==> r == Err::<u32, OtaError>(
                OtaError::NotStarted,
            ) && *final(self) == *old(self),
            old(self).status().state == OtaState::Downloading ==> final(self).has_written(
                *old(self),
                data@,
                fault(r),
            ),
            r matches Ok(written) ==> written == final(self).status().bytes_written,
            old(self).in_step() && data@.len() <= u32::MAX ==> final(self).in_step(),
    {
        if self.progress.state != OtaState::Downloading {
            return Err(OtaError::NotStarted);
        }
        let outcome: Result<(), OtaError> = self.flash.write_chunk(data);
        match self.progress.settle(outcome) {
            Ok(()) => {},
            Err(e) => {
                return Err(e);
            },
        }
        let len: u64 = data.len() as u64;
        assert(#[verifier::truncate] (len as u32) == len % 0x1_0000_0000) by (bit_vector);
        let added: u32 = #[verifier::truncate] (len as u32);
        self.progress.bytes_written = self.progress.bytes_written + added;
        Ok(self.progress.bytes_written)
    }

    /// Ends the update: if as many bytes as announced have been written, the
    /// image is checked and made the one that boots next. The acknowledgement
    /// to send before the reboot is returned.
    pub fn finalize_update<'a>(&mut self, version: &'a str) -> (r: Result<OtaAck<'a>, OtaError>)
        ensures
            final(self).expected() == old(self).expected(),
            old(self).status().state != OtaState::Downloading ==> r == Err::<OtaAck<'a>, OtaError>(
                OtaError::NotStarted,
            ) && *final(self) == *old(self),
            old(self).status().state == OtaState::Downloading && old(self).status().bytes_written
                != old(self).expected() ==> {
                &&& r == Err::<OtaAck<'a>, OtaError>(
                    OtaError::SizeMismatch {
                        got: old(self).status().bytes_written,
                        expected: old(self).expected(),
                    },
                )
                &&& final(self).writer() == old(self).writer()
                &&& final(self).status() == (OtaProgress {
                    state: OtaState::Failed,
                    ..old(self).status()
                })
            },
            old(self).status().state == OtaState::Downloading && old(self).status().bytes_written
                == old(self).expected() ==> final(self).has_finalized(*old(self), fault(r)),
            r matches Ok(ack) ==> ack == (OtaAck { status: OtaStatus::Success, version }),
            r is Ok && old(self).in_step() ==> final(self).writer()@.image.len() == old(
                self,
            ).expected(),
    {
        if self.progress.state != OtaState::Downloading {
            return Err(OtaError::NotStarted);
        }
        if self.progress.bytes_written != self.expected_size {
            self.progress.state = OtaState::Failed;
            return Err(
                OtaError::SizeMismatch {
                    got: self.progress.bytes_written,
                    expected: self.expected_size,
                },
            );
        }
        self.progress.state = OtaState::Finalizing;
        let outcome: Result<(), OtaError> = self.flash.finalize();
        match self.progress.settle(outcome) {
            Ok(()) => {},
            Err(e) => {
                return Err(e);
            },
        }
        self.progress.state = OtaState::Complete;
        Ok(OtaAck { status: OtaStatus::Success, version })
    }
}

/// Whether the running firmware is new and has not been confirmed; it is not
/// where the partition cannot be had.
pub fn is_ota_boot<F: FlashWriter>(flash: Result<F, OtaError>) -> (r: bool)
    ensures
        r == (flash matches Ok(f) && f@.unconfirmed),
{
    match flash {
        Ok(f) => f.is_pending_verification(),
        Err(_) => false,
    }
}

/// Confirms the running firmware, so that the bootloader does not go back to
/// the one before.
pub fn mark_ota_valid<F: FlashWriter>(flash: Result<F, OtaError>) -> (r: Result<(), OtaError>)
    ensures
        match flash {
            Err(e) => r == Err::<(), OtaError>(e),
            Ok(f) => exists|after: F| #[trigger]
                F::confirms(f, after, fault(r)) && (r is Ok ==> !after@.unconfirmed),
        },
{
    match flash {
        Ok(f) => {
            let mut flash: F = f;
            let r: Result<(), OtaError> = flash.mark_valid();
            assert(F::confirms(f, flash, fault(r)));
            r
        },
        Err(e) => Err(e),
    }
}

/// An image that is written in pieces is the pieces in a row: the manager after
/// each piece is the next of `steps`, and the first one has just begun.
pub proof fn law_pieces_make_up_image<F: FlashWriter>(
    steps: Seq<OtaManager<F>>,
    pieces: Seq<Seq<u8>>,
)
    requires
        steps.len() == pieces.len() + 1,
        steps[0].status().state == OtaState::Downloading,
        steps[0].status().bytes_written == 0,
        steps[0].writer()@.image == Seq::<u8>::empty(),
        forall|i: int|
            0 <= i < pieces.len() ==> (#[trigger] pieces[i]).len() <= u32::MAX && steps[i
                + 1].has_written(steps[i], pieces[i], None),
    ensures
        steps.last().writer()@.image == crate::tasks::chunks::joined(pieces),
        steps.last().status().bytes_written == crate::tasks::chunks::joined(pieces).len(),
        steps.last().status().state == OtaState::Downloading,
        steps.last().expected() == steps[0].expected(),
    decreases pieces.len(),
{
    if pieces.len() > 0 {
        let before = pieces.drop_last();
        let earlier = steps.drop_last();
        assert forall|i: int| 0 <= i < before.len() implies (#[trigger] before[i]).len() <= u32::MAX
            && earlier[i + 1].has_written(earlier[i], before[i], None) by {
            assert(before[i] == pieces[i]);
        }
        law_pieces_make_up_image(earlier, before);
        let last = pieces.len() - 1;
        assert(pieces[last].len() <= u32::MAX);
        assert(steps[last + 1].has_written(steps[last], pieces[last], None));
    }
}

/// An update begins as its trigger says: the partition is told the size and the
/// CRC that were announced, and nothing counts as written. While one is in
/// progress no other begins, and a bad trigger begins none.
pub proof fn law_update_begins<'a, F: FlashWriter>(
    mgr: &mut OtaManager<F>,
    parsed: Result<OtaTrigger<'a>, &'static str>,
    r: Result<OtaTrigger<'a>, OtaError>,
)
    requires
        call_ensures(OtaManager::<F>::begin_parsed, (mgr, parsed), r),
    ensures
        ({
            let busy = old(mgr).status().state == OtaState::Downloading || old(mgr).status().state
                == OtaState::Finalizing;
            &&& busy ==> r == Err::<OtaTrigger<'a>, OtaError>(OtaError::AlreadyInProgress)
            &&& busy || parsed is Err ==> *final(mgr) == *old(mgr)
            &&& !busy && parsed is Err ==> r == Err::<OtaTrigger<'a>, OtaError>(
                OtaError::InvalidTrigger,
            )
            &&& r matches Ok(t) ==> {
                &&& parsed == Ok::<OtaTrigger<'a>, &'static str>(t)
                &&& final(mgr).writer()@.size == t.size
                &&& final(mgr).writer()@.crc32 == t.crc32
                &&& final(mgr).writer()@.image.len() == 0
                &&& final(mgr).expected() == t.size
                &&& final(mgr).status().bytes_written == 0
                &&& final(mgr).status().total_bytes == t.size
                &&& final(mgr).status().state == OtaState::Downloading
            }
            &&& !busy ==> (parsed matches Ok(t) ==> F::begins(
                old(mgr).writer(),
                final(mgr).writer(),
                t.size,
                t.crc32,
                fault(r),
            ) && (r is Err ==> final(mgr).status().state == OtaState::Failed))
        }),
        final(mgr).writer()@.boots_next ==> old(mgr).writer()@.boots_next,
{
}

/// A piece is appended to the image, byte for byte, and counted, while an image
/// is downloaded and at no other time. A piece that cannot be written fails the
/// update. No piece makes the image the one that boots.
pub proof fn law_piece_is_written<F: FlashWriter>(
    mgr: &mut OtaManager<F>,
    data: &[u8],
    r: Result<u32, OtaError>,
)
    requires
        call_ensures(OtaManager::<F>::write_chunk, (mgr, data), r),
        old(mgr).status().bytes_written + data@.len() <= u32::MAX,
    ensures
        ({
            let loading = old(mgr).status().state == OtaState::Downloading;
            &&& !loading ==> r == Err::<u32, OtaError>(OtaError::NotStarted) && *final(mgr) == *old(
                mgr,
            )
            &&& loading ==> F::writes(old(mgr).writer(), final(mgr).writer(), data@, fault(r))
            &&& r matches Ok(n) ==> {
                &&& n == old(mgr).status().bytes_written + data@.len()
                &&& final(mgr).status().bytes_written == n
                &&& final(mgr).writer()@.image == old(mgr).writer()@.image + data@
                &&& final(mgr).status().state == OtaState::Downloading
            }
            &&& loading && r is Err ==> final(mgr).status().state == OtaState::Failed
                && final(mgr).status().bytes_written == old(mgr).status().bytes_written
        }),
        final(mgr).expected() == old(mgr).expected(),
        final(mgr).status().total_bytes == old(mgr).status().total_bytes,
        final(mgr).writer()@.boots_next ==> old(mgr).writer()@.boots_next,
{
}

/// An image boots next only if as many bytes were written as were announced, and
/// the partition agreed. Then, and only then, the update is complete and
/// acknowledged with the version that the trigger named.
pub proof fn law_image_boots_when_complete<'a, F: FlashWriter>(
    mgr: &mut OtaManager<F>,
    version: &'a str,
    r: Result<OtaAck<'a>, OtaError>,
)
    requires
        call_ensures(OtaManager::<F>::finalize_update, (mgr, version), r),
    ensures
        ({
            let loading = old(mgr).status().state == OtaState::Downloading;
            let whole = old(mgr).status().bytes_written == old(mgr).expected();
            &&& r is Ok ==> loading && whole
            &&& r matches Ok(ack) ==> {
                &&& ack.version == version && ack.status == OtaStatus::Success
                &&& final(mgr).status().state == OtaState::Complete
                &&& final(mgr).writer()@.boots_next
                &&& final(mgr).writer()@.image == old(mgr).writer()@.image
            }
            &&& !loading ==> r == Err::<OtaAck<'a>, OtaError>(OtaError::NotStarted) && *final(mgr)
                == *old(mgr)
            &&& loading && !whole ==> r is Err && final(mgr).writer() == old(mgr).writer()
            &&& loading && !whole ==> (r matches Err(OtaError::SizeMismatch { got, expected })
                && got == old(mgr).status().bytes_written && expected == old(mgr).expected())
            &&& loading && whole ==> F::finalizes(
                old(mgr).writer(),
                final(mgr).writer(),
                fault(r),
            )
            &&& loading && r is Err ==> final(mgr).status().state == OtaState::Failed
        }),
        final(mgr).expected() == old(mgr).expected(),
        final(mgr).status().total_bytes == old(mgr).status().total_bytes,
        final(mgr).status().bytes_written == old(mgr).status().bytes_written,
{
}

/// Firmware that is new is confirmed, once; firmware that is confirmed already
/// is left alone.
pub proof fn law_confirmation<F: FlashWriter>(
    mgr: &mut OtaManager<F>,
    r: Result<bool, OtaError>,
    flash: Result<F, OtaError>,
    new: bool,
    marked: Result<(), OtaError>,
)
    requires
        call_ensures(OtaManager::<F>::confirm_boot_if_needed, (mgr,), r),
        call_ensures(is_ota_boot::<F>, (flash,), new),
        call_ensures(mark_ota_valid::<F>, (flash,), marked),
    ensures
        !old(mgr).writer()@.unconfirmed ==> r == Ok::<bool, OtaError>(false) && *final(mgr) == *old(
            mgr,
        ),
        old(mgr).writer()@.unconfirmed ==> r != Ok::<bool, OtaError>(false),
        r == Ok::<bool, OtaError>(true) ==> !final(mgr).writer()@.unconfirmed,
        old(mgr).writer()@.unconfirmed && r is Err ==> F::confirms(
            old(mgr).writer(),
            final(mgr).writer(),
            fault(r),
        ),
        final(mgr).status() == old(mgr).status(),
        flash is Err ==> !new && marked == Err::<(), OtaError>(flash->Err_0),
        flash matches Ok(f) ==> (new <==> f@.unconfirmed),
        marked is Ok ==> exists|after: F| !(#[trigger] after.view()).unconfirmed && F::confirms(
            flash->Ok_0,
            after,
            None,
        ),
{
}

/// A manager begins without an update, and tells what it keeps.
pub proof fn law_manager_start<F: FlashWriter>(
    flash: F,
    mgr: OtaManager<F>,
    held: &F,
    progress: &OtaProgress,
)
    requires
        call_ensures(OtaManager::<F>::new, (flash,), mgr),
        call_ensures(OtaManager::<F>::flash, (&mgr,), held),
        call_ensures(OtaManager::<F>::progress, (&mgr,), progress),
    ensures
        *held == flash,
        progress.state == OtaState::Idle,
        progress.bytes_written == 0 && progress.total_bytes == 0,
{
}

/// The partition can be changed behind the manager's back, and the manager then
/// holds what it was changed to; the progress stays.
pub proof fn law_partition_is_lent<F: FlashWriter>(mgr: &mut OtaManager<F>, lent: &mut F)
    requires
        call_ensures(OtaManager::<F>::flash_mut, (mgr,), lent),
    ensures
        *old(lent) == old(mgr).writer(),
        *final(lent) == final(mgr).writer(),
        final(mgr).status() == old(mgr).status(),
        final(mgr).expected() == old(mgr).expected(),
{
}

/// An update begins from what the decoder makes of the bytes before the first
/// zero byte, and from nothing else, and not while one is in progress.
pub proof fn law_update_begins_with_message<
    'a,
    F: FlashWriter,
    D: FnOnce(&'a [u8]) -> Option<OtaTrigger<'a>>,
>(
    mgr: &mut OtaManager<F>,
    trigger_json: &'a [u8],
    decode: D,
    r: Result<OtaTrigger<'a>, OtaError>,
)
    requires
        call_ensures(OtaManager::<F>::begin_update::<D>, (mgr, trigger_json, decode), r),
    ensures
        ({
            let busy = old(mgr).status().state == OtaState::Downloading || old(mgr).status().state
                == OtaState::Finalizing;
            let unheard = forall|json: &'a [u8], d: Option<OtaTrigger<'a>>| #[trigger]
                call_ensures(decode, (json,), d) ==> d is None;
            &&& busy ==> r == Err::<OtaTrigger<'a>, OtaError>(OtaError::AlreadyInProgress)
                && *final(mgr) == *old(mgr)
            &&& !busy && unheard ==> r == Err::<OtaTrigger<'a>, OtaError>(OtaError::InvalidTrigger)
                && *final(mgr) == *old(mgr)
            &&& r matches Ok(t) ==> {
                &&& t.url@.len() > 0 && t.size > 0
                &&& exists|json: &'a [u8]|
                    json@.is_prefix_of(trigger_json@) && !json@.contains(0u8)
                        && #[trigger] call_ensures(decode, (json,), Some(t))
                &&& final(mgr).status().state == OtaState::Downloading
                &&& final(mgr).status().bytes_written == 0
                &&& final(mgr).expected() == t.size
                &&& final(mgr).writer()@.size == t.size
                &&& final(mgr).writer()@.crc32 == t.crc32
                &&& final(mgr).writer()@.image.len() == 0
            }
        }),
        final(mgr).writer()@.boots_next ==> old(mgr).writer()@.boots_next,
{
    trigger_json@.index_of_first_ensures(0u8);
    let cut = crate::text::until_zero(trigger_json@);
    assert(cut =~= trigger_json@.subrange(0, cut.len() as int));
    assert(!cut.contains(0u8)) by {
        if cut.contains(0u8) {
            let i = choose|i: int| 0 <= i < cut.len() && cut[i] == 0u8;
            assert(trigger_json@[i] == 0u8);
        }
    }
}

} // verus!
