//! The display task: how what is to be shown is handed to it, and what it
//! draws.
//!
//! One buffer of the size of a frame serves for everything. A text, or an
//! address to be shown as QR code, is put at its beginning; an address that
//! goes with a text comes after that.

use crate::text::{cut_at_zero, utf8_text};
use vstd::prelude::*;
use vstd::string::*;

verus! {

/// Messages that wait for the display at most.
pub const DISPLAY_CHANNEL_SIZE: usize = 5;

/// Least time between two updates of the display.
pub const DISPLAY_UPDATE_DELAY_MS: u64 = 20;

/// Bytes for a text.
pub const DISPLAY_TEXT_BUFFER_LENGTH: usize = 512;

/// Bytes for an address that goes with a text.
pub const DISPLAY_URL_BUFFER_LENGTH: usize = 256;

/// Where the address that goes with a text begins.
pub const DISPLAY_URL_BUFFER_OFFSET: usize = 512;

/// Pixels in a row.
pub const DISPLAY_WIDTH: u32 = 400;

/// Rows.
pub const DISPLAY_HEIGHT: u32 = 300;

/// Bytes of a frame, eight pixels to the byte.
pub const DISPLAY_SIZE_IN_BYTES: usize = 15_000;

/// A frame.
pub type Frame = [u8; DISPLAY_SIZE_IN_BYTES];

/// What the display is told.
#[derive(Debug, Clone, Copy, PartialEq, Eq, Structural)]
pub enum DisplayMessage {
    /// Show the text in the buffer.
    Text,
    /// Show the address in the buffer as QR code.
    QRCode,
    /// Show the text in the buffer on the left and the address on the right.
    TextWithQR,
    /// Show the frame in the buffer.
    RawBinary,
    /// Refresh the display fully after so many updates.
    SetMaxCycles(u8),
}

/// What became of a message to the display.
#[derive(Debug, Clone, Copy, PartialEq, Eq, Structural)]
pub enum Queued {
    /// The buffer was in use; nothing was sent.
    Locked,
    /// Too many messages were waiting; nothing was sent.
    Full,
    /// The message was sent. What will be shown replaces the screen that
    /// reports a lost connection, so the flag for that screen is to be
    /// cleared.
    SentClearsError,
    /// The message was sent.
    Sent,
}

/// A frame buffer with a text in the `len` bytes from `start` on.
pub open spec fn with_text(frame: Seq<u8>, start: int, len: nat, text: Seq<char>) -> Seq<u8> {
    crate::secure_flash::splice(frame, start, super::matched(vstd::utf8::encode_utf8(text), len, 0))
}

/// Puts a text into the `len` bytes from `start` on.
fn put_text(frame: &mut Frame, start: usize, len: usize, text: &str)
    requires
        start + len <= DISPLAY_SIZE_IN_BYTES,
    ensures
        final(frame)@ == with_text(old(frame)@, start as int, len as nat, text@),
{
    let bytes: &[u8] = text.as_bytes();
    let mut i: usize = 0;
    while i < len
        invariant
            i <= len,
            start + len <= DISPLAY_SIZE_IN_BYTES,
            bytes@ == vstd::utf8::encode_utf8(text@),
            frame@.len() == old(frame)@.len(),
            forall|k: int|
                0 <= k < frame@.len() ==> #[trigger] frame@[k] == (if start <= k < start + i {
                    super::matched(bytes@, len as nat, 0)[k - start]
                } else {
                    old(frame)@[k]
                }),
        decreases len - i,
    {
        frame[start + i] = if i < bytes.len() {
            bytes[i]
        } else {
            0
        };
        i += 1;
    }
    assert(frame@ =~= with_text(old(frame)@, start as int, len as nat, text@));
}

/// What became of a message that clears the error flag when it is sent.
pub open spec fn sent_clearing(ok: bool) -> Queued {
    if ok {
        Queued::SentClearsError
    } else {
        Queued::Full
    }
}

/// What became of a message that leaves the error flag alone.
pub open spec fn sent_plainly(ok: bool) -> Queued {
    if ok {
        Queued::Sent
    } else {
        Queued::Full
    }
}

/// Puts a text into the buffer, unless that is in use, and tells the display
/// to show it. `try_send` sends a message and returns whether there was room.
pub fn queue_text_display<S: FnOnce(DisplayMessage) -> bool>(
    buffer: Option<&mut Frame>,
    text: &str,
    try_send: S,
) -> (r: Queued)
    requires
        buffer is Some ==> call_requires(try_send, (DisplayMessage::Text,)),
    ensures
        match buffer {
            None => r == Queued::Locked,
            Some(frame) => {
                &&& final(frame)@ == with_text(
                    (*frame)@,
                    0,
                    DISPLAY_TEXT_BUFFER_LENGTH as nat,
                    text@,
                )
                &&& exists|ok: bool| #[trigger]
                    call_ensures(try_send, (DisplayMessage::Text,), ok) && r == sent_clearing(ok)
            },
        },
{
    match buffer {
        None => Queued::Locked,
        Some(frame) => {
            put_text(frame, 0, DISPLAY_TEXT_BUFFER_LENGTH, text);
            if try_send(DisplayMessage::Text) {
                Queued::SentClearsError
            } else {
                Queued::Full
            }
        },
    }
}

/// Puts an address into the buffer, unless that is in use, and tells the
/// display to show it as QR code.
pub fn queue_qr_display<S: FnOnce(DisplayMessage) -> bool>(
    buffer: Option<&mut Frame>,
    url: &str,
    try_send: S,
) -> (r: Queued)
    requires
        buffer is Some ==> call_requires(try_send, (DisplayMessage::QRCode,)),
    ensures
        match buffer {
            None => r == Queued::Locked,
            Some(frame) => {
                &&& final(frame)@ == with_text(
                    (*frame)@,
                    0,
                    DISPLAY_TEXT_BUFFER_LENGTH as nat,
                    url@,
                )
                &&& exists|ok: bool| #[trigger]
                    call_ensures(try_send, (DisplayMessage::QRCode,), ok) && r == sent_clearing(ok)
            },
        },
{
    match buffer {
        None => Queued::Locked,
        Some(frame) => {
            put_text(frame, 0, DISPLAY_TEXT_BUFFER_LENGTH, url);
            if try_send(DisplayMessage::QRCode) {
                Queued::SentClearsError
            } else {
                Queued::Full
            }
        },
    }
}

/// Puts a text and an address into the buffer, unless that is in use, and
/// tells the display to show both.
pub fn queue_text_with_qr_display<S: FnOnce(DisplayMessage) -> bool>(
    buffer: Option<&mut Frame>,
    text: &str,
    url: &str,
    try_send: S,
) -> (r: Queued)
    requires
        buffer is Some ==> call_requires(try_send, (DisplayMessage::TextWithQR,)),
    ensures
        match buffer {
            None => r == Queued::Locked,
            Some(frame) => {
                &&& final(frame)@ == with_text(
                    with_text((*frame)@, 0, DISPLAY_TEXT_BUFFER_LENGTH as nat, text@),
                    DISPLAY_URL_BUFFER_OFFSET as int,
                    DISPLAY_URL_BUFFER_LENGTH as nat,
                    url@,
                )
                &&& exists|ok: bool| #[trigger]
                    call_ensures(try_send, (DisplayMessage::TextWithQR,), ok) && r == sent_plainly(
                        ok,
                    )
            },
        },
{
    match buffer {
        None => Queued::Locked,
        Some(frame) => {
            put_text(frame, 0, DISPLAY_TEXT_BUFFER_LENGTH, text);
            put_text(frame, DISPLAY_URL_BUFFER_OFFSET, DISPLAY_URL_BUFFER_LENGTH, url);
            if try_send(DisplayMessage::TextWithQR) {
                Queued::Sent
            } else {
                Queued::Full
            }
        },
    }
}

/// Tells the display that the frame in the buffer is complete.
pub fn queue_frame_ready<S: FnOnce(DisplayMessage) -> bool>(try_send: S) -> (r: Queued)
    requires
        call_requires(try_send, (DisplayMessage::RawBinary,)),
    ensures
        exists|ok: bool| #[trigger]
            call_ensures(try_send, (DisplayMessage::RawBinary,), ok) && r == sent_clearing(ok),
{
    if try_send(DisplayMessage::RawBinary) {
        Queued::SentClearsError
    } else {
        Queued::Full
    }
}

/// Tells the display after how many updates to refresh fully.
pub fn queue_set_max_cycles<S: FnOnce(DisplayMessage) -> bool>(cycles: u8, try_send: S) -> (r:
    Queued)
    requires
        call_requires(try_send, (DisplayMessage::SetMaxCycles(cycles),)),
    ensures
        exists|ok: bool| #[trigger]
            call_ensures(try_send, (DisplayMessage::SetMaxCycles(cycles),), ok) && r
                == sent_plainly(ok),
{
    if try_send(DisplayMessage::SetMaxCycles(cycles)) {
        Queued::Sent
    } else {
        Queued::Full
    }
}

/// How many of `len` bytes fit into the buffer from `offset` on.
pub open spec fn fitting(offset: int, len: int) -> int {
    if offset >= DISPLAY_SIZE_IN_BYTES {
        0
    } else if len < DISPLAY_SIZE_IN_BYTES - offset {
        len
    } else {
        DISPLAY_SIZE_IN_BYTES - offset
    }
}

/// Puts bytes into the buffer from `offset` on, as far as they fit, and
/// returns how many did; `None` if the buffer is in use.
pub fn append_to_display_buffer(buffer: Option<&mut Frame>, data: &[u8], offset: usize) -> (r:
    Option<usize>)
    ensures
        match buffer {
            None => r is None,
            Some(frame) => {
                &&& r == Some(fitting(offset as int, data@.len() as int) as usize)
                &&& final(frame)@ == crate::secure_flash::splice(
                    (*frame)@,
                    offset as int,
                    data@.take(fitting(offset as int, data@.len() as int)),
                )
            },
        },
{
    match buffer {
        None => None,
        Some(frame) => {
            let available: usize = if offset >= DISPLAY_SIZE_IN_BYTES {
                0
            } else {
                DISPLAY_SIZE_IN_BYTES - offset
            };
            let copy_len: usize = if data.len() < available {
                data.len()
            } else {
                available
            };
            let ghost before = frame@;
            let ghost part = data@.take(fitting(offset as int, data@.len() as int));
            let mut i: usize = 0;
            while i < copy_len
                invariant
                    i <= copy_len,
                    copy_len == part.len(),
                    copy_len <= data@.len(),
                    copy_len == 0 || offset + copy_len <= DISPLAY_SIZE_IN_BYTES,
                    frame@.len() == before.len(),
                    part == data@.take(copy_len as int),
                    forall|k: int|
                        0 <= k < frame@.len() ==> #[trigger] frame@[k] == (if offset <= k < offset
                            + i {
                            part[k - offset]
                        } else {
                            before[k]
                        }),
                decreases copy_len - i,
            {
                frame[offset + i] = data[i];
                i += 1;
            }
            proof {
                assert(frame@ =~= crate::secure_flash::splice(before, offset as int, part));
            }
            Some(copy_len)
        },
    }
}

/// An empty frame.
pub open spec fn blank() -> Seq<u8> {
    Seq::new(DISPLAY_SIZE_IN_BYTES as nat, |i: int| 0u8)
}

/// Clears the buffer, unless it is in use.
pub fn reset_display_buffer(buffer: Option<&mut Frame>)
    ensures
        buffer matches Some(frame) ==> final(frame)@ == blank(),
{
    if let Some(frame) = buffer {
        let mut i: usize = 0;
        while i < DISPLAY_SIZE_IN_BYTES
            invariant
                i <= DISPLAY_SIZE_IN_BYTES,
                forall|k: int| 0 <= k < i ==> #[trigger] frame@[k] == 0u8,
            decreases DISPLAY_SIZE_IN_BYTES - i,
        {
            frame[i] = 0;
            i += 1;
        }
        assert(frame@ =~= blank());
    }
}

/// Swaps black and white.
pub fn invert_buffer(buffer: &mut [u8])
    ensures
        final(buffer)@ == inverted(old(buffer)@),
{
    let mut i: usize = 0;
    while i < buffer.len()
        invariant
            i <= buffer@.len(),
            buffer@.len() == old(buffer)@.len(),
            forall|k: int|
                0 <= k < buffer@.len() ==> #[trigger] buffer@[k] == (if k < i {
                    old(buffer)@[k] ^ 0xFF
                } else {
                    old(buffer)@[k]
                }),
        decreases buffer@.len() - i,
    {
        buffer[i] = buffer[i] ^ 0xFF;
        i += 1;
    }
    assert(buffer@ =~= inverted(old(buffer)@));
}

/// Bytes with all bits flipped.
pub open spec fn inverted(bytes: Seq<u8>) -> Seq<u8> {
    Seq::new(bytes.len(), |i: int| bytes[i] ^ 0xFF)
}

/// Swapping black and white twice changes nothing.
pub proof fn law_invert_twice(bytes: Seq<u8>)
    ensures
        inverted(inverted(bytes)) == bytes,
{
    assert forall|i: int| 0 <= i < bytes.len() implies inverted(inverted(bytes))[i] == bytes[i] by {
        let b = bytes[i];
        assert((b ^ 0xFF) ^ 0xFF == b) by (bit_vector);
    }
    assert(inverted(inverted(bytes)) =~= bytes);
}

/// What the display task draws for a message.
#[derive(Debug)]
pub enum RenderJob {
    /// A text.
    Text(String),
    /// An address as QR code.
    QrCode(String),
    /// A text and an address as QR code.
    TextWithQr(String, String),
    /// The frame in the buffer.
    Frame,
    /// Nothing is drawn; full refreshes come after so many updates.
    SetMaxCycles(u8),
    /// Nothing: the text is empty.
    Nothing,
    /// Nothing: what is in the buffer cannot be drawn.
    Invalid(&'static str),
}

/// A [`RenderJob`] as mathematical text.
pub enum RenderJobView {
    Text(Seq<char>),
    QrCode(Seq<char>),
    TextWithQr(Seq<char>, Seq<char>),
    Frame,
    SetMaxCycles(u8),
    Nothing,
    Invalid(Seq<char>),
}

impl RenderJob {
    pub open spec fn view(&self) -> RenderJobView {
        match self {
            RenderJob::Text(text) => RenderJobView::Text(text@),
            RenderJob::QrCode(url) => RenderJobView::QrCode(url@),
            RenderJob::TextWithQr(text, url) => RenderJobView::TextWithQr(text@, url@),
            RenderJob::Frame => RenderJobView::Frame,
            RenderJob::SetMaxCycles(cycles) => RenderJobView::SetMaxCycles(*cycles),
            RenderJob::Nothing => RenderJobView::Nothing,
            RenderJob::Invalid(fault) => RenderJobView::Invalid(fault@),
        }
    }
}

/// The text in a part of the buffer: the bytes before the first zero byte, if
/// they are valid UTF-8.
pub open spec fn stored_text(area: Seq<u8>) -> Option<Seq<char>> {
    let bytes = crate::text::until_zero(area);
    if vstd::utf8::valid_utf8(bytes) {
        Some(vstd::utf8::decode_utf8(bytes))
    } else {
        None
    }
}

/// The part of a buffer for a text.
pub open spec fn text_area(frame: Seq<u8>) -> Seq<u8> {
    frame.subrange(0, DISPLAY_TEXT_BUFFER_LENGTH as int)
}

/// The part of a buffer for an address that goes with a text.
pub open spec fn url_area(frame: Seq<u8>) -> Seq<u8> {
    frame.subrange(
        DISPLAY_URL_BUFFER_OFFSET as int,
        DISPLAY_URL_BUFFER_OFFSET + DISPLAY_URL_BUFFER_LENGTH,
    )
}

/// What is drawn for a message, with this buffer.
pub open spec fn job_for(message: DisplayMessage, frame: Seq<u8>) -> RenderJobView {
    match message {
        DisplayMessage::Text => match stored_text(text_area(frame)) {
            None => RenderJobView::Invalid("Invalid UTF-8 in text buffer"@),
            Some(text) => if text.len() == 0 {
                RenderJobView::Nothing
            } else {
                RenderJobView::Text(text)
            },
        },
        DisplayMessage::QRCode => match stored_text(text_area(frame)) {
            None => RenderJobView::Invalid("Invalid UTF-8 in URL buffer"@),
            Some(url) => if url.len() == 0 {
                RenderJobView::Nothing
            } else {
                RenderJobView::QrCode(url)
            },
        },
        DisplayMessage::TextWithQR => match (
            stored_text(text_area(frame)),
            stored_text(url_area(frame)),
        ) {
            (Some(text), Some(url)) => if text.len() > 0 && url.len() > 0 {
                RenderJobView::TextWithQr(text, url)
            } else {
                RenderJobView::Invalid("Invalid UTF-8 or empty content in text/URL buffer"@)
            },
            _ => RenderJobView::Invalid("Invalid UTF-8 or empty content in text/URL buffer"@),
        },
        DisplayMessage::RawBinary => RenderJobView::Frame,
        DisplayMessage::SetMaxCycles(cycles) => RenderJobView::SetMaxCycles(cycles),
    }
}

/// Reads the text in a part of the buffer.
fn read_text(area: &[u8]) -> (r: Option<&str>)
    ensures
        match stored_text(area@) {
            Some(text) => r matches Some(s) && s@ == text,
            None => r is None,
        },
{
    let bytes: &[u8] = cut_at_zero(area);
    let r: Option<&str> = utf8_text(bytes);
    proof {
        if let Some(s) = r {
            vstd::utf8::encode_utf8_decode_utf8(s@);
        }
    }
    r
}

/// What the display task draws for a message. Texts are copied, since drawing
/// reuses the buffer.
pub fn render_job(message: DisplayMessage, frame: &Frame) -> (r: RenderJob)
    ensures
        r@ == job_for(message, frame@),
{
    let all: &[u8] = frame;
    match message {
        DisplayMessage::Text => match read_text(&all[0..DISPLAY_TEXT_BUFFER_LENGTH]) {
            None => RenderJob::Invalid("Invalid UTF-8 in text buffer"),
            Some(text) => if text.is_empty() {
                RenderJob::Nothing
            } else {
                RenderJob::Text(text.to_owned())
            },
        },
        DisplayMessage::QRCode => match read_text(&all[0..DISPLAY_TEXT_BUFFER_LENGTH]) {
            None => RenderJob::Invalid("Invalid UTF-8 in URL buffer"),
            Some(url) => if url.is_empty() {
                RenderJob::Nothing
            } else {
                RenderJob::QrCode(url.to_owned())
            },
        },
        DisplayMessage::TextWithQR => {
            let end: usize = DISPLAY_URL_BUFFER_OFFSET + DISPLAY_URL_BUFFER_LENGTH;
            match (
                read_text(&all[0..DISPLAY_TEXT_BUFFER_LENGTH]),
                read_text(&all[DISPLAY_URL_BUFFER_OFFSET..end]),
            ) {
                (Some(text), Some(url)) => if !text.is_empty() && !url.is_empty() {
                    RenderJob::TextWithQr(text.to_owned(), url.to_owned())
                } else {
                    RenderJob::Invalid("Invalid UTF-8 or empty content in text/URL buffer")
                },
                _ => RenderJob::Invalid("Invalid UTF-8 or empty content in text/URL buffer"),
            }
        },
        DisplayMessage::RawBinary => RenderJob::Frame,
        DisplayMessage::SetMaxCycles(cycles) => RenderJob::SetMaxCycles(cycles),
    }
}

/// Whether the indicator light is on while a message is handled.
pub fn lights_indicator(message: DisplayMessage) -> (r: bool)
    ensures
        r == (message is Text || message is QRCode || message is TextWithQR),
{
    match message {
        DisplayMessage::Text | DisplayMessage::QRCode | DisplayMessage::TextWithQR => true,
        _ => false,
    }
}

/// A font.
#[derive(Debug, Clone, Copy, PartialEq, Eq, Structural)]
pub enum Font {
    ExtraLarge24,
    Large10x20,
}

/// Where and how a text is drawn, aligned to the left.
#[derive(Debug, Clone, Copy, PartialEq, Eq, Structural)]
pub struct TextLayout {
    pub font: Font,
    pub max_width: u32,
    pub x: i32,
    pub y: i32,
}

/// Where a QR code is centered, and how large it is at most.
#[derive(Debug, Clone, Copy, PartialEq, Eq, Structural)]
pub struct QrLayout {
    pub x: u32,
    pub y: u32,
    pub width: u32,
    pub height: u32,
    pub max_size: u32,
}

/// What is painted.
#[derive(Debug, Clone, Copy, PartialEq, Eq, Structural)]
pub enum Painting {
    Text,
    QrCode,
    TextWithQr,
    Frame,
}

/// One step of painting.
#[derive(Debug, Clone, Copy, PartialEq, Eq, Structural)]
pub enum PaintStep {
    /// Turn the display on.
    TurnOn,
    /// Draw the text on an empty frame.
    DrawText(TextLayout),
    /// Draw the text over what is there.
    OverlayText(TextLayout),
    /// Draw the QR code on an empty frame.
    DrawQr(QrLayout),
    /// Swap black and white.
    Invert,
    /// Send the frame to the display.
    Update,
    /// Turn the display off.
    TurnOff,
}

/// Width of the text beside a QR code.
pub const TEXT_WIDTH: u32 = 220;

/// Width of the QR code beside a text.
pub const QR_AREA_WIDTH: u32 = 180;

/// The steps of painting, in order.
pub open spec fn paint_steps(painting: Painting) -> Seq<PaintStep> {
    match painting {
        Painting::Text => seq![
            PaintStep::TurnOn,
            PaintStep::DrawText(
                TextLayout { font: Font::ExtraLarge24, max_width: DISPLAY_WIDTH, x: 1, y: 30 },
            ),
            PaintStep::Invert,
            PaintStep::Update,
            PaintStep::TurnOff,
        ],
        Painting::QrCode => seq![
            PaintStep::TurnOn,
            PaintStep::DrawQr(
                QrLayout {
                    x: 0,
                    y: 0,
                    width: DISPLAY_WIDTH,
                    height: DISPLAY_HEIGHT,
                    max_size: 240,
                },
            ),
            PaintStep::Invert,
            PaintStep::Update,
            PaintStep::TurnOff,
        ],
        Painting::TextWithQr => seq![
            PaintStep::TurnOn,
            PaintStep::DrawQr(
                QrLayout {
                    x: TEXT_WIDTH,
                    y: 0,
                    width: QR_AREA_WIDTH,
                    height: DISPLAY_HEIGHT,
                    max_size: 160,
                },
            ),
            PaintStep::OverlayText(
                TextLayout {
                    font: Font::Large10x20,
                    max_width: (TEXT_WIDTH - 10) as u32,
                    x: 5,
                    y: 25,
                },
            ),
            PaintStep::Update,
            PaintStep::TurnOff,
        ],
        Painting::Frame => seq![PaintStep::TurnOn, PaintStep::Update, PaintStep::TurnOff],
    }
}

/// The step of painting with this number, if there are so many.
pub fn paint_step(painting: Painting, index: usize) -> (r: Option<PaintStep>)
    ensures
        r == (if index < paint_steps(painting).len() {
            Some(paint_steps(painting)[index as int])
        } else {
            None
        }),
{
    match (painting, index) {
        (_, 0) => Some(PaintStep::TurnOn),
        (Painting::Text, 1) => Some(
            PaintStep::DrawText(
                TextLayout { font: Font::ExtraLarge24, max_width: DISPLAY_WIDTH, x: 1, y: 30 },
            ),
        ),
        (Painting::QrCode, 1) => Some(
            PaintStep::DrawQr(
                QrLayout {
                    x: 0,
                    y: 0,
                    width: DISPLAY_WIDTH,
                    height: DISPLAY_HEIGHT,
                    max_size: 240,
                },
            ),
        ),
        (Painting::TextWithQr, 1) => Some(
            PaintStep::DrawQr(
                QrLayout {
                    x: TEXT_WIDTH,
                    y: 0,
                    width: QR_AREA_WIDTH,
                    height: DISPLAY_HEIGHT,
                    max_size: 160,
                },
            ),
        ),
        (Painting::Frame, 1) => Some(PaintStep::Update),
        (Painting::Frame, 2) => Some(PaintStep::TurnOff),
        (Painting::Frame, _) => None,
        (Painting::TextWithQr, 2) => Some(
            PaintStep::OverlayText(
                TextLayout { font: Font::Large10x20, max_width: TEXT_WIDTH - 10, x: 5, y: 25 },
            ),
        ),
        (_, 2) => Some(PaintStep::Invert),
        (_, 3) => Some(PaintStep::Update),
        (_, 4) => Some(PaintStep::TurnOff),
        _ => None,
    }
}

/// What a failure of a step is reported as; drawing a text and swapping
/// colours cannot fail.
pub open spec fn step_fault(painting: Painting, step: PaintStep) -> Option<Seq<char>> {
    match step {
        PaintStep::TurnOn => Some("Failed to turn on display"@),
        PaintStep::DrawQr(_) => if painting == Painting::TextWithQr {
            Some("QR gen failed (url too long for version 10)"@)
        } else {
            Some("Failed to generate QR code"@)
        },
        PaintStep::Update => Some("Failed to update display"@),
        PaintStep::TurnOff => Some("Failed to turn off display"@),
        _ => None,
    }
}

/// What comes after step `index` of painting: the next step, `None` when all
/// are done, or, if the step failed, the error to report.
pub fn after_paint_step(painting: Painting, index: usize, ok: bool) -> (r: Result<
    Option<PaintStep>,
    &'static str,
>)
    requires
        index < paint_steps(painting).len(),
    ensures
        match step_fault(painting, paint_steps(painting)[index as int]) {
            Some(fault) => if ok {
                r == Ok::<Option<PaintStep>, &'static str>(
                    if index + 1 < paint_steps(painting).len() {
                        Some(paint_steps(painting)[index + 1])
                    } else {
                        None
                    },
                )
            } else {
                r matches Err(e) && e@ == fault
            },
            None => r == Ok::<Option<PaintStep>, &'static str>(
                Some(paint_steps(painting)[index + 1]),
            ),
        },
{
    if !ok {
        match paint_step(painting, index) {
            Some(PaintStep::TurnOn) => {
                return Err("Failed to turn on display");
            },
            Some(PaintStep::DrawQr(_)) => {
                return match painting {
                    Painting::TextWithQr => Err("QR gen failed (url too long for version 10)"),
                    _ => Err("Failed to generate QR code"),
                };
            },
            Some(PaintStep::Update) => {
                return Err("Failed to update display");
            },
            Some(PaintStep::TurnOff) => {
                return Err("Failed to turn off display");
            },
            _ => {},
        }
    }
    Ok(paint_step(painting, index + 1))
}

/// Painting turns the display on first, sends one frame, and turns the display
/// off last.
pub proof fn law_paint_order(painting: Painting)
    ensures
        ({
            let steps = paint_steps(painting);
            let n = steps.len() as int;
            &&& n >= 3
            &&& steps[0] == PaintStep::TurnOn
            &&& steps[n - 2] == PaintStep::Update
            &&& steps[n - 1] == PaintStep::TurnOff
            &&& forall|i: int|
                0 < i < n - 2 ==> !((#[trigger] steps[i]) is TurnOn) && !(steps[i] is Update)
                    && !(steps[i] is TurnOff)
        }),
{
}

/// A short text without a zero byte is found again before its padding.
proof fn lemma_padded_until_zero(bytes: Seq<u8>, len: nat)
    requires
        bytes.len() <= len,
        !bytes.contains(0u8),
    ensures
        crate::text::until_zero(super::matched(bytes, len, 0)) == bytes,
{
    let area = super::matched(bytes, len, 0);
    area.index_of_first_ensures(0u8);
    assert forall|i: int| 0 <= i < bytes.len() implies area[i] != 0u8 by {
        assert(bytes.contains(bytes[i]));
    }
    if bytes.len() < len {
        assert(area[bytes.len() as int] == 0u8);
        assert(area.contains(0u8));
        assert(area.take(bytes.len() as int) =~= bytes);
    } else {
        assert(area =~= bytes);
    }
}

/// A text that fits its part of the buffer and holds no zero byte is read back
/// from there.
proof fn lemma_stored_text(text: Seq<char>, len: nat)
    requires
        vstd::utf8::encode_utf8(text).len() <= len,
        !vstd::utf8::encode_utf8(text).contains(0u8),
    ensures
        stored_text(super::matched(vstd::utf8::encode_utf8(text), len, 0)) == Some(text),
{
    lemma_padded_until_zero(vstd::utf8::encode_utf8(text), len);
    vstd::utf8::encode_utf8_valid_utf8(text);
    vstd::utf8::encode_utf8_decode_utf8(text);
}

/// What is handed to the display is what it draws: a text that was put into
/// the buffer is drawn, and so is an address as QR code.
pub proof fn law_queued_text_is_drawn(frame: Seq<u8>, text: Seq<char>)
    requires
        frame.len() == DISPLAY_SIZE_IN_BYTES,
        text.len() > 0,
        vstd::utf8::encode_utf8(text).len() <= DISPLAY_TEXT_BUFFER_LENGTH,
        !vstd::utf8::encode_utf8(text).contains(0u8),
    ensures
        ({
            let queued = with_text(frame, 0, DISPLAY_TEXT_BUFFER_LENGTH as nat, text);
            &&& job_for(DisplayMessage::Text, queued) == RenderJobView::Text(text)
            &&& job_for(DisplayMessage::QRCode, queued) == RenderJobView::QrCode(text)
        }),
{
    let len = DISPLAY_TEXT_BUFFER_LENGTH as nat;
    let queued = with_text(frame, 0, len, text);
    lemma_stored_text(text, len);
    assert(text_area(queued) =~= super::matched(vstd::utf8::encode_utf8(text), len, 0));
}

/// What is handed to the display is what it draws: a text and an address that
/// were put into the buffer are drawn side by side.
pub proof fn law_queued_text_with_qr_is_drawn(frame: Seq<u8>, text: Seq<char>, url: Seq<char>)
    requires
        frame.len() == DISPLAY_SIZE_IN_BYTES,
        text.len() > 0,
        url.len() > 0,
        vstd::utf8::encode_utf8(text).len() <= DISPLAY_TEXT_BUFFER_LENGTH,
        vstd::utf8::encode_utf8(url).len() <= DISPLAY_URL_BUFFER_LENGTH,
        !vstd::utf8::encode_utf8(text).contains(0u8),
        !vstd::utf8::encode_utf8(url).contains(0u8),
    ensures
        job_for(
            DisplayMessage::TextWithQR,
            with_text(
                with_text(frame, 0, DISPLAY_TEXT_BUFFER_LENGTH as nat, text),
                DISPLAY_URL_BUFFER_OFFSET as int,
                DISPLAY_URL_BUFFER_LENGTH as nat,
                url,
            ),
        ) == RenderJobView::TextWithQr(text, url),
{
    let len = DISPLAY_TEXT_BUFFER_LENGTH as nat;
    let url_len = DISPLAY_URL_BUFFER_LENGTH as nat;
    let first = with_text(frame, 0, len, text);
    let queued = with_text(first, DISPLAY_URL_BUFFER_OFFSET as int, url_len, url);
    lemma_stored_text(text, len);
    lemma_stored_text(url, url_len);
    assert(text_area(queued) =~= super::matched(vstd::utf8::encode_utf8(text), len, 0));
    assert(url_area(queued) =~= super::matched(vstd::utf8::encode_utf8(url), url_len, 0));
}

// =============================================================================
// What is shown
// =============================================================================

/// The frame while it is painted, and what the display shows of it.
pub struct Canvas {
    /// The display is on.
    pub on: bool,
    /// The text is in the frame.
    pub text: bool,
    /// The QR code is in the frame.
    pub qr: bool,
    /// Black and white are swapped in the frame.
    pub swapped: bool,
    /// How often a frame was sent to the display while it was on.
    pub updates: nat,
    /// The last frame that was sent held the text.
    pub shows_text: bool,
    /// The last frame that was sent held the QR code.
    pub shows_qr: bool,
    /// Black and white were swapped in the last frame that was sent.
    pub shows_swapped: bool,
}

/// The canvas after one step: what is drawn on an empty frame is all that it
/// holds then.
pub open spec fn painted(canvas: Canvas, step: PaintStep) -> Canvas {
    match step {
        PaintStep::TurnOn => Canvas { on: true, ..canvas },
        PaintStep::TurnOff => Canvas { on: false, ..canvas },
        PaintStep::DrawText(_) => Canvas { text: true, qr: false, swapped: false, ..canvas },
        PaintStep::DrawQr(_) => Canvas { text: false, qr: true, swapped: false, ..canvas },
        PaintStep::OverlayText(_) => Canvas { text: true, ..canvas },
        PaintStep::Invert => Canvas { swapped: !canvas.swapped, ..canvas },
        PaintStep::Update => if canvas.on {
            Canvas {
                updates: canvas.updates + 1,
                shows_text: canvas.text,
                shows_qr: canvas.qr,
                shows_swapped: canvas.swapped,
                ..canvas
            }
        } else {
            canvas
        },
    }
}

/// The canvas after steps, one after the other.
pub open spec fn all_painted(canvas: Canvas, steps: Seq<PaintStep>) -> Canvas
    decreases steps.len(),
{
    if steps.len() == 0 {
        canvas
    } else {
        painted(all_painted(canvas, steps.drop_last()), steps.last())
    }
}

/// The steps are those that are handed out for a painting, one by one, and no
/// more are.
pub open spec fn handed_out(painting: Painting, steps: Seq<PaintStep>) -> bool {
    &&& steps.len() < usize::MAX
    &&& forall|i: int|
        0 <= i < steps.len() ==> call_ensures(
            paint_step,
            (painting, i as usize),
            Some(#[trigger] steps[i]),
        )
    &&& call_ensures(paint_step, (painting, steps.len() as usize), None::<PaintStep>)
}

/// A painting shows what it is for: a text alone, a QR code alone, both of them,
/// or the frame as it is. That is sent to the display once, while it is on, and
/// the display is off at the end. A text alone and a QR code alone are shown
/// with black and white swapped.
#[verifier::rlimit(60)]
pub proof fn law_paintings_show_their_content(
    painting: Painting,
    steps: Seq<PaintStep>,
    start: Canvas,
)
    requires
        handed_out(painting, steps),
    ensures
        ({
            let end = all_painted(start, steps);
            &&& end.updates == start.updates + 1
            &&& !end.on
            &&& painting == Painting::Text ==> end.shows_text && !end.shows_qr && end.shows_swapped
            &&& painting == Painting::QrCode ==> !end.shows_text && end.shows_qr
                && end.shows_swapped
            &&& painting == Painting::TextWithQr ==> end.shows_text && end.shows_qr
                && !end.shows_swapped
            &&& painting == Painting::Frame ==> end.shows_text == start.text && end.shows_qr
                == start.qr && end.shows_swapped == start.swapped
        }),
{
    let wanted = paint_steps(painting);
    assert(steps.len() == wanted.len()) by {
        if steps.len() > wanted.len() {
            assert(call_ensures(
                paint_step,
                (painting, wanted.len() as usize),
                Some(steps[wanted.len() as int]),
            ));
        }
    }
    assert forall|i: int| 0 <= i < steps.len() implies steps[i] == wanted[i] by {
        assert(call_ensures(paint_step, (painting, i as usize), Some(steps[i])));
    }
    assert(steps =~= wanted);
    reveal_with_fuel(all_painted, 7);
    let n = steps.len() as int;
    assert(steps.drop_last() =~= steps.take(n - 1));
    assert(steps.take(n - 1).drop_last() =~= steps.take(n - 2));
    if n == 5 {
        assert(steps.take(3).drop_last() =~= steps.take(2));
        assert(steps.take(2).drop_last() =~= steps.take(1));
    }
    assert(steps.take(1).drop_last() =~= steps.take(0));
}

/// Where things are drawn: all on the display, a text beside a QR code to the
/// left of it, and the QR code as large as there is room for, at most.
pub proof fn law_layout(painting: Painting, index: usize, step: PaintStep)
    requires
        call_ensures(paint_step, (painting, index), Some(step)),
    ensures
        match step {
            PaintStep::DrawQr(qr) => {
                &&& qr.x + qr.width == 400
                &&& qr.y == 0 && qr.height == 300
                &&& qr.max_size <= qr.width && qr.max_size <= qr.height
                &&& painting == Painting::QrCode ==> qr.x == 0 && qr.max_size == 240
                &&& painting == Painting::TextWithQr ==> qr.x == 220 && qr.max_size == 160
            },
            PaintStep::OverlayText(text) => {
                &&& painting == Painting::TextWithQr
                &&& 0 <= text.x && text.x + text.max_width <= 220
                &&& text.max_width == 210
                &&& 20 <= text.y < 300
                &&& text.font == Font::Large10x20
            },
            PaintStep::DrawText(text) => {
                &&& painting == Painting::Text
                &&& text.max_width == 400
                &&& 0 <= text.x < 400 && 24 <= text.y < 300
                &&& text.font == Font::ExtraLarge24
            },
            _ => true,
        },
{
}

/// Painting goes on from step to step as long as none fails. The first step
/// that fails ends it, and what is reported names that step; drawing a text
/// and swapping colours do not fail.
pub proof fn law_painting_goes_on(
    painting: Painting,
    index: usize,
    step: PaintStep,
    next: Option<PaintStep>,
    ok: bool,
    r: Result<Option<PaintStep>, &'static str>,
)
    requires
        index < 5,
        call_ensures(paint_step, (painting, index), Some(step)),
        call_ensures(paint_step, (painting, (index + 1) as usize), next),
        call_ensures(after_paint_step, (painting, index, ok), r),
    ensures
        r is Err <==> !ok && (step is TurnOn || step is DrawQr || step is Update
            || step is TurnOff),
        r matches Ok(then) ==> then == next,
        r matches Err(e) ==> match step {
            PaintStep::TurnOn => e@ == "Failed to turn on display"@,
            PaintStep::TurnOff => e@ == "Failed to turn off display"@,
            PaintStep::Update => e@ == "Failed to update display"@,
            _ => if painting == Painting::QrCode {
                e@ == "Failed to generate QR code"@
            } else {
                e@ == "QR gen failed (url too long for version 10)"@
            },
        },
{
}

/// What is queued is drawn: a text that fits and holds no zero byte comes back
/// from the buffer as it was put there, and the display is told once, if there
/// was room. The flag for a lost connection is cleared exactly then.
pub proof fn law_text_reaches_display<S: FnOnce(DisplayMessage) -> bool>(
    frame: &mut Frame,
    text: &str,
    try_send: S,
    queued: Queued,
    later: &Frame,
    job: RenderJob,
)
    requires
        call_ensures(queue_text_display::<S>, (Some(frame), text, try_send), queued),
        call_ensures(render_job, (DisplayMessage::Text, later), job),
        0 < text@.len(),
        vstd::utf8::encode_utf8(text@).len() <= 512,
        !vstd::utf8::encode_utf8(text@).contains(0u8),
    ensures
        later@ == final(frame)@ ==> (job matches RenderJob::Text(t) && t@ == text@),
        queued == Queued::SentClearsError || queued == Queued::Full,
        call_ensures(
            try_send,
            (DisplayMessage::Text,),
            queued == Queued::SentClearsError,
        ),
{
    law_queued_text_is_drawn(old(frame)@, text@);
}

/// What is queued is drawn: an address that fits and holds no zero byte comes
/// back from the buffer as it was put there, as QR code.
pub proof fn law_address_reaches_display<S: FnOnce(DisplayMessage) -> bool>(
    frame: &mut Frame,
    url: &str,
    try_send: S,
    queued: Queued,
    later: &Frame,
    job: RenderJob,
)
    requires
        call_ensures(queue_qr_display::<S>, (Some(frame), url, try_send), queued),
        call_ensures(render_job, (DisplayMessage::QRCode, later), job),
        0 < url@.len(),
        vstd::utf8::encode_utf8(url@).len() <= 512,
        !vstd::utf8::encode_utf8(url@).contains(0u8),
    ensures
        later@ == final(frame)@ ==> (job matches RenderJob::QrCode(u) && u@ == url@),
        queued == Queued::SentClearsError || queued == Queued::Full,
        call_ensures(
            try_send,
            (DisplayMessage::QRCode,),
            queued == Queued::SentClearsError,
        ),
{
    law_queued_text_is_drawn(old(frame)@, url@);
}

/// What is queued is drawn: a text and an address come back from the buffer as
/// they were put there. These are the device's own screens, which leave the
/// flag for a lost connection alone.
pub proof fn law_text_and_address_reach_display<S: FnOnce(DisplayMessage) -> bool>(
    frame: &mut Frame,
    text: &str,
    url: &str,
    try_send: S,
    queued: Queued,
    later: &Frame,
    job: RenderJob,
)
    requires
        call_ensures(queue_text_with_qr_display::<S>, (Some(frame), text, url, try_send), queued),
        call_ensures(render_job, (DisplayMessage::TextWithQR, later), job),
        0 < text@.len(),
        0 < url@.len(),
        vstd::utf8::encode_utf8(text@).len() <= 512,
        vstd::utf8::encode_utf8(url@).len() <= 256,
        !vstd::utf8::encode_utf8(text@).contains(0u8),
        !vstd::utf8::encode_utf8(url@).contains(0u8),
    ensures
        later@ == final(frame)@ ==> (job matches RenderJob::TextWithQr(t, u) && t@ == text@ && u@
            == url@),
        queued == Queued::Sent || queued == Queued::Full,
        call_ensures(try_send, (DisplayMessage::TextWithQR,), queued == Queued::Sent),
{
    law_queued_text_with_qr_is_drawn(old(frame)@, text@, url@);
}

/// While the buffer is in use, nothing is queued.
pub proof fn law_nothing_is_queued_while_in_use<S: FnOnce(DisplayMessage) -> bool>(
    text: &str,
    url: &str,
    first: S,
    second: S,
    third: S,
    a: Queued,
    b: Queued,
    c: Queued,
)
    requires
        call_ensures(queue_text_display::<S>, (None, text, first), a),
        call_ensures(queue_qr_display::<S>, (None, url, second), b),
        call_ensures(queue_text_with_qr_display::<S>, (None, text, url, third), c),
    ensures
        a == Queued::Locked && b == Queued::Locked && c == Queued::Locked,
{
}

/// A frame, and the number of updates between two full refreshes, are handed
/// over with one message. A frame replaces what was shown, so it clears the
/// flag for a lost connection; the number does not.
pub proof fn law_messages_without_text<S: FnOnce(DisplayMessage) -> bool>(
    cycles: u8,
    first: S,
    second: S,
    a: Queued,
    b: Queued,
    frame: &Frame,
    shown: RenderJob,
    set: RenderJob,
)
    requires
        call_ensures(queue_frame_ready::<S>, (first,), a),
        call_ensures(queue_set_max_cycles::<S>, (cycles, second), b),
        call_ensures(render_job, (DisplayMessage::RawBinary, frame), shown),
        call_ensures(render_job, (DisplayMessage::SetMaxCycles(cycles), frame), set),
    ensures
        a == Queued::SentClearsError || a == Queued::Full,
        call_ensures(first, (DisplayMessage::RawBinary,), a == Queued::SentClearsError),
        b == Queued::Sent || b == Queued::Full,
        call_ensures(second, (DisplayMessage::SetMaxCycles(cycles),), b == Queued::Sent),
        shown is Frame,
        set matches RenderJob::SetMaxCycles(n) && n == cycles,
{
}

/// An empty text, and an empty address, are not drawn; a text without an
/// address, or an address without a text, is not drawn as both.
pub proof fn law_empty_content_is_not_drawn(
    frame: &Frame,
    text: RenderJob,
    qr: RenderJob,
    both: RenderJob,
)
    requires
        call_ensures(render_job, (DisplayMessage::Text, frame), text),
        call_ensures(render_job, (DisplayMessage::QRCode, frame), qr),
        call_ensures(render_job, (DisplayMessage::TextWithQR, frame), both),
    ensures
        frame@[0] == 0 ==> text is Nothing && qr is Nothing && both is Invalid,
        frame@[512] == 0 ==> both is Invalid,
        text matches RenderJob::Text(t) ==> t@.len() > 0,
        qr matches RenderJob::QrCode(u) ==> u@.len() > 0,
        both matches RenderJob::TextWithQr(t, u) ==> t@.len() > 0 && u@.len() > 0,
        text is Text <==> qr is QrCode,
        both is TextWithQr ==> text is Text,
        !(text is QrCode || text is TextWithQr || text is Frame || text is SetMaxCycles),
        !(qr is Text || qr is TextWithQr || qr is Frame || qr is SetMaxCycles),
{
    let t = text_area(frame@);
    let u = url_area(frame@);
    t.index_of_first_ensures(0u8);
    u.index_of_first_ensures(0u8);
    assert(t[0] == frame@[0] && u[0] == frame@[512]);
    let none: Seq<u8> = Seq::empty();
    assert(vstd::utf8::encode_utf8(Seq::<char>::empty()) =~= none);
    vstd::utf8::encode_utf8_valid_utf8(Seq::<char>::empty());
    vstd::utf8::encode_utf8_decode_utf8(Seq::<char>::empty());
    if frame@[0] == 0 {
        assert(t.contains(0u8));
        assert(crate::text::until_zero(t) =~= none);
    }
    if frame@[512] == 0 {
        assert(u.contains(0u8));
        assert(crate::text::until_zero(u) =~= none);
    }
}

/// The indicator light is on for what the device itself draws, and off for
/// frames that arrive and for settings.
pub proof fn law_indicator(message: DisplayMessage, on: bool)
    requires
        call_ensures(lights_indicator, (message,), on),
    ensures
        on <==> !(message is RawBinary) && !(message is SetMaxCycles),
{
}

/// Bytes that are appended are in the buffer where they belong, as far as they
/// fit, nothing else changes, and their number is returned.
pub proof fn law_appended_bytes(
    frame: &mut Frame,
    data: &[u8],
    offset: usize,
    r: Option<usize>,
)
    requires
        call_ensures(append_to_display_buffer, (Some(frame), data, offset), r),
    ensures
        r matches Some(n) && {
            &&& n <= data@.len()
            &&& offset + data@.len() <= 15_000 ==> n == data@.len()
            &&& offset + data@.len() > 15_000 && offset <= 15_000 ==> n == 15_000 - offset
            &&& offset >= 15_000 ==> n == 0
            &&& forall|i: int|
                0 <= i < 15_000 ==> #[trigger] final(frame)@[i] == (if offset <= i < offset + n {
                    data@[i - offset]
                } else {
                    old(frame)@[i]
                })
        },
{
}

/// Clearing leaves no byte, and swapping black and white swaps every pixel.
pub proof fn law_cleared_and_swapped(frame: &mut Frame, bytes: &mut [u8])
    requires
        call_ensures(reset_display_buffer, (Some(frame),), ()),
        call_ensures(invert_buffer, (bytes,), ()),
    ensures
        forall|i: int| 0 <= i < 15_000 ==> #[trigger] final(frame)@[i] == 0,
        final(bytes)@.len() == old(bytes)@.len(),
        forall|i: int|
            0 <= i < old(bytes)@.len() ==> #[trigger] final(bytes)@[i] == 255 - old(bytes)@[i],
{
    assert forall|i: int| 0 <= i < old(bytes)@.len() implies #[trigger] final(bytes)@[i] == 255
        - old(bytes)@[i] by {
        let b = old(bytes)@[i];
        assert(b ^ 0xFF == 255 - b) by (bit_vector);
    }
}

/// A text that is drawn is what stands in the buffer before the first zero byte,
/// and so is an address, alone at the same place, and beside a text at a place
/// of its own. Bytes that are no text are named as such.
pub proof fn law_what_is_drawn_is_in_buffer(
    frame: &Frame,
    text: RenderJob,
    qr: RenderJob,
    both: RenderJob,
)
    requires
        call_ensures(render_job, (DisplayMessage::Text, frame), text),
        call_ensures(render_job, (DisplayMessage::QRCode, frame), qr),
        call_ensures(render_job, (DisplayMessage::TextWithQR, frame), both),
    ensures
        ({
            let first = crate::text::until_zero(frame@.subrange(0, 512));
            let second = crate::text::until_zero(frame@.subrange(512, 768));
            &&& text matches RenderJob::Text(t) ==> vstd::utf8::encode_utf8(t@) == first
            &&& qr matches RenderJob::QrCode(u) ==> vstd::utf8::encode_utf8(u@) == first
            &&& both matches RenderJob::TextWithQr(t, u) ==> vstd::utf8::encode_utf8(t@) == first
                && vstd::utf8::encode_utf8(u@) == second
            &&& text is Invalid <==> !vstd::utf8::valid_utf8(first)
            &&& qr is Invalid <==> !vstd::utf8::valid_utf8(first)
            &&& text is Nothing <==> first.len() == 0
            &&& qr is Nothing <==> first.len() == 0
            &&& both is TextWithQr <==> vstd::utf8::valid_utf8(first) && first.len() > 0
                && vstd::utf8::valid_utf8(second) && second.len() > 0
            &&& both is TextWithQr || both is Invalid
        }),
        text matches RenderJob::Invalid(e) ==> e@ == "Invalid UTF-8 in text buffer"@,
        qr matches RenderJob::Invalid(e) ==> e@ == "Invalid UTF-8 in URL buffer"@,
        both matches RenderJob::Invalid(e) ==> e@
            == "Invalid UTF-8 or empty content in text/URL buffer"@,
{
    let first = crate::text::until_zero(text_area(frame@));
    let second = crate::text::until_zero(url_area(frame@));
    let none: Seq<u8> = Seq::empty();
    assert(vstd::utf8::encode_utf8(Seq::<char>::empty()) =~= none);
    vstd::utf8::encode_utf8_valid_utf8(Seq::<char>::empty());
    vstd::utf8::encode_utf8_decode_utf8(Seq::<char>::empty());
    if first.len() == 0 {
        assert(first =~= none);
    }
    if second.len() == 0 {
        assert(second =~= none);
    }
    if vstd::utf8::valid_utf8(first) {
        vstd::utf8::decode_utf8_encode_utf8(first);
        if vstd::utf8::decode_utf8(first).len() == 0 {
            assert(vstd::utf8::decode_utf8(first) =~= Seq::<char>::empty());
        }
    }
    if vstd::utf8::valid_utf8(second) {
        vstd::utf8::decode_utf8_encode_utf8(second);
        if vstd::utf8::decode_utf8(second).len() == 0 {
            assert(vstd::utf8::decode_utf8(second) =~= Seq::<char>::empty());
        }
    }
}

} // verus!
