//! What is queued for the display, and how it is painted.

use wifi_display::tasks::task_display_handler::{
    after_paint_step, append_to_display_buffer, invert_buffer, lights_indicator, paint_step,
    queue_frame_ready, queue_qr_display, queue_set_max_cycles, queue_text_display,
    queue_text_with_qr_display, render_job, reset_display_buffer, DisplayMessage, Frame, PaintStep,
    Painting, Queued, RenderJob, DISPLAY_SIZE_IN_BYTES,
};
use wifi_display::tasks::MatchSliceLengths;

#[test]
fn queued_text_is_drawn() {
    let mut frame: Frame = [0xEE; DISPLAY_SIZE_IN_BYTES];
    let queued = queue_text_display(Some(&mut frame), "Hello", |m| m == DisplayMessage::Text);
    assert_eq!(queued, Queued::SentClearsError);
    assert_eq!(&frame[..6], b"Hello\0");
    assert_eq!(frame[511], 0);
    assert_eq!(frame[512], 0xEE);
    assert!(matches!(render_job(DisplayMessage::Text, &frame), RenderJob::Text(t) if t == "Hello"));
}

#[test]
fn queued_address_is_drawn() {
    let mut frame: Frame = [0; DISPLAY_SIZE_IN_BYTES];
    let queued = queue_qr_display(Some(&mut frame), "https://a.b", |m| m == DisplayMessage::QRCode);
    assert_eq!(queued, Queued::SentClearsError);
    assert!(
        matches!(render_job(DisplayMessage::QRCode, &frame), RenderJob::QrCode(u) if u == "https://a.b")
    );
}

#[test]
fn queued_text_with_address_is_drawn() {
    let mut frame: Frame = [0xEE; DISPLAY_SIZE_IN_BYTES];
    let queued = queue_text_with_qr_display(Some(&mut frame), "Help", "a.b", |m| {
        m == DisplayMessage::TextWithQR
    });
    assert_eq!(queued, Queued::Sent);
    assert_eq!(&frame[512..516], b"a.b\0");
    assert_eq!(frame[767], 0);
    assert_eq!(frame[768], 0xEE);
    assert!(matches!(
        render_job(DisplayMessage::TextWithQR, &frame),
        RenderJob::TextWithQr(t, u) if t == "Help" && u == "a.b"
    ));
}

#[test]
fn nothing_is_queued_in_a_buffer_in_use() {
    assert_eq!(queue_text_display(None, "a", |_| unreachable!()), Queued::Locked);
    assert_eq!(queue_qr_display(None, "a", |_| unreachable!()), Queued::Locked);
    let queued = queue_text_with_qr_display(None, "a", "b", |_| unreachable!());
    assert_eq!(queued, Queued::Locked);
    assert_eq!(append_to_display_buffer(None, b"a", 0), None);
}

#[test]
fn full_channel() {
    let mut frame: Frame = [0; DISPLAY_SIZE_IN_BYTES];
    assert_eq!(queue_text_display(Some(&mut frame), "a", |_| false), Queued::Full);
    assert_eq!(queue_qr_display(Some(&mut frame), "a", |_| false), Queued::Full);
    assert_eq!(queue_text_with_qr_display(Some(&mut frame), "a", "b", |_| false), Queued::Full);
    assert_eq!(queue_frame_ready(|_| false), Queued::Full);
    assert_eq!(queue_set_max_cycles(3, |_| false), Queued::Full);
    assert_eq!(queue_frame_ready(|m| m == DisplayMessage::RawBinary), Queued::SentClearsError);
    assert_eq!(queue_set_max_cycles(3, |m| m == DisplayMessage::SetMaxCycles(3)), Queued::Sent);
}

#[test]
fn long_text_is_cut() {
    let mut frame: Frame = [0; DISPLAY_SIZE_IN_BYTES];
    let long = "x".repeat(600);
    queue_text_display(Some(&mut frame), &long, |_| true);
    assert_eq!(frame[511], b'x');
    assert_eq!(frame[512], 0);
    assert!(matches!(render_job(DisplayMessage::Text, &frame), RenderJob::Text(t) if t.len() == 512));
}

#[test]
fn texts_that_cannot_be_drawn() {
    let mut frame: Frame = [0; DISPLAY_SIZE_IN_BYTES];
    assert!(matches!(render_job(DisplayMessage::Text, &frame), RenderJob::Nothing));
    assert!(matches!(render_job(DisplayMessage::QRCode, &frame), RenderJob::Nothing));
    assert!(matches!(
        render_job(DisplayMessage::TextWithQR, &frame),
        RenderJob::Invalid("Invalid UTF-8 or empty content in text/URL buffer")
    ));
    frame[0] = 0xFF;
    assert!(matches!(
        render_job(DisplayMessage::Text, &frame),
        RenderJob::Invalid("Invalid UTF-8 in text buffer")
    ));
    assert!(matches!(
        render_job(DisplayMessage::QRCode, &frame),
        RenderJob::Invalid("Invalid UTF-8 in URL buffer")
    ));
    assert!(matches!(render_job(DisplayMessage::RawBinary, &frame), RenderJob::Frame));
    assert!(matches!(
        render_job(DisplayMessage::SetMaxCycles(9), &frame),
        RenderJob::SetMaxCycles(9)
    ));
}

#[test]
fn bytes_go_as_far_as_they_fit() {
    let mut frame: Frame = [0; DISPLAY_SIZE_IN_BYTES];
    assert_eq!(append_to_display_buffer(Some(&mut frame), b"abc", 10), Some(3));
    assert_eq!(&frame[9..14], b"\0abc\0");
    assert_eq!(append_to_display_buffer(Some(&mut frame), b"abc", 14_998), Some(2));
    assert_eq!(&frame[14_998..], b"ab");
    assert_eq!(append_to_display_buffer(Some(&mut frame), b"abc", 15_000), Some(0));
    assert_eq!(append_to_display_buffer(Some(&mut frame), b"abc", usize::MAX), Some(0));
    reset_display_buffer(Some(&mut frame));
    assert!(frame.iter().all(|b| *b == 0));
}

#[test]
fn colours_are_swapped_back() {
    let mut bytes = [0x00, 0xFF, 0x0F, 0xA5];
    invert_buffer(&mut bytes);
    assert_eq!(bytes, [0xFF, 0x00, 0xF0, 0x5A]);
    invert_buffer(&mut bytes);
    assert_eq!(bytes, [0x00, 0xFF, 0x0F, 0xA5]);
}

#[test]
fn sizes_are_matched() {
    let bytes: &[u8] = b"abcd";
    let short: [u8; 2] = bytes.match_size(7);
    let long: [u8; 6] = bytes.match_size(7);
    assert_eq!(short, [b'a', b'b']);
    assert_eq!(long, [b'a', b'b', b'c', b'd', 7, 7]);
}

#[test]
fn painting_ends_with_the_display_off() {
    for (painting, steps) in [
        (Painting::Text, 5),
        (Painting::QrCode, 5),
        (Painting::TextWithQr, 5),
        (Painting::Frame, 3),
    ] {
        assert_eq!(paint_step(painting, 0), Some(PaintStep::TurnOn));
        assert_eq!(paint_step(painting, steps - 2), Some(PaintStep::Update));
        assert_eq!(paint_step(painting, steps - 1), Some(PaintStep::TurnOff));
        assert_eq!(paint_step(painting, steps), None);
        assert_eq!(after_paint_step(painting, steps - 1, true), Ok(None));
    }
    assert_eq!(paint_step(Painting::Text, 2), Some(PaintStep::Invert));
}

#[test]
fn failures_of_painting() {
    assert_eq!(after_paint_step(Painting::Frame, 0, false), Err("Failed to turn on display"));
    assert_eq!(after_paint_step(Painting::QrCode, 1, false), Err("Failed to generate QR code"));
    assert_eq!(
        after_paint_step(Painting::TextWithQr, 1, false),
        Err("QR gen failed (url too long for version 10)")
    );
    assert_eq!(after_paint_step(Painting::Frame, 1, false), Err("Failed to update display"));
    assert_eq!(after_paint_step(Painting::Frame, 2, false), Err("Failed to turn off display"));
    assert_eq!(after_paint_step(Painting::Text, 1, false), Ok(Some(PaintStep::Invert)));
}

#[test]
fn indicator_light() {
    assert!(lights_indicator(DisplayMessage::Text));
    assert!(lights_indicator(DisplayMessage::QRCode));
    assert!(lights_indicator(DisplayMessage::TextWithQR));
    assert!(!lights_indicator(DisplayMessage::RawBinary));
    assert!(!lights_indicator(DisplayMessage::SetMaxCycles(1)));
}
