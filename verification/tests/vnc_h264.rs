use droidvm::vnc_channel::Refusal;
use droidvm::vnc_h264::{
    bitrate_for, config_len, poll_output, ConnectStep, DrainStep, EncodeStep, EncoderStep,
    FrameOffer, H264Consumer, OfferStep, PollOutput, Rebuilt, ScreenSize, ServeStep, WaitStep,
    BUFFER_FLAG_CODEC_CONFIG, BUFFER_FLAG_SYNC_FRAME, CONFIG_MAX, OUTPUT_BUFFER_LOUD,
};

fn offer(width: i32, height: i32) -> FrameOffer {
    FrameOffer {
        has_pixels: true,
        width,
        height,
        has_gpu_blit: true,
        gpu_import_id: 5,
        has_cursor: true,
        cursor_visible: true,
    }
}

#[test]
fn the_bitrate_is_a_tenth_of_a_bit_per_pixel_within_bounds() {
    assert_eq!(bitrate_for(1920, 1080), 6_220_800);
    assert_eq!(bitrate_for(1280, 720), 2_764_800);
    assert_eq!(bitrate_for(1, 1), 1_000_000);
    assert_eq!(bitrate_for(0, 4_000_000), 1_000_000);
    assert_eq!(bitrate_for(7680, 4320), 40_000_000);
    assert_eq!(bitrate_for(u32::MAX, u32::MAX), 40_000_000);
    assert!(bitrate_for(1280, 720) <= bitrate_for(1280, 721));
}

#[test]
fn what_the_encoder_returns() {
    assert_eq!(poll_output(17, 0), PollOutput::Frame(17));
    assert_eq!(poll_output(0, 9), PollOutput::Idle);
    assert_eq!(poll_output(-1, 600_000), PollOutput::TooSmall(600_000));
    assert_eq!(poll_output(-2, 0), PollOutput::Failed);
    assert_eq!(config_len(0), None);
    assert_eq!(config_len(1), Some(1));
    assert_eq!(config_len(CONFIG_MAX), Some(4096));
    assert_eq!(config_len(CONFIG_MAX + 1), None);
}

#[test]
fn a_client_waits_for_an_encoder_and_is_served() {
    let mut c = H264Consumer::new();
    assert!(!c.wants_frames(0));
    assert_eq!(c.on_frame(&offer(64, 32), 0), OfferStep::Skip);
    assert_eq!(c.connect(1), ConnectStep::Wait);
    assert_eq!(c.connect(2), ConnectStep::Refuse(Refusal::Busy));
    assert!(c.wants_frames(0));
    assert_eq!(c.poll_waiting(false), WaitStep::Again);
    assert_eq!(c.on_frame(&offer(64, 32), 0), OfferStep::Feed { width: 64, height: 32 });
    assert_eq!(c.encoder_for(64, 32), EncoderStep::Build { bitrate: 1_000_000 });
    assert_eq!(c.on_built(64, 32, true), Rebuilt { built: true, gone: None });
    assert_eq!(c.encoder_for(64, 32), EncoderStep::Have);
    assert_eq!(c.poll_waiting(true), WaitStep::Ready(ScreenSize { width: 64, height: 32 }));
    assert_eq!(c.channel().pending(), Some(1));
    assert_eq!(c.serve(1, true, 50), ServeStep::AskForKeyframe);
    assert_eq!((c.channel().live(), c.channel().pending()), (Some(1), None));
    assert_eq!(c.channel().last_write_ms(), 50);
    assert_eq!(c.serve(1, true, 60), ServeStep::Gone);
    assert_eq!(
        c.drain(PollOutput::Frame(3), BUFFER_FLAG_SYNC_FRAME),
        (DrainStep::Deliver { to: Some(1), is_config: false, is_sync: true }, (None, None))
    );
    assert_eq!(
        c.drain(PollOutput::Frame(3), BUFFER_FLAG_CODEC_CONFIG),
        (DrainStep::Deliver { to: Some(1), is_config: true, is_sync: false }, (None, None))
    );
    assert_eq!(c.drain(PollOutput::Idle, 0), (DrainStep::Nothing, (None, None)));
    assert_eq!(
        c.drain(PollOutput::TooSmall(600_000), 0),
        (DrainStep::Grow { needed: 600_000, loud: false }, (None, None))
    );
    assert_eq!(
        c.drain(PollOutput::TooSmall(OUTPUT_BUFFER_LOUD), 0),
        (DrainStep::Grow { needed: OUTPUT_BUFFER_LOUD, loud: true }, (None, None))
    );
    assert_eq!(c.drain(PollOutput::Failed, 0), (DrainStep::End, (Some(1), None)));
    assert!(!c.channel().is_wanted());
}

#[test]
fn only_a_client_that_has_the_header_is_served() {
    let mut c = H264Consumer::new();
    c.connect(1);
    c.on_built(64, 32, true);
    assert_eq!(c.serve(1, false, 5), ServeStep::Left);
    assert!(!c.channel().is_wanted());
    // The size changes while the header is sent: the client was told another.
    c.connect(2);
    assert_eq!(
        c.on_built(64, 33, true),
        Rebuilt { built: true, gone: Some((None, Some(2))) }
    );
    assert_eq!(c.serve(2, true, 6), ServeStep::Gone);
    assert!(!c.channel().has_client());
    assert_eq!(c.channel().last_write_ms(), 0);
}

#[test]
fn a_new_size_takes_the_client_away() {
    let mut c = H264Consumer::new();
    c.on_built(64, 32, true);
    c.channel_mut().promote(3, 0);
    assert_eq!(c.encoder_for(64, 33), EncoderStep::Build { bitrate: 1_000_000 });
    assert_eq!(
        c.on_built(64, 33, true),
        Rebuilt { built: true, gone: Some((Some(3), None)) }
    );
    assert!(!c.channel().has_client());
    assert_eq!(c.encoder_for(64, 33), EncoderStep::Have);
}

#[test]
fn without_an_encoder_the_client_is_refused() {
    let mut c = H264Consumer::new();
    c.connect(1);
    assert_eq!(
        c.poll_waiting(true),
        WaitStep::Refuse { reason: Refusal::NoFrame, client: Some(1) }
    );
    c.connect(2);
    assert_eq!(c.on_built(8, 8, false), Rebuilt { built: false, gone: None });
    assert_eq!(c.encoder_for(8, 8), EncoderStep::Never);
    assert_eq!(
        c.poll_waiting(false),
        WaitStep::Refuse { reason: Refusal::NoEncoder, client: Some(2) }
    );
    assert!(!c.channel().is_wanted());
}

#[test]
fn a_frame_without_a_picture_is_skipped() {
    let mut c = H264Consumer::new();
    assert_eq!(c.on_frame(&offer(0, 8), 1), OfferStep::Skip);
    assert_eq!(c.on_frame(&offer(8, -1), 1), OfferStep::Skip);
    let blank = FrameOffer { has_pixels: false, ..offer(8, 8) };
    assert_eq!(c.on_frame(&blank, 1), OfferStep::Skip);
    assert_eq!(c.on_frame(&offer(8, 8), 1), OfferStep::Feed { width: 8, height: 8 });
    assert_eq!(c.on_frame(&offer(8, 8), 0), OfferStep::Paused { skipped: 0 });
    assert_eq!(c.on_frame(&offer(8, 8), -1), OfferStep::Skip);
    c.on_frame(&offer(8, 8), 1);
    assert_eq!(c.on_frame(&offer(8, 8), 0), OfferStep::Paused { skipped: 2 });
}

#[test]
fn the_graphics_hardware_is_tried_until_it_fails() {
    let mut c = H264Consumer::new();
    assert_eq!(c.route(&offer(8, 8)), (true, true));
    assert_eq!(c.route(&FrameOffer { gpu_import_id: 0, ..offer(8, 8) }), (false, true));
    assert_eq!(c.route(&FrameOffer { has_gpu_blit: false, ..offer(8, 8) }), (false, true));
    assert_eq!(c.route(&FrameOffer { has_cursor: false, ..offer(8, 8) }), (true, false));
    assert_eq!(c.on_encoded(true, true), EncodeStep::Done);
    assert_eq!(c.on_encoded(true, false), EncodeStep::ByProcessor);
    assert_eq!(c.route(&offer(8, 8)), (false, true));
}

#[test]
fn failures_are_reported_ever_more_rarely() {
    let mut c = H264Consumer::new();
    let mut reported = Vec::new();
    for _ in 0..20 {
        if let EncodeStep::Report(n) = c.on_encoded(false, false) {
            reported.push(n);
        }
    }
    assert_eq!(reported, vec![1, 2, 3, 5, 9, 17]);
}

#[test]
fn a_join_moves_the_generation() {
    let mut c = H264Consumer::new();
    let before = c.connect_generation(4);
    assert_eq!(before, 4);
    assert_eq!(c.connect_generation(5), 5);
    c.connect(1);
    c.channel_mut().disconnect();
    assert_eq!(c.connect_generation(4), 0x1_0000_0004);
    assert!(c.sync_frame_for_joins(4));
    assert!(!c.sync_frame_for_joins(4));
    assert!(c.sync_frame_for_joins(5));
}

#[test]
fn a_display_that_goes_away_ends_the_connections() {
    let mut c = H264Consumer::new();
    c.connect(6);
    assert!(!c.is_stopped());
    assert_eq!(c.shutdown(), (None, Some(6)));
    assert!(c.is_stopped());
    assert_eq!(c.connect(7), ConnectStep::Wait);
    assert_eq!(c.poll_waiting(false), WaitStep::Stop { live: None, pending: Some(7) });
    assert_eq!(c.on_frame(&offer(8, 8), 1), OfferStep::Skip);
}
