use wavecast::channel::{channel_pair, try_recv, try_send, SendStatus};
use wavecast::commands::{FromAudio, ToAudio};
use wavecast::engine::AudioEngine;
use wavecast::fixed::ONE;
use wavecast::source::FileSource;

fn drain_data(rx: &crossbeam_channel::Receiver<FromAudio>) -> Vec<i32> {
    let mut out = Vec::new();
    while let Some(FromAudio::Data(v)) = try_recv(rx) {
        out.push(v);
    }
    out
}

#[test]
fn file_source_plays_then_silence() {
    let mut src = FileSource::new(vec![Some(100), None, Some(-50)]);
    assert_eq!(src.next_sample(), 100);
    assert_eq!(src.next_sample(), 0, "a failed decode is silence");
    assert_eq!(src.next_sample(), -50);
    assert_eq!(src.next_sample(), 0, "the end of the stream is silence");
    assert_eq!(src.next_sample(), 0, "silence indefinitely, no looping");
}

#[test]
fn playback_plays_file_and_forwards() {
    let src = FileSource::new(vec![Some(100), Some(-7), Some(42)]);
    let mut e = AudioEngine::new(4, src);
    let (tx, rx) = channel_pair::<FromAudio>(64);
    let (out, underrun) = e.playback_frame(5, 2, &tx);
    // Mono duplication across both channels, silence after the file ends.
    assert_eq!(out, vec![100, 100, -7, -7, 42, 42, 0, 0, 0, 0]);
    assert!(!underrun, "running out of file data is not an underrun");
    // Forwarding is on by default: one sample per frame went out.
    assert_eq!(drain_data(&rx), vec![100, -7, 42, 0, 0]);
}

#[test]
fn latency_ring_is_fifo() {
    // Latency 3: the ring starts with three silent entries; captured
    // samples come back out in order, after exactly that delay.
    let src = FileSource::new(vec![]);
    let mut e = AudioEngine::new(3, src);
    let (cmd_tx, cmd_rx) = channel_pair::<ToAudio>(8);
    let (tx, _rx) = channel_pair::<FromAudio>(64);
    assert_eq!(try_send(&cmd_tx, ToAudio::ToggleMic), SendStatus::Accepted);
    let overrun = e.capture_frame(&cmd_rx, &vec![11, 22, 33]);
    assert!(!overrun, "three samples fit behind three silent entries");
    let (out, underrun) = e.playback_frame(7, 1, &tx);
    assert_eq!(out, vec![0, 0, 0, 11, 22, 33, 0], "silence first, then FIFO order");
    assert!(underrun, "the seventh frame found the ring empty");
}

#[test]
fn capture_overrun_drops_excess_and_reports() {
    // Latency 2 gives a ring bound of 4, with 2 free places.
    let src = FileSource::new(vec![]);
    let mut e = AudioEngine::new(2, src);
    let (cmd_tx, cmd_rx) = channel_pair::<ToAudio>(8);
    let (tx, _rx) = channel_pair::<FromAudio>(64);
    assert_eq!(try_send(&cmd_tx, ToAudio::ToggleMic), SendStatus::Accepted);
    let overrun = e.capture_frame(&cmd_rx, &vec![1, 2, 3]);
    assert!(overrun, "the third sample finds the ring full");
    let (out, _) = e.playback_frame(4, 1, &tx);
    assert_eq!(out, vec![0, 0, 1, 2], "the overflowing sample was dropped");
}

#[test]
fn toggle_mic_twice_restores_state() {
    // Two microphone toggles drained in one cycle cancel out: playback
    // keeps reading the file, not the (empty) microphone ring.
    let src = FileSource::new(vec![Some(5), Some(6)]);
    let mut e = AudioEngine::new(2, src);
    let (cmd_tx, cmd_rx) = channel_pair::<ToAudio>(8);
    let (tx, _rx) = channel_pair::<FromAudio>(64);
    assert_eq!(try_send(&cmd_tx, ToAudio::ToggleMic), SendStatus::Accepted);
    assert_eq!(try_send(&cmd_tx, ToAudio::ToggleMic), SendStatus::Accepted);
    let _ = e.capture_frame(&cmd_rx, &vec![]);
    let (out, underrun) = e.playback_frame(2, 1, &tx);
    assert_eq!(out, vec![5, 6]);
    assert!(!underrun);
}

#[test]
fn toggle_visuals_twice_restores_forwarding() {
    let src = FileSource::new(vec![Some(1), Some(2)]);
    let mut e = AudioEngine::new(2, src);
    let (cmd_tx, cmd_rx) = channel_pair::<ToAudio>(8);
    let (tx, rx) = channel_pair::<FromAudio>(64);
    assert_eq!(try_send(&cmd_tx, ToAudio::ToggleVisuals), SendStatus::Accepted);
    assert_eq!(try_send(&cmd_tx, ToAudio::ToggleVisuals), SendStatus::Accepted);
    let _ = e.capture_frame(&cmd_rx, &vec![]);
    let (_, _) = e.playback_frame(2, 1, &tx);
    assert_eq!(drain_data(&rx), vec![1, 2], "forwarding is back on after two toggles");
}

#[test]
fn command_queue_full_reports_and_two_toggles_apply() {
    // A capacity-2 queue takes two commands; the third send reports a
    // full queue. One drain-and-apply cycle then nets two toggles.
    let src = FileSource::new(vec![Some(9)]);
    let mut e = AudioEngine::new(2, src);
    let (cmd_tx, cmd_rx) = channel_pair::<ToAudio>(2);
    let (tx, _rx) = channel_pair::<FromAudio>(64);
    assert_eq!(try_send(&cmd_tx, ToAudio::ToggleMic), SendStatus::Accepted);
    assert_eq!(try_send(&cmd_tx, ToAudio::ToggleMic), SendStatus::Accepted);
    assert_eq!(try_send(&cmd_tx, ToAudio::ToggleMic), SendStatus::Full);
    let _ = e.capture_frame(&cmd_rx, &vec![]);
    let (out, _) = e.playback_frame(1, 1, &tx);
    assert_eq!(out, vec![9], "two toggles, not three: the file still plays");
}

#[test]
fn outbound_send_into_full_queue_returns_full() {
    let (tx, _rx) = channel_pair::<FromAudio>(1);
    assert_eq!(try_send(&tx, FromAudio::Data(1)), SendStatus::Accepted);
    assert_eq!(try_send(&tx, FromAudio::Data(2)), SendStatus::Full);
    assert_eq!(try_send(&tx, FromAudio::Data(3)), SendStatus::Full);
}

#[test]
fn playback_unaffected_by_full_outbound_queue() {
    // Drop-on-full: a full visualizer queue changes neither the output
    // samples nor the engine's state.
    let src = FileSource::new(vec![Some(1), Some(2), Some(3)]);
    let mut e = AudioEngine::new(2, src);
    let (tx, _rx) = channel_pair::<FromAudio>(1);
    let (out, underrun) = e.playback_frame(3, 1, &tx);
    assert_eq!(out, vec![1, 2, 3]);
    assert!(!underrun);
}

#[test]
fn closed_outbound_queue_is_tolerated() {
    let src = FileSource::new(vec![Some(4)]);
    let mut e = AudioEngine::new(2, src);
    let (tx, rx) = channel_pair::<FromAudio>(4);
    drop(rx);
    let (out, _) = e.playback_frame(1, 1, &tx);
    assert_eq!(out, vec![4]);
}

#[test]
fn send_after_receiver_gone_reports_closed() {
    let (tx, rx) = channel_pair::<FromAudio>(4);
    drop(rx);
    assert_eq!(try_send(&tx, FromAudio::Data(1)), SendStatus::Closed);
}

#[test]
fn channel_round_trip_delivers_payload() {
    let (tx, rx) = channel_pair::<FromAudio>(4);
    assert_eq!(try_send(&tx, FromAudio::Data(12345)), SendStatus::Accepted);
    assert_eq!(try_recv(&rx), Some(FromAudio::Data(12345)));
    assert_eq!(try_recv(&rx), None);
}

#[test]
fn mic_path_normalized_sample_range() {
    // Q16 samples at the normalized extremes travel unchanged through
    // capture and playback.
    let src = FileSource::new(vec![]);
    let mut e = AudioEngine::new(2, src);
    let (cmd_tx, cmd_rx) = channel_pair::<ToAudio>(4);
    let (tx, _rx) = channel_pair::<FromAudio>(16);
    let one = ONE as i32;
    assert_eq!(try_send(&cmd_tx, ToAudio::ToggleMic), SendStatus::Accepted);
    let _ = e.capture_frame(&cmd_rx, &vec![one, -one]);
    assert_eq!(e.playback_frame(4, 1, &tx).0, vec![0, 0, 65536, -65536]);
}
