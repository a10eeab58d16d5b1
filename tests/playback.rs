use wave_visualizer::geometry::{
    accent_color, build_lines, column_width, dimmed_color, line_color, Fraction, Rgba,
};
use wave_visualizer::playback::{
    decide_commands, is_revealed, revealed_index, seek_back_target, seek_forward_target,
    Commands, KeyPresses, PlaybackState, Transport,
};
use wave_visualizer::waveform::FULL_SCALE;

#[test]
fn seek_back_near_start_clamps_to_zero() {
    assert_eq!(seek_back_target(3000, 60000), 0);
    assert_eq!(seek_back_target(0, 60000), 0);
    assert_eq!(seek_back_target(5000, 60000), 0);
    assert_eq!(seek_back_target(12000, 60000), 7000);
    assert_eq!(seek_back_target(70000, 60000), 60000);
}

#[test]
fn seek_forward_near_end_clamps_to_total() {
    assert_eq!(seek_forward_target(57000, 60000), 60000);
    assert_eq!(seek_forward_target(60000, 60000), 60000);
    assert_eq!(seek_forward_target(55000, 60000), 60000);
    assert_eq!(seek_forward_target(12000, 60000), 17000);
    assert_eq!(seek_forward_target(u64::MAX, u64::MAX), u64::MAX);
}

#[test]
fn revealed_index_boundaries() {
    assert_eq!(revealed_index(0, 60000, 100), 0);
    assert_eq!(revealed_index(60000, 60000, 100), 100);
    assert_eq!(revealed_index(30000, 60000, 100), 50);
    assert_eq!(revealed_index(599, 60000, 100), 0);
    assert_eq!(revealed_index(600, 60000, 100), 1);
    assert_eq!(revealed_index(61000, 60000, 100), 100);
    assert_eq!(revealed_index(1000, 0, 100), 0);
    assert_eq!(revealed_index(u64::MAX - 1, u64::MAX, usize::MAX), usize::MAX - 1);
}

#[test]
fn revealed_index_never_decreases() {
    let mut last = 0;
    for e in (0..=61000u64).step_by(137) {
        let r = revealed_index(e, 60000, 37);
        assert!(r >= last);
        last = r;
    }
    assert_eq!(last, 37);
}

#[test]
fn reveal_decision() {
    assert!(is_revealed(0, 0));
    assert!(is_revealed(5, 5));
    assert!(!is_revealed(6, 5));
}

#[test]
fn commands_from_keys() {
    let playing = PlaybackState { elapsed_ms: 10000, total_ms: 60000, is_playing: true };
    let none = KeyPresses { play_pause: false, seek_back: false, seek_forward: false };
    assert_eq!(decide_commands(none, playing), Commands { transport: None, seek_to: None });
    let space = KeyPresses { play_pause: true, ..none };
    assert_eq!(decide_commands(space, playing).transport, Some(Transport::Pause));
    let paused = PlaybackState { is_playing: false, ..playing };
    assert_eq!(decide_commands(space, paused).transport, Some(Transport::Resume));
    let back = KeyPresses { seek_back: true, ..none };
    assert_eq!(decide_commands(back, playing).seek_to, Some(5000));
    let fwd = KeyPresses { seek_forward: true, ..none };
    assert_eq!(decide_commands(fwd, playing).seek_to, Some(15000));
    let both = KeyPresses { seek_back: true, seek_forward: true, play_pause: false };
    let early = PlaybackState { elapsed_ms: 2000, ..playing };
    assert_eq!(decide_commands(both, early).seek_to, Some(5000));
    assert_eq!(decide_commands(back, early).seek_to, Some(0));
}

#[test]
fn lines_span_full_height_at_unit_amplitude() {
    let peaks = vec![FULL_SCALE, 0, -FULL_SCALE];
    let lines = build_lines(&peaks, 1200, 300);
    assert_eq!(lines.len(), 3);
    let value = |f: Fraction| f.num as f64 / f.den as f64;
    assert_eq!(value(lines[0].x), 0.0);
    assert_eq!(value(lines[1].x), 400.0);
    assert_eq!(value(lines[2].x), 800.0);
    assert_eq!(value(lines[0].top), 300.0);
    assert_eq!(value(lines[0].bottom), 0.0);
    assert_eq!(value(lines[1].top), 150.0);
    assert_eq!(value(lines[1].bottom), 150.0);
    assert_eq!(value(lines[2].top), 0.0);
    assert_eq!(value(lines[2].bottom), 300.0);
    assert_eq!(lines[1].color, accent_color());
    assert_eq!(value(column_width(1200, 3)), 400.0);
    let half = build_lines(&vec![FULL_SCALE / 2 + 1], 10, 100);
    assert!((value(half[0].top) - 75.0).abs() < 1e-3);
    assert!((value(half[0].bottom) - 25.0).abs() < 1e-3);
}

#[test]
fn colors_follow_progress() {
    let lines = build_lines(&vec![0, 0, 0], 30, 30);
    assert_eq!(line_color(&lines[0], 0, 1), accent_color());
    assert_eq!(line_color(&lines[1], 1, 1), Rgba { r: 230, g: 41, b: 55, a: 255 });
    assert_eq!(line_color(&lines[2], 2, 1), dimmed_color());
    assert_eq!(dimmed_color(), Rgba { r: 50, g: 50, b: 50, a: 255 });
}
