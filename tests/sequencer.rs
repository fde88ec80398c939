use led_anim::color::{color_duties, Rgb, FULL};
use led_anim::phase::PhaseSequencer;
use led_anim::sequencer::ListSequencer;
use led_anim::window::WindowSequencer;

#[test]
fn list_rejects_empty() {
    assert!(ListSequencer::<u16>::new(vec![]).is_none());
}

#[test]
fn list_emits_in_order_and_wraps() {
    let mut s = ListSequencer::new(vec![0xff00u16, 0x00ff, 0x0ff0, 0xf00f]).unwrap();
    assert_eq!(s.len(), 4);
    assert_eq!(s.tick(), 0xff00);
    assert_eq!(s.tick(), 0x00ff);
    assert_eq!(s.tick(), 0x0ff0);
    assert_eq!(s.tick(), 0xf00f);
    assert_eq!(s.tick(), 0xff00);
}

#[test]
fn list_returns_after_its_length() {
    let colors = vec![Rgb::new(255, 0, 0), Rgb::new(0, 255, 0), Rgb::new(0, 0, 255)];
    let mut s = ListSequencer::new(colors).unwrap();
    let first = s.tick();
    s.tick();
    s.tick();
    assert_eq!(s.tick(), first);
}

#[test]
fn window_rejects_empty_window_or_palette() {
    assert!(WindowSequencer::new(vec![1u8, 2, 3], 0).is_none());
    assert!(WindowSequencer::<u8>::new(vec![], 1).is_none());
}

#[test]
fn window_wider_than_palette_repeats_entries() {
    let s = WindowSequencer::new(vec![0u8, 1, 2], 4).unwrap();
    assert_eq!(s.frame(), vec![2, 0, 1, 2]);
}

#[test]
fn window_slides_over_palette() {
    let mut s = WindowSequencer::new(vec![0u8, 1, 2, 3, 4, 5], 4).unwrap();
    // before any tick the window reaches back past the start of the palette
    assert_eq!(s.frame(), vec![2, 3, 4, 5]);
    s.tick();
    assert_eq!(s.frame(), vec![3, 4, 5, 0]);
    for _ in 0..3 {
        s.tick();
    }
    assert_eq!(s.frame(), vec![0, 1, 2, 3]);
    s.tick();
    s.tick();
    // the first four entries shifted cyclically by two
    assert_eq!(s.frame(), vec![2, 3, 4, 5]);
    s.tick();
    s.tick();
    assert_eq!(s.frame(), vec![4, 5, 0, 1]);
}

#[test]
fn window_cycles_with_palette() {
    let mut s = WindowSequencer::new(vec![0u8, 1, 2, 3, 4, 5, 6], 3).unwrap();
    s.tick();
    let before = s.frame();
    for _ in 0..7 {
        s.tick();
    }
    assert_eq!(s.frame(), before);
}

#[test]
fn window_frame_drives_two_channel_duties() {
    let palette = vec![0xff00u16, 0x00ff, 0x0ff0, 0xf00f, 0xffff, 0x0000];
    let mut s = WindowSequencer::new(palette, 4).unwrap();
    for _ in 0..6 {
        s.tick();
    }
    let duties: Vec<(u16, u16)> = s.frame().into_iter().map(color_duties).collect();
    assert_eq!(duties, vec![(3855, 61680), (61680, 3855), (65535, 65535), (0, 0)]);
}

#[test]
fn phase_rejects_zero_cycle_or_outputs() {
    assert!(PhaseSequencer::new(0, 1, 3).is_none());
    assert!(PhaseSequencer::new(100, 1, 0).is_none());
}

#[test]
fn phase_outputs_are_staggered() {
    let s = PhaseSequencer::new(300, 1, 3).unwrap();
    assert_eq!(s.output_phase(0), 0);
    assert_eq!(s.output_phase(1), 100);
    assert_eq!(s.output_phase(2), 200);
    assert_eq!(s.output_hue(1), 120);
    assert_eq!(s.output_color(0, FULL, FULL), Rgb::new(255, 0, 0));
    assert_eq!(s.output_color(1, FULL, FULL), Rgb::new(0, 255, 0));
    assert_eq!(s.output_color(2, FULL, FULL), Rgb::new(0, 0, 255));
}

#[test]
fn phase_stagger_is_exact_fraction() {
    let s = PhaseSequencer::new(100, 1, 3).unwrap();
    assert_eq!(s.output_phase(0), 0);
    assert_eq!(s.output_phase(1), 33);
    assert_eq!(s.output_phase(2), 66);
}

#[test]
fn phase_outputs_return_after_full_cycle() {
    let mut s = PhaseSequencer::new(100, 1, 3).unwrap();
    let before: Vec<Rgb> = (0..3).map(|j| s.output_color(j, FULL, FULL)).collect();
    s.tick();
    assert_ne!(s.output_color(0, FULL, FULL), before[0]);
    for _ in 1..100 {
        s.tick();
    }
    let after: Vec<Rgb> = (0..3).map(|j| s.output_color(j, FULL, FULL)).collect();
    assert_eq!(after, before);
}

#[test]
fn phase_wraps_after_full_cycle() {
    let mut s = PhaseSequencer::new(100, 7, 1).unwrap();
    for _ in 0..100 {
        s.tick();
    }
    assert_eq!(s.output_phase(0), 0);
    let mut t = PhaseSequencer::new(100, 250, 1).unwrap();
    t.tick();
    assert_eq!(t.output_phase(0), 50);
}

#[test]
fn phase_shift_between_outputs() {
    let mut s = PhaseSequencer::new(300, 1, 3).unwrap();
    let before: Vec<Rgb> = (0..3).map(|j| s.output_color(j, FULL, FULL)).collect();
    for _ in 0..100 {
        s.tick();
    }
    assert_eq!(s.output_color(0, FULL, FULL), before[1]);
    assert_eq!(s.output_color(1, FULL, FULL), before[2]);
    assert_eq!(s.output_color(2, FULL, FULL), before[0]);
}
