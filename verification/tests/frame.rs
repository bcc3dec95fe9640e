use pathtracer::pt::{fault_action, FaultAction, Pt, SurfaceFault};

fn le4(v: u32) -> Vec<u8> {
    v.to_le_bytes().to_vec()
}

#[test]
fn fresh_state() {
    let pt = Pt::new(800, 600);
    assert_eq!(pt.width, 800);
    assert_eq!(pt.height, 600);
    assert_eq!(pt.samples_per_pixel, 0);
}

#[test]
fn zero_resize_is_noop() {
    let mut pt = Pt::new(800, 600);
    pt.next_frame();
    pt.next_frame();
    let before = pt;
    assert!(!pt.resize(0, 600));
    assert_eq!(pt, before);
    assert!(!pt.resize(800, 0));
    assert_eq!(pt, before);
    assert!(!pt.resize(0, 0));
    assert_eq!(pt, before);
}

#[test]
fn resize_resets_samples() {
    let mut pt = Pt::new(800, 600);
    for _ in 0..3 {
        pt.next_frame();
    }
    assert_eq!(pt.samples_per_pixel, 3);
    assert!(pt.resize(1024, 768));
    assert_eq!(pt.width, 1024);
    assert_eq!(pt.height, 768);
    assert_eq!(pt.samples_per_pixel, 0);
}

#[test]
fn same_size_resize_still_resets() {
    // Recovering a lost surface resizes to the current dimensions; that
    // replaces the buffer, so accumulation restarts.
    let mut pt = Pt::new(640, 480);
    pt.next_frame();
    assert!(pt.resize(640, 480));
    assert_eq!(pt.samples_per_pixel, 0);
}

#[test]
fn resize_sequence_tracks_last_effective() {
    let mut pt = Pt::new(100, 100);
    pt.resize(200, 150);
    pt.resize(0, 999);
    pt.resize(300, 0);
    assert_eq!((pt.width, pt.height), (200, 150));
    pt.next_frame();
    pt.next_frame();
    assert_eq!(pt.samples_per_pixel, 2);
    pt.resize(64, 64);
    assert_eq!((pt.width, pt.height), (64, 64));
    assert_eq!(pt.samples_per_pixel, 0);
}

#[test]
fn progressive_frames() {
    let mut pt = Pt::new(4, 3);
    for n in 1..=5u32 {
        let c = pt.next_frame();
        assert_eq!(pt.samples_per_pixel, n);
        assert_eq!(c.dispatch, (4, 3, 1));
        let mut expected = Vec::new();
        expected.extend_from_slice(&le4(4));
        expected.extend_from_slice(&le4(3));
        expected.extend_from_slice(&le4(n));
        expected.extend_from_slice(&le4(0));
        assert_eq!(c.meta, expected);
    }
    assert_eq!(pt.samples_per_pixel, 5);
}

#[test]
fn pt_info_bytes_layout() {
    let pt = Pt::new(7, 9);
    let bytes = pt.pt_info_bytes();
    assert_eq!(bytes.len(), 16);
    assert_eq!(&bytes[0..4], &le4(7)[..]);
    assert_eq!(&bytes[4..8], &le4(9)[..]);
    assert_eq!(&bytes[8..12], &le4(0)[..]);
    assert_eq!(&bytes[12..16], &le4(0)[..]);
}

#[test]
fn dispatch_covers_every_pixel() {
    let pt = Pt::new(1920, 1080);
    assert_eq!(pt.dispatch_size(), (1920, 1080, 1));
}

#[test]
fn buffer_size_is_sixteen_bytes_per_pixel() {
    let pt = Pt::new(2, 3);
    assert_eq!(pt.buffer_size_bytes(), Some(96));
    let big = Pt::new(u32::MAX, u32::MAX);
    assert_eq!(big.buffer_size_bytes(), None);
}

#[test]
fn fault_actions() {
    assert_eq!(fault_action(&SurfaceFault::Lost), FaultAction::Rebuild);
    assert_eq!(fault_action(&SurfaceFault::Outdated), FaultAction::Rebuild);
    assert_eq!(fault_action(&SurfaceFault::OutOfMemory), FaultAction::Exit);
    assert_eq!(fault_action(&SurfaceFault::Timeout), FaultAction::Skip);
}
