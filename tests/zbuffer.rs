use rusterizer::zbuffer::{DepthSample, ZBuffer};

#[test]
fn new_buffer_holds_the_initial_depth() {
    let zb = ZBuffer::new(4, 3, 77);
    for x in 0..4 {
        for y in 0..3 {
            assert_eq!(zb.get(x, y), 77);
        }
    }
}

#[test]
fn update_accepts_only_strictly_nearer() {
    let mut zb = ZBuffer::new(2, 2, 100);
    assert!(zb.update(1, 0, 50));
    assert_eq!(zb.get(1, 0), 50);
    assert!(!zb.update(1, 0, 50));
    assert!(!zb.update(1, 0, 60));
    assert_eq!(zb.get(1, 0), 50);
    assert!(zb.update(1, 0, 49));
    assert_eq!(zb.get(1, 0), 49);
    assert_eq!(zb.get(0, 0), 100);
    assert_eq!(zb.get(1, 1), 100);
}

#[test]
fn first_update_after_reset_succeeds() {
    let mut zb = ZBuffer::new(3, 3, u32::MAX);
    assert!(zb.update(2, 2, 10));
    zb.reset(u32::MAX);
    assert_eq!(zb.get(2, 2), u32::MAX);
    for x in 0..3 {
        for y in 0..3 {
            assert!(zb.update(x, y, u32::MAX - 1));
        }
    }
    zb.reset(u32::MAX);
    assert!(!zb.update(0, 0, u32::MAX));
}

#[test]
fn resolve_folds_samples_in_order() {
    let mut zb = ZBuffer::new(2, 2, 100);
    let samples = vec![
        DepthSample { x: 0, y: 1, depth: 50 },
        DepthSample { x: 0, y: 1, depth: 60 },
        DepthSample { x: 1, y: 1, depth: 100 },
        DepthSample { x: 0, y: 1, depth: 40 },
        DepthSample { x: 0, y: 1, depth: 40 },
        DepthSample { x: 1, y: 0, depth: 99 },
    ];
    assert_eq!(zb.resolve(&samples), vec![true, false, false, true, false, true]);
    assert_eq!(zb.get(0, 1), 40);
    assert_eq!(zb.get(1, 0), 99);
    assert_eq!(zb.get(1, 1), 100);
    assert_eq!(zb.get(0, 0), 100);
}
