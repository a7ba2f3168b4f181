use droidvm::guest_mem::AddressRange;
use droidvm::media_backend::{
    card_for, check_windows, is_served, BadWindow, MediaBackend, MediaBackendParams,
    MediaDeviceKind, UnknownQueue,
};

fn params(access_windows: Vec<(u64, u64)>, access_platform: bool) -> MediaBackendParams {
    MediaBackendParams {
        kind: MediaDeviceKind::Camera,
        card: None,
        camera_id: Some("0".to_owned()),
        role: None,
        allow_sw: false,
        pool_gpa: 0x8000_0000,
        access_windows,
        access_platform,
    }
}

#[test]
fn windows_become_ranges() {
    assert_eq!(
        check_windows(&vec![(0x1000, 0x2000), (u64::MAX, 1)]).unwrap(),
        vec![
            AddressRange { start: 0x1000, end: 0x2fff },
            AddressRange { start: u64::MAX, end: u64::MAX },
        ]
    );
    assert!(check_windows(&Vec::new()).unwrap().is_empty());
    assert_eq!(
        check_windows(&vec![(0, 1), (5, 0), (u64::MAX, 2)]).err(),
        Some(BadWindow { base: 5, size: 0 })
    );
    assert_eq!(
        check_windows(&vec![(u64::MAX, 2)]).err(),
        Some(BadWindow { base: u64::MAX, size: 2 })
    );
}

#[test]
fn the_features_that_are_offered() {
    let b: MediaBackend<u32> = MediaBackend::new(params(vec![(0, 16)], false), 1).ok().unwrap();
    assert_eq!(b.features(), 0x4000_0001);
    assert_eq!(b.windows(), &vec![AddressRange { start: 0, end: 15 }]);
    assert_eq!(b.max_queue_num(), 2);
    assert_eq!(b.params().pool_gpa, 0x8000_0000);
    let b: MediaBackend<u32> = MediaBackend::new(params(vec![], true), 0).ok().unwrap();
    assert_eq!(b.features(), 0x2_4000_0000);
    let r = MediaBackend::<u32>::new(params(vec![(1, 0)], true), 0);
    assert_eq!(r.err(), Some(BadWindow { base: 1, size: 0 }));
}

#[test]
fn a_queue_comes_back_whatever_became_of_the_other() {
    let mut b: MediaBackend<&str> = MediaBackend::new(params(vec![], false), 0).ok().unwrap();
    assert!(b.take_queues().is_none());
    assert_eq!(b.start_queue(1, "event"), Ok(false));
    assert!(b.take_queues().is_none());
    assert_eq!(b.start_queue(2, "no such"), Err(UnknownQueue { idx: 2 }));
    assert_eq!(b.start_queue(0, "command"), Ok(true));
    assert!(b.needs_pool());
    b.on_pool();
    assert!(!b.needs_pool());
    assert_eq!(b.take_queues(), Some(("command", "event")));
    b.on_started();
    assert!(b.is_running());
    b.on_stopped("command", "event");
    assert!(!b.is_running());
    assert_eq!(b.stop_queue(0), Some("command"));
    assert_eq!(b.stop_queue(0), None);
    assert_eq!(b.stop_queue(9), None);
    assert_eq!(b.stop_queue(1), Some("event"));
    assert_eq!(b.start_queue(0, "again"), Ok(false));
    b.reset();
    assert_eq!(b.stop_queue(0), None);
    assert!(!b.needs_pool());
}

#[test]
fn what_a_card_is_called() {
    let name = |kind, card| card_for(kind, card, "0");
    assert_eq!(name(MediaDeviceKind::Camera, None), Some("camera 0".to_owned()));
    assert_eq!(name(MediaDeviceKind::Camera, Some("x")), Some("x".to_owned()));
    assert_eq!(name(MediaDeviceKind::Loopback, None), Some("droidvm loopback".to_owned()));
    assert_eq!(name(MediaDeviceKind::Decoder, None), Some("droidvm decoder".to_owned()));
    assert_eq!(name(MediaDeviceKind::Simple, Some("x")), None);
    assert_eq!(name(MediaDeviceKind::Encoder, Some("x")), None);
    assert!(!is_served(MediaDeviceKind::Encoder));
    assert!(is_served(MediaDeviceKind::Simple));
    assert!(is_served(MediaDeviceKind::Decoder));
}
