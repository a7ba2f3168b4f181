use droidvm::vnc_display::{
    port, vnc_norm_abs, BlitMapping, DisplayVnc, EventDeviceKind, FrameSource, GuestInput,
    ImportError, SharedFramebuffer, SurfaceError, SurfaceStep, VncImport, VncInputEvent,
    VNC_INPUT_KEY, VNC_INPUT_POINTER,
};

fn pointer(x: i32, y: i32, button_mask: u8) -> VncInputEvent {
    VncInputEvent { event_type: VNC_INPUT_POINTER, down: 0, linux_keycode: 0, x, y, button_mask }
}

#[test]
fn coordinates_are_scaled_to_the_guests_range() {
    assert_eq!(vnc_norm_abs(0, 1920), 0);
    assert_eq!(vnc_norm_abs(-5, 1920), 0);
    assert_eq!(vnc_norm_abs(960, 1920), 16383);
    assert_eq!(vnc_norm_abs(1919, 1920), 32749);
    assert_eq!(vnc_norm_abs(1920, 1920), 32767);
    assert_eq!(vnc_norm_abs(i32::MAX, 1920), 32767);
    assert_eq!(vnc_norm_abs(3, 0), 32767);
    assert_eq!(vnc_norm_abs(0, 0), 0);
    assert_eq!(vnc_norm_abs(7, u32::MAX), 0);
}

#[test]
fn the_port_is_what_follows_the_last_colon() {
    assert_eq!(port("127.0.0.1:5901"), 5901);
    assert_eq!(port("[::1]:5902"), 5902);
    assert_eq!(port("5903"), 5903);
    assert_eq!(port(":+7"), 7);
    assert_eq!(port("a:-2147483648"), i32::MIN);
    assert_eq!(port("a:2147483647"), i32::MAX);
    assert_eq!(port("a:2147483648"), 5900);
    assert_eq!(port("localhost"), 5900);
    assert_eq!(port("host:"), 5900);
    assert_eq!(port("host:-"), 5900);
    assert_eq!(port("host:59x"), 5900);
    assert_eq!(port(""), 5900);
    assert_eq!(DisplayVnc::new_tcp("h:6000", 1, 1, false).port(), 6000);
}

#[test]
fn keys_are_passed_on() {
    let mut d = DisplayVnc::new_tcp(":1", 100, 100, false);
    assert!(!d.pending_events());
    assert!(d.convert_next_event().is_none());
    for down in [1u8, 0] {
        d.push_event(VncInputEvent {
            event_type: VNC_INPUT_KEY,
            down,
            linux_keycode: 30,
            x: 0,
            y: 0,
            button_mask: 0,
        });
    }
    d.push_event(VncInputEvent { event_type: 9, ..pointer(0, 0, 0) });
    assert!(d.pending_events());
    let told = d.convert_next_event().unwrap();
    assert_eq!(told.device, EventDeviceKind::Keyboard);
    assert_eq!(told.events, vec![GuestInput::Key { code: 30, pressed: true }]);
    let told = d.convert_next_event().unwrap();
    assert_eq!(told.events, vec![GuestInput::Key { code: 30, pressed: false }]);
    assert!(d.convert_next_event().is_none());
    assert!(!d.pending_events());
}

#[test]
fn a_tablet_reports_what_changed() {
    let mut d = DisplayVnc::new_tcp(":1", 200, 100, false);
    for mask in [1u8, 1, 2 | 4, 8, 16 | 8, 0] {
        d.push_event(pointer(100, 100, mask));
    }
    let mut told = Vec::new();
    while d.pending_events() {
        let g = d.convert_next_event().unwrap();
        assert_eq!(g.device, EventDeviceKind::Tablet);
        assert_eq!(g.events[0], GuestInput::AbsoluteX(16383));
        assert_eq!(g.events[1], GuestInput::AbsoluteY(32767));
        told.push(g.events[2..].to_vec());
    }
    assert_eq!(
        told,
        vec![
            vec![GuestInput::LeftClick(true)],
            vec![],
            vec![
                GuestInput::LeftClick(false),
                GuestInput::MiddleClick(true),
                GuestInput::RightClick(true),
            ],
            vec![
                GuestInput::MiddleClick(false),
                GuestInput::RightClick(false),
                GuestInput::Wheel(1),
            ],
            vec![GuestInput::Wheel(-1)],
            vec![],
        ]
    );
}

#[test]
fn a_finger_keeps_its_number_until_it_lifts() {
    let mut d = DisplayVnc::new_tcp(":1", 200, 100, true);
    for (x, mask) in [(0, 0u8), (0, 1), (100, 1), (100, 0), (200, 1)] {
        d.push_event(pointer(x, 0, mask));
    }
    assert!(d.convert_next_event().is_none());
    let down = d.convert_next_event().unwrap();
    assert_eq!(down.device, EventDeviceKind::Touchscreen);
    let id = match down.events[1] {
        GuestInput::MultitouchTrackingId(id) => id,
        _ => panic!("no number"),
    };
    assert_eq!(
        down.events,
        vec![
            GuestInput::MultitouchSlot(0),
            GuestInput::MultitouchTrackingId(id),
            GuestInput::MultitouchX(0),
            GuestInput::MultitouchY(0),
            GuestInput::Touch(true),
        ]
    );
    let moved = d.convert_next_event().unwrap();
    assert_eq!(moved.events[1], GuestInput::MultitouchTrackingId(id));
    assert_eq!(moved.events[2], GuestInput::MultitouchX(16383));
    let up = d.convert_next_event().unwrap();
    assert_eq!(
        up.events,
        vec![
            GuestInput::MultitouchSlot(0),
            GuestInput::MultitouchTrackingId(-1),
            GuestInput::Touch(false),
        ]
    );
    let again = d.convert_next_event().unwrap();
    assert_eq!(again.events[1], GuestInput::MultitouchTrackingId(id + 1));
}

#[test]
fn surfaces_of_a_display() {
    let mut d = DisplayVnc::new_tcp(":1", 200, 100, false);
    assert_eq!(d.create_surface(true, true, (0, 0)), Err(SurfaceError::Unsupported));
    assert_eq!(
        d.create_surface(false, false, (0, 0)),
        Ok(SurfaceStep::Screen { width: 200, height: 100 })
    );
    d.on_screen();
    assert_eq!(d.create_surface(true, true, (9, 9)), Ok(SurfaceStep::Cursor { side: 64 }));
    assert_eq!(d.create_surface(true, false, (9, 9)), Err(SurfaceError::Unsupported));
    assert_eq!(
        d.create_surface(false, false, (0, 50)),
        Ok(SurfaceStep::Resize { width: 200, height: 50 })
    );
    assert_eq!(d.on_resized(200, 50, false), Err(SurfaceError::Allocate));
    assert_eq!(d.on_resized(200, 50, true), Ok(()));
    assert_eq!(
        d.create_surface(false, false, (200, 50)),
        Ok(SurfaceStep::Screen { width: 200, height: 50 })
    );
}

#[test]
fn images_of_another_size_are_not_shown() {
    let mut d = DisplayVnc::new_tcp(":1", 20, 10, false);
    assert_eq!(d.blit_known(), None);
    d.on_blit_probed(true);
    d.on_blit_probed(false);
    assert_eq!(d.blit_known(), Some(true));
    let fits = VncImport { handle: 44, width: 20, height: 10 };
    d.on_imported(1, fits);
    d.on_imported(2, VncImport { handle: 45, width: 10, height: 20 });
    assert_eq!(d.import_for(1, 20, 10), Ok(fits));
    assert_eq!(d.import_for(2, 20, 10), Err(ImportError::OtherSize));
    assert_eq!(d.import_for(1, 20, 11), Err(ImportError::OtherSize));
    assert_eq!(d.import_for(3, 20, 10), Err(ImportError::Unknown));
    assert_eq!(d.release_import(1), Some(44));
    assert_eq!(d.release_import(1), None);
    assert_eq!(d.import_for(1, 20, 10), Err(ImportError::Unknown));
}

#[test]
fn an_overwritten_frame_is_not_offered() {
    let mut f = SharedFramebuffer::new(2, 2);
    assert_eq!(f.data().len(), 16);
    let o = f.offer(true, false).unwrap();
    assert_eq!(o.source, FrameSource::Data);
    assert!(o.full && !o.has_cursor && !o.cursor_visible);
    f.before_blit();
    let packed = BlitMapping { width: 2, height: 2, stride_bytes: 8 };
    assert_eq!(f.on_mapped(packed, &[7; 16]), Ok(()));
    assert_eq!(f.data(), &vec![0; 16]);
    assert!(f.offer(false, false).is_none());
    assert_eq!(f.offer(false, true).unwrap().source, FrameSource::Mapped);
    f.flip(&vec![3; 5]);
    assert_eq!(f.data(), &vec![3, 3, 3, 3, 3, 0, 0, 0, 0, 0, 0, 0, 0, 0, 0, 0]);
    assert_eq!(f.offer(false, false).unwrap().source, FrameSource::Data);
}

#[test]
fn rows_that_are_apart_are_packed() {
    let mut f = SharedFramebuffer::new(1, 3);
    let wide = BlitMapping { width: 1, height: 3, stride_bytes: 6 };
    let src: Vec<u8> = (1..=16).collect();
    assert_eq!(f.on_mapped(wide, &src), Ok(()));
    assert_eq!(f.data(), &vec![1, 2, 3, 4, 7, 8, 9, 10, 13, 14, 15, 16]);
    f.flip(&vec![0; 12]);
    assert_eq!(f.on_mapped(wide, &src[..15]), Ok(()));
    assert_eq!(f.data(), &vec![1, 2, 3, 4, 7, 8, 9, 10, 0, 0, 0, 0]);
    let other = BlitMapping { width: 2, height: 3, stride_bytes: 8 };
    assert_eq!(f.on_mapped(other, &src), Err(ImportError::TargetSize));
}

#[test]
fn the_cursor_follows_its_hot_spot() {
    let mut f = SharedFramebuffer::new(4, 4);
    f.set_cursor(vec![1; 16], 2, 2);
    assert!(f.cursor().visible);
    assert_eq!(f.set_position(-3, 5, (2, 1)), (-1, 6));
    assert_eq!((f.cursor().x, f.cursor().y), (-3, 5));
    assert_eq!(f.set_position(i32::MAX, 0, (1, 0)), (i32::MIN, 0));
    let o = f.offer(false, true).unwrap();
    assert!(o.has_cursor && o.cursor_visible && !o.full);
    f.set_cursor_visible(false);
    let o = f.offer(false, true).unwrap();
    assert!(o.has_cursor && !o.cursor_visible);
}
