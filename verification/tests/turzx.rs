use bc250_dashboard::{
    find_panel_port, pack_coords, BackendError, Command, DirtyTracker, Frame, Orientation,
    PanelLink, PortInfo, Rect,
};

#[test]
fn merges_overlapping() {
    let mut t = DirtyTracker::new();
    t.add(Rect::new(0, 0, 10, 10));
    t.add(Rect::new(5, 5, 10, 10));
    assert_eq!(t.regions(), &[Rect::new(0, 0, 15, 15)]);
}

#[test]
fn keeps_disjoint() {
    let mut t = DirtyTracker::new();
    t.add(Rect::new(0, 0, 10, 10));
    t.add(Rect::new(100, 100, 10, 10));
    assert_eq!(t.regions().len(), 2);
}

#[test]
fn rotated_cw_swaps_dims_and_moves_corner() {
    let mut f = Frame::new(2, 3); // 2 wide, 3 tall
    f.as_rgba_mut()[0..4].copy_from_slice(&[9, 9, 9, 9]); // top-left (0,0)
    let r = f.rotated_cw();
    assert_eq!((r.width(), r.height()), (3, 2));
    // top-left of a w-wide buffer lands at top-right of the rotated one
    let top_right = ((r.width() as usize - 1) * 4)..((r.width() as usize) * 4);
    assert_eq!(&r.as_rgba()[top_right], &[9, 9, 9, 9]);
}

#[test]
fn hello_is_six_repeated_opcodes() {
    assert_eq!(Command::Hello.encode(), vec![69, 69, 69, 69, 69, 69]);
}

#[test]
fn brightness_is_inverted_and_packed_into_x() {
    // level 255 -> inv 0 -> all-zero coords, opcode 110.
    assert_eq!(
        Command::SetBrightness(255).encode(),
        vec![0, 0, 0, 0, 0, 110]
    );
    // level 0 -> inv 255 -> x = 255 -> b0 = 63, b1 = (3 << 6) = 192.
    assert_eq!(
        Command::SetBrightness(0).encode(),
        vec![63, 192, 0, 0, 0, 110]
    );
}

#[test]
fn orientation_packet_is_16_bytes_with_size() {
    let buf = Command::SetOrientation {
        landscape: false,
        width: 320,
        height: 480,
    }
    .encode();
    assert_eq!(buf.len(), 16);
    assert_eq!(buf[5], 121);
    assert_eq!(buf[6], 100);
    assert_eq!([buf[7], buf[8]], [0x01, 0x40]); // 320
    assert_eq!([buf[9], buf[10]], [0x01, 0xe0]); // 480
    assert_eq!(
        Command::SetOrientation {
            landscape: true,
            width: 480,
            height: 320,
        }
        .encode()[6],
        102
    );
}

#[test]
fn draw_bitmap_matches_reference_coord_packing() {
    let buf = Command::DrawBitmap {
        x: 0,
        y: 0,
        ex: 319,
        ey: 479,
    }
    .encode();
    assert_eq!(buf, vec![0, 0, 4, 253, 223, 197]);
}

#[test]
fn logical_size_swaps_with_orientation() {
    assert_eq!(Orientation::Portrait.logical_size(), (320, 480));
    assert_eq!(Orientation::Landscape.logical_size(), (480, 320));
}

#[test]
fn coords_unpack_to_what_was_packed() {
    let b = pack_coords(17, 300, 319, 479);
    let x = ((b[0] as u16) << 2) | ((b[1] as u16) >> 6);
    let y = (((b[1] as u16) & 63) << 4) | ((b[2] as u16) >> 4);
    let ex = (((b[2] as u16) & 15) << 6) | ((b[3] as u16) >> 2);
    let ey = (((b[3] as u16) & 3) << 8) | (b[4] as u16);
    assert_eq!((x, y, ex, ey), (17, 300, 319, 479));
}

#[test]
fn empty_rect_leaves_regions_alone() {
    let mut t = DirtyTracker::new();
    t.add(Rect::new(3, 3, 4, 4));
    t.add(Rect::new(50, 50, 0, 9));
    assert_eq!(t.regions(), &[Rect::new(3, 3, 4, 4)]);
    assert!(!t.is_empty());
    t.clear();
    assert!(t.is_empty());
}

#[test]
fn merged_region_still_covers_earlier_rects() {
    let mut t = DirtyTracker::new();
    t.add(Rect::new(0, 0, 4, 4));
    t.add(Rect::new(20, 0, 4, 4));
    // touches the first one edge to edge, not the second
    t.add(Rect::new(4, 4, 2, 2));
    let regions = t.regions().to_vec();
    let covers = |x: Rect| {
        regions.iter().any(|g| {
            g.x <= x.x && x.x + x.w <= g.x + g.w && g.y <= x.y && x.y + x.h <= g.y + g.h
        })
    };
    assert!(covers(Rect::new(0, 0, 4, 4)));
    assert!(covers(Rect::new(20, 0, 4, 4)));
    assert!(covers(Rect::new(4, 4, 2, 2)));
    assert_eq!(regions.len(), 2);
    assert_eq!(regions[1], Rect::new(0, 0, 6, 6));
}

#[test]
fn rect_union_and_area() {
    let u = Rect::new(2, 3, 4, 5).union(Rect::new(10, 1, 2, 2));
    assert_eq!(u, Rect::new(2, 1, 10, 7));
    assert_eq!(u.area(), 70);
}

#[test]
fn rgb565_packs_channels() {
    let mut f = Frame::new(2, 1);
    f.as_rgba_mut()[0..4].copy_from_slice(&[255, 0, 0, 255]);
    f.as_rgba_mut()[4..8].copy_from_slice(&[0x12, 0x34, 0x56, 255]);
    let px = f.to_rgb565();
    assert_eq!(px[0], 0xf800);
    assert_eq!(px[1], ((0x12u16 >> 3) << 11) | ((0x34u16 >> 2) << 5) | (0x56u16 >> 3));
}

#[test]
fn first_frame_is_sent_whole_then_dirty_regions() {
    let f = Frame::new(320, 480);
    let mut link = PanelLink::new();
    let dirty = [Rect::new(10, 10, 2, 2)];
    let first = link.frame_packets(&f, &dirty);
    assert_eq!(first.len(), 1);
    assert_eq!(
        first[0].0,
        Command::DrawBitmap { x: 0, y: 0, ex: 319, ey: 479 }
    );
    assert_eq!(first[0].1.len(), 320 * 480 * 2);
    link.mark_presented();
    let next = link.frame_packets(&f, &dirty);
    assert_eq!(next.len(), 1);
    assert_eq!(next[0].0, Command::DrawBitmap { x: 10, y: 10, ex: 11, ey: 11 });
    assert_eq!(next[0].1.len(), 2 * 2 * 2);
}

#[test]
fn opening_sequence_is_hello_then_portrait() {
    let cmds = PanelLink::opening_commands();
    assert_eq!(
        cmds,
        vec![
            Command::Hello,
            Command::SetOrientation { landscape: false, width: 320, height: 480 }
        ]
    );
}

#[test]
fn backend_error_texts() {
    assert_eq!(
        BackendError::DeviceNotFound { vid: 0x1a86, pid: 0x5722 }.message(),
        "no TURZX device found (looked for VID 0x1a86 PID 0x5722)"
    );
    assert_eq!(
        BackendError::Io("broken pipe".to_string()).message(),
        "display backend I/O error: broken pipe"
    );
    assert_eq!(
        BackendError::Protocol("short reply".to_string()).message(),
        "TURZX protocol error: short reply"
    );
    assert_eq!(BackendError::Other("x".to_string()).message(), "x");
}

#[test]
fn panel_port_is_found_by_usb_ids() {
    let ports = vec![
        PortInfo { name: "/dev/ttyS0".to_string(), usb: None },
        PortInfo { name: "/dev/ttyACM0".to_string(), usb: Some((0x2341, 0x0043)) },
        PortInfo { name: "/dev/ttyACM1".to_string(), usb: Some((0x1a86, 0x5722)) },
    ];
    assert_eq!(find_panel_port(&ports), Ok("/dev/ttyACM1".to_string()));
    assert_eq!(
        find_panel_port(&ports[..2].to_vec()),
        Err(BackendError::DeviceNotFound { vid: 0x1a86, pid: 0x5722 })
    );
}

#[test]
fn empty_rectangles_are_ignored_even_at_the_far_edge() {
    let mut t = DirtyTracker::new();
    t.add(Rect::new(0, 0, 10, 10));
    let before = t.regions().to_vec();
    t.add(Rect::new(u16::MAX, 5, 0, 10));
    t.add(Rect::new(5, u16::MAX, 10, 0));
    assert_eq!(t.regions(), before.as_slice());
}

#[test]
fn a_merge_keeps_regions_the_new_box_does_not_touch() {
    let mut t = DirtyTracker::new();
    t.add(Rect::new(0, 0, 10, 10));
    t.add(Rect::new(100, 100, 10, 10));
    t.add(Rect::new(5, 5, 10, 10));
    assert_eq!(t.regions().len(), 2);
    assert!(t.regions().contains(&Rect::new(100, 100, 10, 10)));
    assert!(t.regions().contains(&Rect::new(0, 0, 15, 15)));
}

#[test]
fn four_quarter_turns_give_the_frame_back() {
    let mut f = Frame::new(3, 2);
    for (i, b) in f.as_rgba_mut().iter_mut().enumerate() {
        *b = i as u8;
    }
    let g = f.rotated_cw().rotated_cw().rotated_cw().rotated_cw();
    assert_eq!((g.width(), g.height()), (f.width(), f.height()));
    assert_eq!(g.as_rgba(), f.as_rgba());
}
