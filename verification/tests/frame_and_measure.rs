use sruler::frame::FrozenFrame;
use sruler::measure::{diff, measure, pixel_at, scan_down, scan_left, scan_right, scan_up, Measurement};

/// A frame filled with `bg`, with the pixels listed in `spots` painted `fg`.
fn frame_with(width: u32, height: u32, bg: [u8; 4], fg: [u8; 4], spots: &[(u32, u32)]) -> FrozenFrame {
    let mut rgba = Vec::new();
    for y in 0..height {
        for x in 0..width {
            let px = if spots.contains(&(x, y)) { fg } else { bg };
            rgba.extend_from_slice(&px);
        }
    }
    FrozenFrame { width, height, rgba }
}

#[test]
fn load_reads_the_pixel_at_its_offset() {
    let frame = FrozenFrame {
        width: 2,
        height: 2,
        rgba: vec![1, 2, 3, 4, 5, 6, 7, 8, 9, 10, 11, 12, 13, 14, 15, 16],
    };
    assert_eq!(frame.load(0, 0), [1, 2, 3, 4]);
    assert_eq!(frame.load(1, 0), [5, 6, 7, 8]);
    assert_eq!(frame.load(0, 1), [9, 10, 11, 12]);
    assert_eq!(frame.load(1, 1), [13, 14, 15, 16]);
    assert_eq!(pixel_at(&frame, 1, 1), [13, 14, 15, 16]);
}

#[test]
fn is_valid_checks_buffer_size_and_addressing() {
    let ok = FrozenFrame { width: 2, height: 1, rgba: vec![0; 8] };
    assert!(ok.is_valid());
    let longer = FrozenFrame { width: 2, height: 1, rgba: vec![0; 12] };
    assert!(longer.is_valid());
    let short = FrozenFrame { width: 2, height: 1, rgba: vec![0; 7] };
    assert!(!short.is_valid());
    let huge = FrozenFrame { width: 0x8000, height: 0x8001, rgba: vec![] };
    assert!(!huge.is_valid());
}

#[test]
fn from_dynamic_converts_to_rgba8() {
    let rgb = image::RgbImage::from_raw(2, 1, vec![10, 20, 30, 40, 50, 60]).unwrap();
    let frame = FrozenFrame::from_dynamic(image::DynamicImage::ImageRgb8(rgb));
    assert_eq!(frame.width, 2);
    assert_eq!(frame.height, 1);
    assert_eq!(frame.rgba, vec![10, 20, 30, 255, 40, 50, 60, 255]);
    assert!(frame.is_valid());
}

#[test]
fn diff_sums_rgb_distances_and_ignores_alpha() {
    assert_eq!(diff([10, 200, 0, 0], [20, 100, 255, 255]), 10 + 100 + 255);
    assert_eq!(diff([255, 255, 255, 0], [0, 0, 0, 255]), 765);
    assert_eq!(diff([7, 7, 7, 7], [7, 7, 7, 200]), 0);
}

#[test]
fn scans_stop_at_the_first_differing_pixel() {
    let bg = [0, 0, 0, 255];
    let fg = [100, 0, 0, 255];
    // 7x5 frame, cursor at (3, 2); marks at (1, 2), (6, 2), (3, 0), (3, 3).
    let frame = frame_with(7, 5, bg, fg, &[(1, 2), (6, 2), (3, 0), (3, 3)]);
    assert_eq!(scan_left(&frame, 3, 2, 24), 2);
    assert_eq!(scan_right(&frame, 3, 2, 24), 3);
    assert_eq!(scan_up(&frame, 3, 2, 24), 2);
    assert_eq!(scan_down(&frame, 3, 2, 24), 1);
}

#[test]
fn scans_run_to_the_border_when_nothing_differs() {
    let frame = frame_with(5, 4, [9, 9, 9, 255], [9, 9, 9, 255], &[]);
    assert_eq!(scan_left(&frame, 2, 1, 0), 3);
    assert_eq!(scan_right(&frame, 2, 1, 0), 3);
    assert_eq!(scan_up(&frame, 2, 1, 0), 2);
    assert_eq!(scan_down(&frame, 2, 1, 0), 3);
}

#[test]
fn measure_uniform_frame_spans_the_whole_frame() {
    let frame = frame_with(8, 6, [1, 2, 3, 255], [1, 2, 3, 255], &[]);
    let m = measure(&frame, 3, 4, 24);
    assert_eq!(m.width, 8);
    assert_eq!(m.height, 6);
    assert_eq!((m.left_edge_x, m.right_edge_x), (0, 7));
    assert_eq!((m.top_edge_y, m.bottom_edge_y), (0, 5));
}

#[test]
fn measure_finds_the_box_around_the_cursor() {
    let bg = [0, 0, 0, 255];
    let fg = [100, 0, 0, 255];
    let frame = frame_with(7, 5, bg, fg, &[(1, 2), (6, 2), (3, 0), (3, 3)]);
    let m = measure(&frame, 3, 2, 24);
    assert_eq!(
        m,
        Measurement {
            cursor_x: 3,
            cursor_y: 2,
            threshold: 24,
            left: 2,
            right: 3,
            up: 2,
            down: 1,
            width: 4,
            height: 2,
            left_edge_x: 2,
            right_edge_x: 5,
            top_edge_y: 1,
            bottom_edge_y: 2,
        }
    );
}

#[test]
fn measure_clamps_the_cursor_into_the_frame() {
    let frame = frame_with(4, 3, [0, 0, 0, 255], [0, 0, 0, 255], &[]);
    let m = measure(&frame, 100, 200, 5);
    assert_eq!((m.cursor_x, m.cursor_y), (3, 2));
    assert_eq!((m.left, m.right, m.up, m.down), (4, 1, 3, 1));
    assert_eq!((m.width, m.height), (4, 3));
}

#[test]
fn higher_threshold_passes_subtler_edges() {
    let bg = [50, 50, 50, 255];
    let faint = [60, 50, 50, 255];
    let frame = frame_with(9, 1, bg, faint, &[(2, 0), (6, 0)]);
    let tight = measure(&frame, 4, 0, 5);
    assert_eq!((tight.left_edge_x, tight.right_edge_x, tight.width), (3, 5, 3));
    let loose = measure(&frame, 4, 0, 10);
    assert_eq!((loose.left_edge_x, loose.right_edge_x, loose.width), (0, 8, 9));
    assert!(tight.width <= loose.width);
}

#[test]
fn measure_at_the_corner_of_a_single_pixel_frame() {
    let frame = frame_with(1, 1, [3, 3, 3, 3], [3, 3, 3, 3], &[]);
    let m = measure(&frame, 0, 0, 1);
    assert_eq!((m.width, m.height, m.left, m.right, m.up, m.down), (1, 1, 1, 1, 1, 1));
}

#[test]
fn measuring_twice_gives_the_same_measurement() {
    let frame = frame_with(6, 6, [0, 0, 0, 255], [200, 200, 200, 255], &[(0, 2), (4, 2), (2, 5)]);
    assert_eq!(measure(&frame, 2, 2, 30), measure(&frame, 2, 2, 30));
    let m = measure(&frame, 2, 2, 30);
    assert_eq!((m.left_edge_x, m.right_edge_x, m.top_edge_y, m.bottom_edge_y), (1, 3, 0, 4));
    assert_eq!(m.right_edge_x - m.left_edge_x + 1, m.width);
    assert_eq!(m.bottom_edge_y - m.top_edge_y + 1, m.height);
}
