use castscreen::capture::{
    composite_cursor, desktop_extent, is_virtual_adapter, locate_display, pack_rows, prepare_frame, CursorState,
};
use castscreen::frame::bgra_to_rgba;

#[test]
fn bgra_becomes_opaque_rgba() {
    let mut px = vec![1, 2, 3, 4, 10, 20, 30, 40, 99];
    bgra_to_rgba(&mut px);
    assert_eq!(px, vec![3, 2, 1, 255, 30, 20, 10, 255, 99]);
}

#[test]
fn rows_are_packed_without_padding() {
    // Two rows of one pixel, 8 bytes apart.
    let mapped = [1, 2, 3, 4, 0xEE, 0xEE, 0xEE, 0xEE, 5, 6, 7, 8];
    let mut out = vec![0xAB; 3];
    pack_rows(&mapped, 8, 1, 2, &mut out);
    assert_eq!(out, vec![1, 2, 3, 4, 5, 6, 7, 8]);
    pack_rows(&mapped, 8, 0, 2, &mut out);
    assert!(out.is_empty());
}

fn pixel(frame: &[u8], w: usize, x: usize, y: usize) -> [u8; 4] {
    let i = (y * w + x) * 4;
    [frame[i], frame[i + 1], frame[i + 2], frame[i + 3]]
}

#[test]
fn cursor_is_drawn_black_outline_white_body() {
    let (w, h) = (20usize, 30usize);
    let mut frame = vec![7u8; w * h * 4];
    composite_cursor(&mut frame, w as u32, h as u32, 2, 3);
    // The tip is black; the row below has a white body pixel at column 1.
    assert_eq!(pixel(&frame, w, 2, 3), [0, 0, 0, 255]);
    assert_eq!(pixel(&frame, w, 3, 3), [7, 7, 7, 7]);
    assert_eq!(pixel(&frame, w, 3, 5), [255, 255, 255, 255]);
    assert_eq!(pixel(&frame, w, 4, 5), [0, 0, 0, 255]);
    // Row 10 ends in a run of outline, row 16 is the tail.
    assert_eq!(pixel(&frame, w, 2 + 10, 3 + 10), [0, 0, 0, 255]);
    assert_eq!(pixel(&frame, w, 2 + 9, 3 + 16), [0, 0, 0, 255]);
    assert_eq!(pixel(&frame, w, 2 + 7, 3 + 16), [7, 7, 7, 7]);
    // Nothing outside the arrow changes.
    assert_eq!(pixel(&frame, w, 0, 0), [7, 7, 7, 7]);
    let changed = frame.chunks(4).filter(|p| p != &[7, 7, 7, 7]).count();
    let outline = [1, 2, 2, 2, 2, 2, 2, 2, 2, 2, 6, 3, 4, 4, 3, 2, 2];
    let body = [0, 0, 1, 2, 3, 4, 5, 6, 7, 8, 5, 4, 3, 2, 2, 2, 0];
    assert_eq!(changed, outline.iter().sum::<usize>() + body.iter().sum::<usize>());
}

#[test]
fn cursor_is_clipped_at_the_frame_edges() {
    let (w, h) = (4usize, 4usize);
    let mut frame = vec![7u8; w * h * 4];
    composite_cursor(&mut frame, w as u32, h as u32, -1, -2);
    // Cell (row 2, col 1) is white body and lands on (0, 0).
    assert_eq!(pixel(&frame, w, 0, 0), [255, 255, 255, 255]);
    // Far away: nothing drawn.
    let mut far = vec![7u8; w * h * 4];
    composite_cursor(&mut far, w as u32, h as u32, i32::MAX, i32::MAX);
    assert!(far.iter().all(|&b| b == 7));
}

#[test]
fn pointer_reports_update_the_cursor_state() {
    let mut c = CursorState::new();
    assert!(!c.visible);
    assert_eq!(c.position, None);
    c.observe(true, 10, 20, 0);
    assert!(c.visible);
    assert_eq!(c.position, Some((10, 20)));
    c.observe(false, 0, 0, 0);
    assert!(c.visible);
    c.observe(false, 0, 0, 5);
    assert!(!c.visible);
    assert_eq!(c.position, Some((10, 20)));
}

#[test]
fn prepared_frame_packs_converts_and_draws() {
    let mapped = vec![10, 20, 30, 40, 0, 0, 0, 0, 50, 60, 70, 80, 0, 0, 0, 0];
    let mut cursor = CursorState::new();
    let mut out = Vec::new();
    prepare_frame(&mapped, 8, 1, 2, &cursor, true, &mut out);
    assert_eq!(out, vec![30, 20, 10, 255, 70, 60, 50, 255]);
    cursor.observe(true, 0, 0, 1);
    prepare_frame(&mapped, 8, 1, 2, &cursor, true, &mut out);
    assert_eq!(out, vec![0, 0, 0, 255, 0, 0, 0, 255]);
    prepare_frame(&mapped, 8, 1, 2, &cursor, false, &mut out);
    assert_eq!(out, vec![30, 20, 10, 255, 70, 60, 50, 255]);
}

#[test]
fn displays_are_counted_adapter_by_adapter() {
    let outputs = [2u32, 0, 3];
    assert_eq!(locate_display(&outputs, 0), Some((0, 0)));
    assert_eq!(locate_display(&outputs, 1), Some((0, 1)));
    assert_eq!(locate_display(&outputs, 2), Some((2, 0)));
    assert_eq!(locate_display(&outputs, 4), Some((2, 2)));
    assert_eq!(locate_display(&outputs, 5), None);
    assert_eq!(locate_display(&[], 0), None);
}

#[test]
fn desktop_extent_is_the_absolute_span() {
    assert_eq!(desktop_extent(0, 1920), 1920);
    assert_eq!(desktop_extent(1920, 0), 1920);
    assert_eq!(desktop_extent(-1280, 0), 1280);
}

#[test]
fn virtual_adapters_are_recognised() {
    assert!(is_virtual_adapter("Parsec Virtual Display Adapter", 0));
    assert!(is_virtual_adapter("Microsoft Basic Render Driver", 0));
    assert!(is_virtual_adapter("IddSampleDriver Device", 0));
    assert!(is_virtual_adapter("NVIDIA GeForce RTX 4070", 2));
    assert!(!is_virtual_adapter("NVIDIA GeForce RTX 4070", 1));
    assert!(!is_virtual_adapter("AMD Radeon RX 7800 XT", 0));
}
