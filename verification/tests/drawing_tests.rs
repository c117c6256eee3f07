use image::{ImageBuffer, Rgba};

use keys::chart::Note;
use keys::drawing::{blit, draw_badge, draw_glyph, draw_key, draw_string, rectangle, set_pixel, Font, Glyph};
use keys::{HEIGHT, WIDTH};

fn fresh() -> Vec<u32> {
    vec![0u32; WIDTH * HEIGHT]
}

fn at(buffer: &[u32], x: usize, y: usize) -> u32 {
    buffer[y * WIDTH + x]
}

#[test]
fn set_pixel_writes_one_pixel() {
    let mut b = fresh();
    set_pixel(&mut b, 5, 3, 0xabcdef);
    assert_eq!(at(&b, 5, 3), 0xabcdef);
    assert_eq!(at(&b, 4, 3), 0);
    assert_eq!(at(&b, 5, 2), 0);
    assert_eq!(b.iter().filter(|&&p| p != 0).count(), 1);
}

#[test]
fn set_pixel_clips_out_of_bounds_writes() {
    let mut b = fresh();
    set_pixel(&mut b, WIDTH as u32, 0, 0xff);
    set_pixel(&mut b, 0, HEIGHT as u32, 0xff);
    set_pixel(&mut b, 99999, 99999, 0xff);
    assert!(b.iter().all(|&p| p == 0));
}

#[test]
fn filled_rectangle_paints_exactly_its_area() {
    let mut b = fresh();
    rectangle(&mut b, (10, 10), (12, 13), true, 7);
    for x in 0..WIDTH {
        for y in 0..20 {
            let expect = (10..12).contains(&x) && (10..13).contains(&y);
            assert_eq!(at(&b, x, y), if expect { 7 } else { 0 }, "at ({x},{y})");
        }
    }
}

#[test]
fn outline_rectangle_paints_top_and_left_edges() {
    // The exclusive ranges never reach the bottom-right comparisons, so
    // the outline is the top row and the left column.
    let mut b = fresh();
    rectangle(&mut b, (0, 0), (3, 3), false, 9);
    let painted: Vec<(usize, usize)> = (0..10usize)
        .flat_map(|x| (0..10usize).map(move |y| (x, y)))
        .filter(|&(x, y)| at(&b, x, y) != 0)
        .collect();
    let mut expected = vec![(0, 0), (1, 0), (2, 0), (0, 1), (0, 2)];
    let mut got = painted.clone();
    expected.sort();
    got.sort();
    assert_eq!(got, expected);
}

#[test]
fn empty_rectangle_paints_nothing() {
    let mut b = fresh();
    rectangle(&mut b, (12, 13), (12, 13), true, 7);
    rectangle(&mut b, (30, 30), (10, 40), true, 7);
    assert!(b.iter().all(|&p| p == 0));
}

#[test]
fn draw_key_fills_the_lane_band() {
    let mut b = fresh();
    draw_key(&mut b, 0, 100, 5);
    // Lane 0 spans columns 480..560; the key is 10 rows tall ending at 100.
    assert_eq!(at(&b, 480, 90), 5);
    assert_eq!(at(&b, 559, 99), 5);
    assert_eq!(at(&b, 479, 95), 0);
    assert_eq!(at(&b, 560, 95), 0);
    assert_eq!(at(&b, 500, 89), 0);
    assert_eq!(at(&b, 500, 100), 0);
}

#[test]
fn draw_key_clamps_near_the_edges() {
    let mut b = fresh();
    // A height of 4 clamps the top of the band to row 0.
    draw_key(&mut b, 1, 4, 5);
    assert_eq!(at(&b, 600, 0), 5);
    assert_eq!(at(&b, 600, 3), 5);
    assert_eq!(at(&b, 600, 4), 0);
    // A height beyond the playfield clamps the bottom to HEIGHT.
    let mut b = fresh();
    draw_key(&mut b, 1, 100000, 5);
    assert!(b.iter().all(|&p| p == 0)); // top 99990 is below the screen too
}

#[test]
fn note_draw_clips_offscreen_notes() {
    let n = Note { time: 5000, key: 0, hit: false };
    let mut b = fresh();
    n.draw(&mut b, 120, 3000); // far above the playfield
    assert!(b.iter().all(|&p| p == 0));
    n.draw(&mut b, 120, 6000); // long past the hit line
    assert!(b.iter().all(|&p| p == 0));
}

#[test]
fn note_draw_paints_its_lane_at_its_height() {
    let n = Note { time: 5000, key: 0, hit: false };
    let mut b = fresh();
    n.draw(&mut b, 120, 4500); // height 360
    assert_eq!(at(&b, 500, 355), 0xc5c8c6);
    assert_eq!(at(&b, 500, 349), 0);
    assert_eq!(at(&b, 500, 360), 0);
}

fn tiny_font() -> Font {
    Font {
        glyphs: vec![
            Glyph { codepoint: 'a', width: 4, height: 6, pixels: vec![(0, 0), (1, 1)] },
            Glyph { codepoint: 'b', width: 3, height: 6, pixels: vec![(2, 2)] },
        ],
    }
}

#[test]
fn draw_glyph_paints_offset_pixels() {
    let font = tiny_font();
    let mut b = fresh();
    draw_glyph(&mut b, &font.glyphs[0], 100, 200, 3);
    assert_eq!(at(&b, 100, 200), 3);
    assert_eq!(at(&b, 101, 201), 3);
    assert_eq!(b.iter().filter(|&&p| p != 0).count(), 2);
}

#[test]
fn draw_string_advances_by_glyph_width() {
    let font = tiny_font();
    let mut b = fresh();
    draw_string(&mut b, &font, 100, 200, 3, "ab");
    // 'a' at pen 100, 'b' at pen 104.
    assert_eq!(at(&b, 100, 200), 3);
    assert_eq!(at(&b, 101, 201), 3);
    assert_eq!(at(&b, 106, 202), 3);
    assert_eq!(b.iter().filter(|&&p| p != 0).count(), 3);
}

#[test]
fn draw_string_line_break_returns_the_pen() {
    let font = tiny_font();
    let mut b = fresh();
    // Line advance is 6 * 12 / 10 = 7 rows.
    draw_string(&mut b, &font, 100, 200, 3, "a\na");
    assert_eq!(at(&b, 100, 200), 3);
    assert_eq!(at(&b, 101, 201), 3);
    assert_eq!(at(&b, 100, 207), 3);
    assert_eq!(at(&b, 101, 208), 3);
    assert_eq!(b.iter().filter(|&&p| p != 0).count(), 4);
}

#[test]
fn draw_string_skips_unknown_characters() {
    let font = tiny_font();
    let mut b = fresh();
    draw_string(&mut b, &font, 100, 200, 3, "xyz");
    assert!(b.iter().all(|&p| p == 0));
}

#[test]
fn draw_string_clips_at_the_buffer_edge() {
    let font = tiny_font();
    let mut b = fresh();
    draw_string(&mut b, &font, (WIDTH - 1) as u32, (HEIGHT - 1) as u32, 3, "a");
    // Only the (0,0) pixel of the glyph is still on screen.
    assert_eq!(at(&b, WIDTH - 1, HEIGHT - 1), 3);
    assert_eq!(b.iter().filter(|&&p| p != 0).count(), 1);
}

#[test]
fn blit_copies_a_tile() {
    let mut b = fresh();
    let tile = vec![1, 2, 3, 4];
    blit(&mut b, &tile, 2, 2, 10, 20);
    assert_eq!(at(&b, 10, 20), 1);
    assert_eq!(at(&b, 11, 20), 2);
    assert_eq!(at(&b, 10, 21), 3);
    assert_eq!(at(&b, 11, 21), 4);
    assert_eq!(b.iter().filter(|&&p| p != 0).count(), 4);
}

#[test]
fn blit_clips_at_the_buffer_edge() {
    let mut b = fresh();
    let tile = vec![1, 2, 3, 4];
    blit(&mut b, &tile, 2, 2, WIDTH - 1, HEIGHT - 1);
    assert_eq!(at(&b, WIDTH - 1, HEIGHT - 1), 1);
    assert_eq!(b.iter().filter(|&&p| p != 0).count(), 1);
}

#[test]
fn draw_badge_decodes_and_blits_a_png() {
    // Encode a 2x2 RGBA image, then hand the bytes to the library.
    let img: ImageBuffer<Rgba<u8>, Vec<u8>> = ImageBuffer::from_fn(2, 2, |x, y| {
        Rgba([x as u8, y as u8, 7, 255])
    });
    let mut png = std::io::Cursor::new(Vec::new());
    img.write_to(&mut png, image::ImageFormat::Png).unwrap();
    let bytes = png.into_inner();

    let mut b = fresh();
    assert!(draw_badge(&mut b, &bytes, 10, 20));
    assert_eq!(at(&b, 10, 20), u32::from_be_bytes([0, 0, 7, 255]));
    assert_eq!(at(&b, 11, 20), u32::from_be_bytes([1, 0, 7, 255]));
    assert_eq!(at(&b, 10, 21), u32::from_be_bytes([0, 1, 7, 255]));
    assert_eq!(at(&b, 11, 21), u32::from_be_bytes([1, 1, 7, 255]));
    assert_eq!(at(&b, 12, 20), 0);
    assert_eq!(at(&b, 9, 20), 0);
}

#[test]
fn draw_badge_rejects_bytes_that_are_not_a_png() {
    let mut b = fresh();
    let junk = vec![1u8, 2, 3, 4, 5];
    assert!(!draw_badge(&mut b, &junk, 10, 20));
    assert!(b.iter().all(|&p| p == 0));
}
