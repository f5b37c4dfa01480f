use scawy::frame::{get_pixel, new_frame};
use scawy::graphics::{Color, Texture};
use scawy::text::{blit, blit_sheet, draw_text};

fn sheet() -> Texture {
    // 4 by 2 pixels: two cells of 2 by 2 side by side
    let mut bytes = Vec::new();
    for y in 0..2u8 {
        for x in 0..4u8 {
            bytes.extend_from_slice(&[x * 10, y * 10, 200, 255]);
        }
    }
    Texture::new(4, 2, bytes).unwrap()
}

#[test]
fn blit_one_cell_of_a_sheet() {
    let mut screen = new_frame(8, 4);
    blit_sheet(&mut screen, 8, 4, 3, 1, &sheet(), 1, 2, 1);
    assert_eq!(get_pixel(&screen, 8, 4, 3, 1), Color::from_rgb(20, 0, 200));
    assert_eq!(get_pixel(&screen, 8, 4, 4, 2), Color::from_rgb(30, 10, 200));
    assert_eq!(get_pixel(&screen, 8, 4, 5, 1), Color::from_rgba(8, 8, 8, 255));
    assert_eq!(get_pixel(&screen, 8, 4, 2, 1), Color::from_rgba(8, 8, 8, 255));
}

#[test]
fn blit_whole_image_blends() {
    let mut screen = new_frame(4, 2);
    let half = Texture::new(1, 1, vec![208, 8, 108, 128]).unwrap();
    blit(&mut screen, 4, 2, 0, 0, &half);
    assert_eq!(get_pixel(&screen, 4, 2, 0, 0), Color::from_rgb(108, 8, 58));
}

#[test]
fn text_advances_ten_pixels_per_glyph() {
    let mut bytes = Vec::new();
    for y in 0..16u32 {
        for x in 0..16u32 {
            let code = (y * 16 + x) as u8;
            bytes.extend_from_slice(&[code, 0, 0, 255]);
        }
    }
    let font = Texture::new(16, 16, bytes).unwrap();
    let mut screen = new_frame(40, 4);
    draw_text(&mut screen, 40, 4, 0, 2, "AB", &font);
    assert_eq!(get_pixel(&screen, 40, 4, 10, 2), Color::from_rgb(b'A', 0, 0));
    assert_eq!(get_pixel(&screen, 40, 4, 20, 2), Color::from_rgb(b'B', 0, 0));
    assert_eq!(get_pixel(&screen, 40, 4, 0, 2), Color::from_rgba(8, 8, 8, 255));
}
