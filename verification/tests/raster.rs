use inventory_barcode::raster::{
    captioned_label, captioned_label_with_sku, label_canvas, png_outcome, render_png, Canvas,
    BARCODE_HEIGHT, CAPTION_HEIGHT, FONT_SIZE, PADDING,
};
use inventory_barcode::error::BarcodeError;
use inventory_barcode::symbology::encode;

fn rgb(pixels: &[u8], width: u32, x: u32, y: u32) -> [u8; 3] {
    let at = 3 * (y as usize * width as usize + x as usize);
    [pixels[at], pixels[at + 1], pixels[at + 2]]
}

#[test]
fn the_constants_of_the_layout() {
    assert_eq!(BARCODE_HEIGHT, 44);
    assert_eq!(PADDING, 4);
    assert_eq!(FONT_SIZE, 22);
    assert_eq!(CAPTION_HEIGHT, 30);
}

#[test]
fn png_of_a_train_shows_one_column_for_each_module() {
    let train = encode("PRODUCTONE-XS").unwrap();
    let bytes = render_png(&train).unwrap();
    assert_eq!(&bytes[..8], &[0x89, b'P', b'N', b'G', 0x0d, 0x0a, 0x1a, 0x0a]);
    let picture = image::load_from_memory(&bytes).unwrap().to_rgb8();
    assert_eq!(picture.width() as usize, train.len());
    assert_eq!(picture.height(), 44);
    for (x, module) in train.modules().iter().enumerate() {
        for y in [0, 21, 43] {
            let expected = if *module == 1 { [0, 0, 0] } else { [255, 255, 255] };
            assert_eq!(picture.get_pixel(x as u32, y).0, expected);
        }
    }
}

#[test]
fn png_is_the_same_for_the_same_train() {
    let train = encode("AB").unwrap();
    assert_eq!(render_png(&train).unwrap(), render_png(&train).unwrap());
    assert_ne!(render_png(&train).unwrap(), render_png(&encode("AC").unwrap()).unwrap());
}

#[test]
fn a_missing_png_is_a_format_error() {
    assert_eq!(png_outcome(None), Err(BarcodeError::Format));
    assert_eq!(png_outcome(Some(vec![1, 2, 3])), Ok(vec![1, 2, 3]));
}

#[test]
fn a_white_canvas_is_white() {
    let canvas = Canvas::white(3, 2).unwrap();
    assert_eq!(canvas.width(), 3);
    assert_eq!(canvas.height(), 2);
    assert_eq!(canvas.pixels(), &vec![255u8; 18]);
    let empty = Canvas::white(0, 5).unwrap();
    assert_eq!(empty.pixels().len(), 0);
}

#[test]
fn overlay_copies_colour_and_clips_at_the_edges() {
    let canvas = Canvas::white(3, 3).unwrap();
    let source: Vec<u8> = vec![
        10, 11, 12, 255, 20, 21, 22, 0, //
        30, 31, 32, 255, 40, 41, 42, 7,
    ];
    let canvas = canvas.overlay_rgba(&source, 2, 2, 2, 1).unwrap();
    let pixels = canvas.into_raw();
    assert_eq!(rgb(&pixels, 3, 2, 1), [10, 11, 12]);
    assert_eq!(rgb(&pixels, 3, 2, 2), [30, 31, 32]);
    for (x, y) in [(0, 0), (1, 0), (2, 0), (0, 1), (1, 1), (0, 2), (1, 2)] {
        assert_eq!(rgb(&pixels, 3, x, y), [255, 255, 255]);
    }
    let canvas = Canvas::white(2, 2).unwrap().overlay_rgba(&source, 2, 2, 0, 0).unwrap();
    assert_eq!(canvas.into_raw(), vec![10, 11, 12, 20, 21, 22, 30, 31, 32, 40, 41, 42]);
    let canvas = Canvas::white(2, 2).unwrap().overlay_rgba(&source, 2, 2, 5, 5).unwrap();
    assert_eq!(canvas.into_raw(), vec![255u8; 12]);
    let refused = Canvas::white(2, 2).unwrap().overlay_rgba(&source, 2, 3, 0, 0);
    assert_eq!(refused.err(), Some(BarcodeError::Format));
}

#[test]
fn the_label_canvas_shows_the_bars_in_the_band_only() {
    let train = encode("0").unwrap();
    let canvas = label_canvas(&train, 40, 124).unwrap();
    assert_eq!(canvas.width(), 38);
    assert_eq!(canvas.height(), 124);
    let pixels = canvas.pixels();
    assert_eq!(pixels.len(), 3 * 38 * 124);
    for (x, module) in train.modules().iter().enumerate() {
        for y in 0..124u32 {
            let in_band = (40..84).contains(&y);
            let expected = if in_band && *module == 1 { [0, 0, 0] } else { [255, 255, 255] };
            assert_eq!(rgb(pixels, 38, x as u32, y), expected, "x {} y {}", x, y);
        }
    }
}

#[test]
fn the_label_canvas_clips_a_band_that_leaves_it() {
    let train = encode("0").unwrap();
    let canvas = label_canvas(&train, 30, 40).unwrap();
    let pixels = canvas.pixels();
    assert_eq!(rgb(pixels, 38, 0, 29), [255, 255, 255]);
    assert_eq!(rgb(pixels, 38, 0, 30), [0, 0, 0]);
    assert_eq!(rgb(pixels, 38, 0, 39), [0, 0, 0]);
    assert_eq!(rgb(pixels, 38, 1, 39), [255, 255, 255]);
}

#[test]
fn a_label_with_one_caption_has_the_barcode_on_top() {
    let train = encode("PRODUCTONE-XS").unwrap();
    let label = captioned_label(&train, "SKU: SKU12345").unwrap();
    assert_eq!(label.canvas.width(), 194);
    assert_eq!(label.canvas.height(), 84);
    assert_eq!(label.canvas.height(), BARCODE_HEIGHT + 10 + CAPTION_HEIGHT);
    assert_eq!(label.captions.len(), 1);
    assert_eq!(label.captions[0].text, "SKU: SKU12345");
    assert_eq!(label.captions[0].at.x, 7);
    assert_eq!(label.captions[0].at.y, 54);
    let pixels = label.canvas.pixels();
    assert_eq!(rgb(pixels, 194, 0, 0), [0, 0, 0]);
    assert_eq!(rgb(pixels, 194, 1, 0), [255, 255, 255]);
    assert_eq!(rgb(pixels, 194, 0, 43), [0, 0, 0]);
    assert_eq!(rgb(pixels, 194, 0, 44), [255, 255, 255]);
    assert_eq!(rgb(pixels, 194, 193, 83), [255, 255, 255]);
}

#[test]
fn a_label_with_two_captions_has_the_barcode_between_them() {
    let train = encode("PRODUCTONE-XS").unwrap();
    let label = captioned_label_with_sku(&train, "SKU: SKU12345", "PRODUCTONE (XS)").unwrap();
    assert_eq!(label.canvas.width(), 194);
    assert_eq!(label.canvas.height(), 124);
    assert_eq!(label.canvas.height(), 2 * CAPTION_HEIGHT + BARCODE_HEIGHT + 2 * 10);
    assert_eq!(label.captions.len(), 2);
    assert_eq!(label.captions[0].text, "SKU: SKU12345");
    assert_eq!(label.captions[0].at.x, 7);
    assert_eq!(label.captions[0].at.y, 4);
    assert_eq!(label.captions[1].text, "PRODUCTONE (XS)");
    assert_eq!(label.captions[1].at.x, 0);
    assert_eq!(label.captions[1].at.y, 94);
    let pixels = label.canvas.pixels();
    assert_eq!(rgb(pixels, 194, 0, 39), [255, 255, 255]);
    assert_eq!(rgb(pixels, 194, 0, 40), [0, 0, 0]);
    assert_eq!(rgb(pixels, 194, 0, 83), [0, 0, 0]);
    assert_eq!(rgb(pixels, 194, 0, 84), [255, 255, 255]);
    assert_eq!(rgb(pixels, 194, 193, 60), [0, 0, 0]);
    assert_eq!(rgb(pixels, 194, 192, 60), [255, 255, 255]);
}
