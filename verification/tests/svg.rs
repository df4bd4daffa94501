use inventory_barcode::error::BarcodeError;
use inventory_barcode::svg::render_svg;
use inventory_barcode::symbology::{bar_count, encode};

fn expected_svg(modules: &[u8], height: u32, xdim: u32) -> String {
    let width = modules.len() as u32 * xdim;
    let mut text = format!("<svg version=\"1.1\" viewBox=\"0 0 {} {}\">", width, height);
    text += &format!(
        "<rect x=\"0\" y=\"0\" width=\"{}\" height=\"{}\" fill=\"#ffffff\"/>",
        width, height
    );
    for (i, module) in modules.iter().enumerate() {
        if *module == 1 {
            text += &format!(
                "<rect x=\"{}\" y=\"0\" width=\"{}\" height=\"{}\" fill=\"#000000\"/>",
                i as u32 * xdim,
                xdim,
                height
            );
        }
    }
    text += "</svg>";
    text
}

#[test]
fn svg_of_a_product_token_draws_one_shape_for_each_bar() {
    let train = encode("PRODUCTONE-XS").unwrap();
    let svg = render_svg(&train, 44, 1).unwrap();
    assert!(svg.starts_with("<svg"));
    assert!(svg.ends_with("</svg>"));
    let bars = train.modules().iter().filter(|m| **m == 1).count();
    assert_eq!(bar_count(&train), bars);
    assert_eq!(svg.matches("fill=\"#000000\"").count(), bars);
    assert_eq!(svg.matches("<rect").count(), bars + 1);
    assert_eq!(svg.matches("<svg").count(), 1);
}

#[test]
fn svg_text_is_exactly_the_view_box_the_background_and_the_bars() {
    let train = encode("0").unwrap();
    assert_eq!(render_svg(&train, 44, 1).unwrap(), expected_svg(train.modules(), 44, 1));
    assert_eq!(render_svg(&train, 80, 3).unwrap(), expected_svg(train.modules(), 80, 3));
    assert_eq!(render_svg(&train, 0, 0).unwrap(), expected_svg(train.modules(), 0, 0));
    let train = encode("PRODUCTONE-XS").unwrap();
    assert_eq!(render_svg(&train, 44, 2).unwrap(), expected_svg(train.modules(), 44, 2));
}

#[test]
fn svg_begins_with_the_view_box_of_the_whole_width() {
    let train = encode("0").unwrap();
    let svg = render_svg(&train, 44, 2).unwrap();
    assert!(svg.starts_with(
        "<svg version=\"1.1\" viewBox=\"0 0 76 44\"><rect x=\"0\" y=\"0\" width=\"76\" height=\"44\" fill=\"#ffffff\"/><rect x=\"0\" y=\"0\" width=\"2\" height=\"44\" fill=\"#000000\"/><rect x=\"6\" "
    ));
}

#[test]
fn the_drawn_width_is_the_bars_times_the_module_width() {
    let train = encode("AB").unwrap();
    let xdim = 3;
    let svg = render_svg(&train, 44, xdim).unwrap();
    let drawn: usize = svg.matches("fill=\"#000000\"").count() * xdim as usize;
    assert_eq!(drawn, bar_count(&train) * xdim as usize);
}

#[test]
fn svg_is_refused_where_the_width_leaves_32_bits() {
    let train = encode("0").unwrap();
    assert_eq!(render_svg(&train, 44, 113025456).err(), Some(BarcodeError::Format));
    assert!(render_svg(&train, 44, 113025455).is_ok());
}
