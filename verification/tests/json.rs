use inventory_barcode::error::BarcodeError;
use inventory_barcode::json::{decode_json, render_json};
use inventory_barcode::symbology::encode;

fn text_of(height: u32, xdim: u32, encoding: &[u8]) -> String {
    let list: Vec<String> = encoding.iter().map(|m| m.to_string()).collect();
    format!("{{\"height\":{},\"xdim\":{},\"encoding\":[{}]}}", height, xdim, list.join(","))
}

#[test]
fn render_json_writes_the_compact_object() {
    let train = encode("0").unwrap();
    assert_eq!(
        render_json(&train, 10, 1).unwrap(),
        "{\"height\":10,\"xdim\":1,\"encoding\":[1,0,0,1,0,1,1,0,1,1,0,1,0,1,0,1,0,0,1,1,0,1,1,0,1,0,1,0,0,1,0,1,1,0,1,1,0,1]}"
    );
    assert_eq!(render_json(&train, 4294967295, 20).unwrap(), text_of(4294967295, 20, train.modules()));
}

#[test]
fn render_json_refuses_a_height_or_width_of_zero() {
    let train = encode("0").unwrap();
    assert_eq!(render_json(&train, 0, 1).err(), Some(BarcodeError::Format));
    assert_eq!(render_json(&train, 10, 0).err(), Some(BarcodeError::Format));
}

#[test]
fn json_round_trip_gives_the_train_back() {
    for token in ["0", "PRODUCTONE-XS", "A B", "$/+%.-", "1234567890"] {
        let train = encode(token).unwrap();
        let doc = decode_json(&render_json(&train, 10, 1).unwrap()).unwrap();
        assert_eq!(doc.height, 10);
        assert_eq!(doc.xdim, 1);
        assert_eq!(&doc.encoding, train.modules());
    }
}

#[test]
fn decode_json_reads_numbers_of_any_size_that_fits() {
    let doc = decode_json("{\"height\":4294967295,\"xdim\":7,\"encoding\":[0,255,10,9]}").unwrap();
    assert_eq!(doc.height, 4294967295);
    assert_eq!(doc.xdim, 7);
    assert_eq!(doc.encoding, vec![0, 255, 10, 9]);
    let doc = decode_json("{\"height\":1,\"xdim\":1,\"encoding\":[]}").unwrap();
    assert_eq!(doc.encoding, Vec::<u8>::new());
    let doc = decode_json("{\"height\":1,\"xdim\":1,\"encoding\":[0]}").unwrap();
    assert_eq!(doc.encoding, vec![0]);
}

#[test]
fn decode_json_agrees_with_a_json_parser() {
    let text = render_json(&encode("PRODUCTONE-XS").unwrap(), 10, 1).unwrap();
    let doc = decode_json(&text).unwrap();
    let value: serde_json::Value = serde_json::from_str(&text).unwrap();
    assert_eq!(value.get("height").unwrap().as_u64(), Some(doc.height as u64));
    assert_eq!(value.get("xdim").unwrap().as_u64(), Some(doc.xdim as u64));
    let list: Vec<u64> =
        value.get("encoding").unwrap().as_array().unwrap().iter().map(|v| v.as_u64().unwrap()).collect();
    assert_eq!(list, doc.encoding.iter().map(|m| *m as u64).collect::<Vec<u64>>());
}

#[test]
fn decode_json_refuses_every_other_text() {
    let refused = [
        "",
        "{}",
        "garbage",
        "{\"height\":10,\"xdim\":1,\"encoding\":[1,0]",
        "{\"height\":10,\"xdim\":1,\"encoding\":[1,0]} ",
        " {\"height\":10,\"xdim\":1,\"encoding\":[1,0]}",
        "{\"height\": 10,\"xdim\":1,\"encoding\":[1,0]}",
        "{\"height\":10,\"xdim\":1,\"encoding\":[1, 0]}",
        "{\"height\":10,\"xdim\":1,\"encoding\":[1,0,]}",
        "{\"height\":10,\"xdim\":1,\"encoding\":[,1]}",
        "{\"height\":10,\"xdim\":1,\"encoding\":[1,,0]}",
        "{\"height\":010,\"xdim\":1,\"encoding\":[1]}",
        "{\"height\":10,\"xdim\":01,\"encoding\":[1]}",
        "{\"height\":10,\"xdim\":1,\"encoding\":[01]}",
        "{\"height\":10,\"xdim\":1,\"encoding\":[00]}",
        "{\"height\":0,\"xdim\":1,\"encoding\":[1]}",
        "{\"height\":10,\"xdim\":0,\"encoding\":[1]}",
        "{\"height\":4294967296,\"xdim\":1,\"encoding\":[1]}",
        "{\"height\":99999999999999999999999999,\"xdim\":1,\"encoding\":[1]}",
        "{\"height\":10,\"xdim\":1,\"encoding\":[256]}",
        "{\"height\":10,\"xdim\":1,\"encoding\":[-1]}",
        "{\"height\":10,\"xdim\":1,\"encoding\":[1.0]}",
        "{\"height\":,\"xdim\":1,\"encoding\":[1]}",
        "{\"xdim\":1,\"height\":10,\"encoding\":[1]}",
        "{\"height\":10,\"xdim\":1}",
        "{\"height\":10,\"xdim\":1,\"encoding\":[1]}]}",
        "{\"height\":10,\"xdim\":1,\"encoding\":[]}x",
        "{\"height\":\u{661}\u{660},\"xdim\":1,\"encoding\":[1]}",
    ];
    for text in refused {
        assert_eq!(decode_json(text).err(), Some(BarcodeError::Format), "{:?}", text);
    }
}

#[test]
fn decoding_and_writing_again_gives_the_same_text() {
    for text in [
        "{\"height\":1,\"xdim\":1,\"encoding\":[]}",
        "{\"height\":12,\"xdim\":3,\"encoding\":[7]}",
        "{\"height\":100,\"xdim\":40,\"encoding\":[0,1,2,30,255]}",
    ] {
        let doc = decode_json(text).unwrap();
        assert_eq!(text_of(doc.height, doc.xdim, &doc.encoding), text);
    }
}

#[test]
fn a_document_gives_its_train_only_in_the_shape_of_one() {
    let train = encode("AB").unwrap();
    let doc = decode_json(&render_json(&train, 10, 1).unwrap()).unwrap();
    assert_eq!(doc.into_train().unwrap().modules(), train.modules());
    let doc = decode_json("{\"height\":1,\"xdim\":1,\"encoding\":[1,0,1]}").unwrap();
    assert_eq!(doc.into_train().err(), Some(BarcodeError::Format));
}
