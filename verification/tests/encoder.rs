use inventory_barcode::error::BarcodeError;
use inventory_barcode::symbology::{
    bar_count, encode, has_train_shape, segments, ModuleTrain, Segment,
};

const SENTINEL: [u8; 12] = [1, 0, 0, 1, 0, 1, 1, 0, 1, 1, 0, 1];

fn bits(text: &str) -> Vec<u8> {
    text.bytes().map(|b| b - b'0').collect()
}

#[test]
fn encode_gives_the_published_modules() {
    let train = encode("1234").unwrap();
    assert_eq!(
        train.modules(),
        &bits("10010110110101101001010110101100101011011011001010101010011010110100101101101")
    );
    let train = encode("TEST8052").unwrap();
    assert_eq!(
        train.modules(),
        &bits("100101101101010101101100101101011001010101101011001010101101100101101001011010101001101101011010011010101011001010110100101101101")
    );
}

#[test]
fn encode_is_deterministic() {
    let first = encode("PRODUCTONE-XS").unwrap();
    let second = encode("PRODUCTONE-XS").unwrap();
    assert_eq!(first.modules(), second.modules());
    assert_eq!(encode("a").err(), encode("a").err());
}

#[test]
fn encode_rejects_what_is_outside_the_alphabet() {
    assert_eq!(encode("A#B").err(), Some(BarcodeError::UnsupportedCharacter));
    assert_eq!(encode("abc").err(), Some(BarcodeError::UnsupportedCharacter));
    assert_eq!(encode("A*B").err(), Some(BarcodeError::UnsupportedCharacter));
    assert_eq!(encode("\u{e9}").err(), Some(BarcodeError::UnsupportedCharacter));
}

#[test]
fn encode_rejects_the_empty_token() {
    assert_eq!(encode("").err(), Some(BarcodeError::EmptyInput));
}

#[test]
fn encode_judges_length_in_bytes_and_first() {
    let longest = "A".repeat(256);
    let train = encode(&longest).unwrap();
    assert_eq!(train.len(), 13 * 256 + 25);
    assert_eq!(train.len(), 3353);
    assert_eq!(train.characters(), 256);
    assert_eq!(encode(&"A".repeat(257)).err(), Some(BarcodeError::TooLong));
    assert_eq!(encode(&"a".repeat(257)).err(), Some(BarcodeError::TooLong));
    assert_eq!(encode(&"\u{e9}".repeat(129)).err(), Some(BarcodeError::TooLong));
    assert_eq!(encode(&"\u{e9}".repeat(128)).err(), Some(BarcodeError::UnsupportedCharacter));
}

#[test]
fn encode_takes_every_character_of_the_alphabet() {
    let alphabet = "0123456789ABCDEFGHIJKLMNOPQRSTUVWXYZ-. $/+%";
    let train = encode(alphabet).unwrap();
    assert_eq!(train.len(), 13 * 43 + 25);
    for c in alphabet.chars() {
        assert!(encode(&c.to_string()).is_ok(), "{:?}", c);
    }
}

#[test]
fn a_single_character_stands_between_two_sentinels() {
    let train = encode("0").unwrap();
    let modules = train.modules();
    assert_eq!(modules.len(), 38);
    assert!(modules.len() > SENTINEL.len());
    assert_eq!(&modules[..12], &SENTINEL);
    assert_eq!(&modules[26..], &SENTINEL);
    assert_eq!(modules[12], 0);
    assert_eq!(modules[25], 0);
    assert_eq!(&modules[13..25], &[1, 0, 1, 0, 0, 1, 1, 0, 1, 1, 0, 1]);
    assert_eq!(train.characters(), 1);
}

#[test]
fn a_train_begins_and_ends_with_a_bar_and_has_a_gap_before_every_pattern() {
    let train = encode("PRODUCTONE-XS").unwrap();
    let modules = train.modules();
    assert_eq!(modules.len(), 13 * 13 + 25);
    assert_eq!(modules[0], 1);
    assert_eq!(modules[modules.len() - 1], 1);
    for k in 0..=13 {
        assert_eq!(modules[12 + 13 * k], 0);
    }
    for k in 0..13 {
        assert_eq!(modules[13 + 13 * k], 1);
        assert_eq!(modules[24 + 13 * k], 1);
    }
    assert!(modules.iter().all(|m| *m <= 1));
}

#[test]
fn modules_are_taken_as_a_train_only_in_the_shape_of_one() {
    let good = encode("AB").unwrap().into_modules();
    assert!(has_train_shape(&good));
    assert_eq!(ModuleTrain::from_modules(good.clone()).unwrap().modules(), &good);

    assert!(ModuleTrain::from_modules(Vec::new()).is_none());
    assert!(ModuleTrain::from_modules(SENTINEL.to_vec()).is_none());

    let mut short = good.clone();
    short.pop();
    assert!(!has_train_shape(&short));

    let mut not_a_bit = good.clone();
    not_a_bit[14] = 2;
    assert!(!has_train_shape(&not_a_bit));

    let mut no_gap = good.clone();
    no_gap[25] = 1;
    assert!(!has_train_shape(&no_gap));

    let mut no_bar = good.clone();
    no_bar[13] = 0;
    assert!(!has_train_shape(&no_bar));

    let mut bad_start = good.clone();
    bad_start[1] = 1;
    assert!(!has_train_shape(&bad_start));

    let mut bad_stop = good.clone();
    let last = bad_stop.len() - 2;
    bad_stop[last] = 1;
    assert!(!has_train_shape(&bad_stop));

    let too_long = {
        let mut modules = SENTINEL.to_vec();
        modules.push(0);
        for _ in 0..257 {
            modules.extend_from_slice(&[1, 0, 1, 0, 0, 1, 1, 0, 1, 1, 0, 1, 0]);
        }
        modules.extend_from_slice(&SENTINEL);
        modules
    };
    assert!(!has_train_shape(&too_long));
}

#[test]
fn errors_describe_themselves() {
    assert_eq!(BarcodeError::EmptyInput.message(), "barcode data is empty");
    assert_eq!(BarcodeError::TooLong.message(), "barcode data is too long");
    assert_eq!(
        BarcodeError::UnsupportedCharacter.message(),
        "barcode data holds an unsupported character"
    );
    assert_eq!(BarcodeError::Format.message(), "could not generate barcode data");
    assert!(BarcodeError::EmptyInput.is_input());
    assert!(BarcodeError::TooLong.is_input());
    assert!(BarcodeError::UnsupportedCharacter.is_input());
    assert!(!BarcodeError::Format.is_input());
}

#[test]
fn the_runs_of_a_train_alternate_and_add_up() {
    let train = encode("0").unwrap();
    let runs = segments(&train);
    let widths: Vec<u32> = runs.iter().map(|s| s.width).collect();
    assert_eq!(
        widths,
        vec![1, 2, 1, 1, 2, 1, 2, 1, 1, 1, 1, 1, 1, 2, 2, 1, 2, 1, 1, 1, 1, 2, 1, 1, 2, 1, 2, 1, 1]
    );
    assert_eq!(runs[0], Segment { bar: true, width: 1 });
    assert_eq!(runs[1], Segment { bar: false, width: 2 });
    assert_eq!(runs[runs.len() - 1], Segment { bar: true, width: 1 });
    for pair in runs.windows(2) {
        assert_ne!(pair[0].bar, pair[1].bar);
    }
    let mut modules = Vec::new();
    for run in &runs {
        for _ in 0..run.width {
            modules.push(if run.bar { 1u8 } else { 0u8 });
        }
    }
    assert_eq!(&modules, train.modules());
    let bars: u32 = runs.iter().filter(|s| s.bar).map(|s| s.width).sum();
    assert_eq!(bars as usize, bar_count(&train));
    assert_eq!(bar_count(&train), 21);
}

#[test]
fn different_tokens_give_different_trains() {
    let tokens = ["0", "1", "A", "AB", "BA", "A B", "A-B", "PRODUCTONE-XS", "PRODUCTONE-XL"];
    for first in tokens {
        for second in tokens {
            let same = encode(first).unwrap().modules() == encode(second).unwrap().modules();
            assert_eq!(same, first == second, "{:?} {:?}", first, second);
        }
    }
    let alphabet = "0123456789ABCDEFGHIJKLMNOPQRSTUVWXYZ-. $/+%";
    let mut patterns: Vec<Vec<u8>> = Vec::new();
    for c in alphabet.chars() {
        let train = encode(&c.to_string()).unwrap();
        let pattern = train.modules()[13..25].to_vec();
        assert!(!patterns.contains(&pattern), "{:?}", c);
        patterns.push(pattern);
    }
}
