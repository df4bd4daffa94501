use inventory_barcode::sanitize::{sanitize_for_barcode, sanitize_for_path};
use inventory_barcode::text::{char_is_whitespace, chars_of, string_of, to_upper};
use regex::Regex;

/// The path policy written with regular expressions, step by step.
fn path_policy_by_regex(input: &str) -> String {
    let unsafe_chars = Regex::new(r#"[/\\?%*:|"<>.,;=]"#).unwrap();
    let spaces = Regex::new(r"\s+").unwrap();
    let hyphens = Regex::new(r"-+").unwrap();
    let underscores = Regex::new(r"_+").unwrap();
    let step = unsafe_chars.replace_all(input.trim(), "-").to_string();
    let step = spaces.replace_all(&step, "_").to_string();
    let step = hyphens.replace_all(&step, "-").to_string();
    let step = underscores.replace_all(&step, "_").to_string();
    step.to_uppercase()
}

const SAMPLES: [&str; 22] = [
    "",
    " ",
    "Product One",
    "Product One!!",
    "  padded\tname \n",
    "a/b\\c?d%e*f:g|h\"i<j>k.l,m;n=o",
    "many   spaces   here",
    "dash--dash---dash",
    "under__score___s",
    "mix -_ - _ of -- __ all",
    "..//..",
    "tab\tand\nnewline\r\nand\u{a0}nbsp",
    "\u{2003}em space\u{3000}ideographic",
    "Stra\u{df}e caf\u{e9}",
    "x = y ; z",
    "_ _",
    "- -",
    " - ",
    "a\u{85}b\u{1680}c\u{2028}d\u{2029}e\u{202f}f\u{205f}g",
    "ALREADY_CLEAN-NAME",
    "trailing.",
    ":leading",
];

#[test]
fn path_policy_agrees_with_regular_expressions() {
    for sample in SAMPLES {
        assert_eq!(sanitize_for_path(sample), path_policy_by_regex(sample), "{:?}", sample);
    }
}

#[test]
fn path_policy_examples() {
    assert_eq!(sanitize_for_path("Product One"), "PRODUCT_ONE");
    assert_eq!(sanitize_for_path("Product One!!"), "PRODUCT_ONE!!");
    assert_eq!(sanitize_for_path("a/b\\c"), "A-B-C");
    assert_eq!(sanitize_for_path("  x  y  "), "X_Y");
    assert_eq!(sanitize_for_path("a..b"), "A-B");
    assert_eq!(sanitize_for_path("a - b"), "A_-_B");
    assert_eq!(sanitize_for_path("a__b--c"), "A_B-C");
}

#[test]
fn barcode_policy_examples() {
    assert_eq!(sanitize_for_barcode("Product One"), "PRODUCTONE");
    assert_eq!(sanitize_for_barcode("  xs "), "XS");
    assert_eq!(sanitize_for_barcode("a\tb\nc d"), "ABCD");
    assert_eq!(sanitize_for_barcode("a-b.c"), "A-B.C");
}

#[test]
fn empty_text_stays_empty() {
    assert_eq!(sanitize_for_path(""), "");
    assert_eq!(sanitize_for_barcode(""), "");
    assert_eq!(sanitize_for_path(" \t "), "");
    assert_eq!(sanitize_for_barcode(" \t "), "");
}

#[test]
fn both_policies_are_idempotent_on_the_samples() {
    for sample in SAMPLES {
        let path = sanitize_for_path(sample);
        assert_eq!(sanitize_for_path(&path), path, "{:?}", sample);
        let code = sanitize_for_barcode(sample);
        assert_eq!(sanitize_for_barcode(&code), code, "{:?}", sample);
    }
}

#[test]
fn both_policies_are_idempotent_on_text_outside_ascii() {
    let samples = [
        "stra\u{df}e",
        "\u{149}ame",
        "\u{1c5}emal",
        "\u{390}\u{3b0} \u{3c2}\u{3c3}",
        "\u{fb01}ne \u{fb03}x",
        "\u{131}\u{17f} i\u{307}",
        "\u{10d0}\u{10d1} \u{1e9e}",
        "caf\u{e9} / th\u{e9}\u{a0}: \u{4e2d}\u{6587}",
        "\u{1f600} smile\u{3000}\u{2003}!",
    ];
    for sample in samples {
        let path = sanitize_for_path(sample);
        assert_eq!(sanitize_for_path(&path), path, "{:?}", sample);
        let code = sanitize_for_barcode(sample);
        assert_eq!(sanitize_for_barcode(&code), code, "{:?}", sample);
    }
}

#[test]
fn path_tokens_hold_no_unsafe_character() {
    for sample in SAMPLES {
        let path = sanitize_for_path(sample);
        assert!(!path.chars().any(|c| "/\\?%*:|\"<>.,;=".contains(c)), "{:?}", path);
        assert!(!path.chars().any(|c| c.is_whitespace()), "{:?}", path);
        assert!(!path.contains("--") && !path.contains("__"), "{:?}", path);
    }
}

#[test]
fn barcode_tokens_hold_no_white_space() {
    for sample in SAMPLES {
        let code = sanitize_for_barcode(sample);
        assert!(!code.chars().any(|c| c.is_whitespace()), "{:?}", code);
    }
}

#[test]
fn upper_casing_is_the_unicode_mapping() {
    assert_eq!(sanitize_for_barcode("stra\u{df}e"), "STRASSE");
    assert_eq!(sanitize_for_path("caf\u{e9}"), "CAF\u{c9}");
    assert_eq!(to_upper(&vec!['a', 'Z', '1', '\u{e9}']), "AZ1\u{c9}");
}

#[test]
fn white_space_is_the_unicode_property() {
    let mut c = 0u32;
    while c <= 0x10ffff {
        if let Some(ch) = char::from_u32(c) {
            assert_eq!(char_is_whitespace(ch), ch.is_whitespace(), "U+{:04X}", c);
        }
        c += 1;
    }
}

#[test]
fn strings_and_characters_convert_both_ways() {
    let text = "a\u{e9}\u{1f600}z";
    let chars = chars_of(text);
    assert_eq!(chars, vec!['a', '\u{e9}', '\u{1f600}', 'z']);
    assert_eq!(string_of(&chars), text);
    assert_eq!(string_of(&Vec::new()), "");
}
