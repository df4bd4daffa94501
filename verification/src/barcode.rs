//! The barcode of one product variant, and its renderings.

use vstd::prelude::*;
use vstd::string::StringExecFns;
use crate::error::BarcodeError;
use crate::json::{decode_json, lemma_json_round_trip, render_json, Barcode};
use crate::raster::{
    captioned_label, captioned_label_with_sku, is_centered, is_label_of, label_height, png_image,
    render_png, Label, BARCODE_HEIGHT, CAPTION_HEIGHT, PADDING,
};
use crate::compositor::TEXT_PADDING;
use crate::svg::{render_svg, svg_text};
use crate::symbology::{
    accepted, encode, is_module_train, module_train, patterns_known, rejection, ModuleTrain,
};

verus! {

/// The print height that the structured form of a barcode carries.
pub const DOCUMENT_HEIGHT: u32 = 10;

/// The module width that the structured form of a barcode carries.
pub const DOCUMENT_XDIM: u32 = 1;

/// The token that is encoded for a product and a variant: the two names
/// with a hyphen between.
pub open spec fn barcode_token(product_name: Seq<char>, product_handle: Seq<char>) -> Seq<char> {
    product_name + "-"@ + product_handle
}

/// The caption of a product and a variant: the product's name, and the
/// variant's in parentheses.
pub open spec fn caption_text(product_name: Seq<char>, product_handle: Seq<char>) -> Seq<char> {
    product_name + " ("@ + product_handle + ")"@
}

/// The line that shows a stock keeping unit.
pub open spec fn sku_text(sku: Seq<char>) -> Seq<char> {
    "SKU: "@ + sku
}

/// The barcode of one product variant: the two names and the modules that
/// encode them.
#[derive(Debug)]
pub struct BarcodeManager {
    pub product_name: String,
    pub product_handle: String,
    pub encoded: Vec<u8>,
}

fn copy_of(bytes: &Vec<u8>) -> (r: Vec<u8>)
    ensures
        r@ == bytes@,
{
    let mut r: Vec<u8> = Vec::new();
    let mut i: usize = 0;
    while i < bytes.len()
        invariant
            i <= bytes.len(),
            r@ == bytes@.take(i as int),
        decreases bytes.len() - i,
    {
        r.push(bytes[i]);
        proof {
            assert(r@ =~= bytes@.take(i as int + 1));
        }
        i += 1;
    }
    proof {
        assert(bytes@.take(bytes.len() as int) =~= bytes@);
    }
    r
}

impl BarcodeManager {
    /// Encodes the token of a product and a variant.
    ///
    /// The token has to be one that the encoder accepts: 1 to 256
    /// characters of the Code 39 alphabet. Any other is refused with the
    /// encoder's error. The modules are the train of the token, thirteen
    /// for each character and twenty-five for the frame.
    pub fn new(product_name: &str, product_handle: &str) -> (r: Result<Self, BarcodeError>)
        ensures
            match r {
                Ok(manager) => {
                    &&& accepted(barcode_token(product_name@, product_handle@))
                    &&& patterns_known(barcode_token(product_name@, product_handle@))
                    &&& manager.product_name@ == product_name@
                    &&& manager.product_handle@ == product_handle@
                    &&& manager.encoded@ == module_train(
                        barcode_token(product_name@, product_handle@),
                    )
                    &&& manager.encoded@.len() == 13 * barcode_token(
                        product_name@,
                        product_handle@,
                    ).len() + 25
                    &&& is_module_train(manager.encoded@)
                },
                Err(e) => {
                    &&& !accepted(barcode_token(product_name@, product_handle@))
                    &&& e == rejection(barcode_token(product_name@, product_handle@))
                },
            },
    {
        let mut token = String::from_str(product_name);
        token.append("-");
        token.append(product_handle);
        match encode(token.as_str()) {
            Ok(train) => Ok(
                BarcodeManager {
                    product_name: String::from_str(product_name),
                    product_handle: String::from_str(product_handle),
                    encoded: train.into_modules(),
                },
            ),
            Err(e) => Err(e),
        }
    }

    /// The modules as a train, or the format error if they have not the
    /// shape of one.
    pub fn train(&self) -> (r: Result<ModuleTrain, BarcodeError>)
        ensures
            match r {
                Ok(train) => train@ == self.encoded@ && is_module_train(self.encoded@),
                Err(e) => e == BarcodeError::Format && !is_module_train(self.encoded@),
            },
    {
        match ModuleTrain::from_modules(copy_of(&self.encoded)) {
            Some(train) => Ok(train),
            None => Err(BarcodeError::Format),
        }
    }

    /// The structured form of the barcode: the document that the JSON text
    /// of the modules decodes to.
    ///
    /// It carries the modules unchanged, with `DOCUMENT_HEIGHT` and
    /// `DOCUMENT_XDIM`. The format error comes if and only if the modules
    /// have not the shape of a train.
    pub fn to_json(&self) -> (r: Result<Barcode, BarcodeError>)
        ensures
            match r {
                Ok(doc) => {
                    &&& is_module_train(self.encoded@)
                    &&& doc.height == DOCUMENT_HEIGHT
                    &&& doc.xdim == DOCUMENT_XDIM
                    &&& doc.encoding@ == self.encoded@
                },
                Err(e) => e == BarcodeError::Format && !is_module_train(self.encoded@),
            },
    {
        let train = match self.train() {
            Ok(train) => train,
            Err(e) => {
                return Err(e);
            },
        };
        let text = match render_json(&train, DOCUMENT_HEIGHT, DOCUMENT_XDIM) {
            Ok(text) => text,
            Err(e) => {
                return Err(e);
            },
        };
        let decoded = decode_json(text.as_str());
        proof {
            lemma_json_round_trip(DOCUMENT_HEIGHT, DOCUMENT_XDIM, train@, decoded);
        }
        decoded
    }

    /// The barcode as an SVG document, `BARCODE_HEIGHT` units high and one
    /// unit wide for each module.
    ///
    /// The format error comes if and only if the modules have not the shape
    /// of a train.
    pub fn to_svg(&self) -> (r: Result<String, BarcodeError>)
        ensures
            match r {
                Ok(s) => is_module_train(self.encoded@) && s@ == svg_text(
                    self.encoded@,
                    BARCODE_HEIGHT as nat,
                    1,
                ),
                Err(e) => e == BarcodeError::Format && !is_module_train(self.encoded@),
            },
    {
        let train = match self.train() {
            Ok(train) => train,
            Err(e) => {
                return Err(e);
            },
        };
        render_svg(&train, BARCODE_HEIGHT, 1)
    }

    /// The bare barcode as the bytes of a PNG file.
    ///
    /// The bytes are those that the PNG generator gives for the modules.
    /// The format error comes if and only if the modules have not the shape
    /// of a train or the generator gives no bytes for them.
    pub fn to_png(&self) -> (r: Result<Vec<u8>, BarcodeError>)
        ensures
            match r {
                Ok(bytes) => {
                    &&& is_module_train(self.encoded@)
                    &&& png_image(BARCODE_HEIGHT, self.encoded@) == Some(bytes@)
                },
                Err(e) => {
                    &&& e == BarcodeError::Format
                    &&& !is_module_train(self.encoded@) || png_image(
                        BARCODE_HEIGHT,
                        self.encoded@,
                    ) is None
                },
            },
    {
        let train = match self.train() {
            Ok(train) => train,
            Err(e) => {
                return Err(e);
            },
        };
        render_png(&train)
    }

    /// The caption of the barcode: the product's name, and the variant's in
    /// parentheses.
    pub fn caption(&self) -> (r: String)
        ensures
            r@ == caption_text(self.product_name@, self.product_handle@),
    {
        let mut text = String::from_str(self.product_name.as_str());
        text.append(" (");
        text.append(self.product_handle.as_str());
        text.append(")");
        text
    }

    /// The label of the barcode with its caption below: the canvas with
    /// the barcode drawn, and the caption with its place.
    ///
    /// The format error comes if and only if the modules have not the shape
    /// of a train.
    pub fn to_label(&self) -> (r: Result<Label, BarcodeError>)
        ensures
            match r {
                Ok(label) => {
                    &&& is_module_train(self.encoded@)
                    &&& is_label_of(label.canvas@, self.encoded@, 0, label_height(1) as int)
                    &&& label.captions@.len() == 1
                    &&& is_centered(
                        label.captions@[0],
                        caption_text(self.product_name@, self.product_handle@),
                        self.encoded@.len(),
                        BARCODE_HEIGHT + TEXT_PADDING,
                    )
                },
                Err(e) => e == BarcodeError::Format && !is_module_train(self.encoded@),
            },
    {
        let train = match self.train() {
            Ok(train) => train,
            Err(e) => {
                return Err(e);
            },
        };
        let caption = self.caption();
        captioned_label(&train, caption.as_str())
    }

    /// The label of the barcode with a line for the stock keeping unit
    /// above and the caption below.
    ///
    /// The format error comes if and only if the modules have not the shape
    /// of a train.
    pub fn to_label_with_sku(&self, sku: &str) -> (r: Result<Label, BarcodeError>)
        ensures
            match r {
                Ok(label) => {
                    &&& is_module_train(self.encoded@)
                    &&& is_label_of(
                        label.canvas@,
                        self.encoded@,
                        CAPTION_HEIGHT + TEXT_PADDING,
                        label_height(2) as int,
                    )
                    &&& label.captions@.len() == 2
                    &&& is_centered(
                        label.captions@[0],
                        sku_text(sku@),
                        self.encoded@.len(),
                        PADDING as int,
                    )
                    &&& is_centered(
                        label.captions@[1],
                        caption_text(self.product_name@, self.product_handle@),
                        self.encoded@.len(),
                        CAPTION_HEIGHT + TEXT_PADDING + BARCODE_HEIGHT + TEXT_PADDING,
                    )
                },
                Err(e) => e == BarcodeError::Format && !is_module_train(self.encoded@),
            },
    {
        let train = match self.train() {
            Ok(train) => train,
            Err(e) => {
                return Err(e);
            },
        };
        let mut sku_line = String::from_str("SKU: ");
        sku_line.append(sku);
        let caption = self.caption();
        captioned_label_with_sku(&train, sku_line.as_str(), caption.as_str())
    }
}

} // verus!
