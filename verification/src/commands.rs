//! What a request for a barcode decides: the tokens of the two names, the
//! answer to the caller, and the artifact that a render target asks for.

use vstd::prelude::*;
use vstd::string::StringExecFns;
use crate::barcode::{barcode_token, BarcodeManager, DOCUMENT_HEIGHT, DOCUMENT_XDIM};
use crate::compositor::TEXT_PADDING;
use crate::error::BarcodeError;
use crate::json::Barcode;
use crate::raster::{
    captioned_label, is_centered, is_label_of, label_height, png_image, Label, BARCODE_HEIGHT,
};
use crate::sanitize::{barcode_safe, path_safe, sanitize_for_barcode, sanitize_for_path};
use crate::svg::svg_text;
use crate::symbology::{accepted, is_module_train, module_train, patterns_known, rejection};

verus! {

/// The answer to a request for a barcode.
#[derive(Debug)]
pub struct GenerateBarcodeData {
    /// Where the artifact is written.
    pub file_path: String,
    /// The barcode as structured data.
    pub barcode: Barcode,
    /// The token that a scanner reads from the barcode.
    pub barcode_code: String,
}

/// The names of a request under both policies.
#[derive(Debug)]
pub struct BarcodeNames {
    /// The path segment of the product.
    pub product_dir: String,
    /// The path segment of the variant.
    pub variant_dir: String,
    /// The product's part of the barcode token.
    pub product_token: String,
    /// The variant's part of the barcode token.
    pub variant_token: String,
}

/// The format and layout in which a barcode is rendered.
#[derive(Debug)]
pub enum RenderTarget {
    /// Structured data.
    Json,
    /// A vector image.
    Svg,
    /// A raster image of the bare barcode.
    Png,
    /// A raster image with the given caption below the barcode.
    PngWithCaption(String),
}

/// What a render target produces.
#[derive(Debug)]
pub enum Artifact {
    /// The barcode as structured data.
    Json(Barcode),
    /// The text of an SVG document.
    Svg(String),
    /// The bytes of a PNG file.
    Png(Vec<u8>),
    /// A label whose captions are still to be drawn.
    Label(Label),
}

/// The name of the variant of a request: the empty name where the request
/// names no variant.
pub open spec fn variant_text(variant_name: Option<&str>) -> Seq<char> {
    match variant_name {
        Some(name) => name@,
        None => Seq::empty(),
    }
}

/// Sanitizes the names of a request: each under the path policy for the
/// directories, and each under the barcode policy for the token. A request
/// without a variant is treated as one whose variant has the empty name.
pub fn barcode_names(product_name: &str, variant_name: Option<&str>) -> (r: BarcodeNames)
    ensures
        r.product_dir@ == path_safe(product_name@),
        r.variant_dir@ == path_safe(variant_text(variant_name)),
        r.product_token@ == barcode_safe(product_name@),
        r.variant_token@ == barcode_safe(variant_text(variant_name)),
{
    let variant = match variant_name {
        Some(name) => name,
        None => {
            let empty = "";
            proof {
                reveal_strlit("");
                assert(empty@ =~= Seq::<char>::empty());
            }
            empty
        },
    };
    BarcodeNames {
        product_dir: sanitize_for_path(product_name),
        variant_dir: sanitize_for_path(variant),
        product_token: sanitize_for_barcode(product_name),
        variant_token: sanitize_for_barcode(variant),
    }
}

/// Answers a request whose names are sanitized and whose artifact path is
/// known: encodes the token, and returns the answer for the caller together
/// with the barcode that is still to be written to `file_path`.
///
/// A token that the encoder refuses gives the encoder's error, before
/// anything is rendered.
pub fn generate_barcode(names: &BarcodeNames, file_path: String) -> (r: Result<
    (GenerateBarcodeData, BarcodeManager),
    BarcodeError,
>)
    ensures
        match r {
            Ok((data, manager)) => {
                &&& accepted(barcode_token(names.product_token@, names.variant_token@))
                &&& patterns_known(barcode_token(names.product_token@, names.variant_token@))
                &&& manager.encoded@.len() == 13 * barcode_token(
                    names.product_token@,
                    names.variant_token@,
                ).len() + 25
                &&& is_module_train(manager.encoded@)
                &&& manager.product_name@ == names.product_token@
                &&& manager.product_handle@ == names.variant_token@
                &&& manager.encoded@ == module_train(
                    barcode_token(names.product_token@, names.variant_token@),
                )
                &&& data.file_path@ == file_path@
                &&& data.barcode.height == DOCUMENT_HEIGHT
                &&& data.barcode.xdim == DOCUMENT_XDIM
                &&& data.barcode.encoding@ == manager.encoded@
                &&& data.barcode_code@ == barcode_token(
                    names.product_token@,
                    names.variant_token@,
                )
            },
            Err(e) => {
                &&& !accepted(barcode_token(names.product_token@, names.variant_token@))
                &&& e == rejection(barcode_token(names.product_token@, names.variant_token@))
            },
        },
{
    let manager = match BarcodeManager::new(
        names.product_token.as_str(),
        names.variant_token.as_str(),
    ) {
        Ok(manager) => manager,
        Err(e) => {
            return Err(e);
        },
    };
    let barcode = match manager.to_json() {
        Ok(barcode) => barcode,
        Err(e) => {
            return Err(e);
        },
    };
    let mut barcode_code = String::from_str(names.product_token.as_str());
    barcode_code.append("-");
    barcode_code.append(names.variant_token.as_str());
    Ok((GenerateBarcodeData { file_path, barcode, barcode_code }, manager))
}

/// The name of the file that holds the artifact of a render target, if the
/// target is written to a file at all.
pub open spec fn artifact_name(target: RenderTarget) -> Option<Seq<char>> {
    match target {
        RenderTarget::Json => None,
        RenderTarget::Svg => Some("barcode.svg"@),
        RenderTarget::Png => Some("barcode.png"@),
        RenderTarget::PngWithCaption(_) => Some("barcode.png"@),
    }
}

/// The name of the file that holds the artifact of a render target.
pub fn artifact_file_name(target: &RenderTarget) -> (r: Option<String>)
    ensures
        match artifact_name(*target) {
            Some(name) => r matches Some(s) && s@ == name,
            None => r is None,
        },
{
    match target {
        RenderTarget::Json => None,
        RenderTarget::Svg => Some(String::from_str("barcode.svg")),
        RenderTarget::Png => Some(String::from_str("barcode.png")),
        RenderTarget::PngWithCaption(_) => Some(String::from_str("barcode.png")),
    }
}

/// Whether `r` is what rendering modules `encoded` for `target` may return.
pub open spec fn renders(encoded: Seq<u8>, target: RenderTarget, r: Result<
    Artifact,
    BarcodeError,
>) -> bool {
    match r {
        Ok(Artifact::Json(doc)) => {
            &&& target is Json
            &&& doc.height == DOCUMENT_HEIGHT
            &&& doc.xdim == DOCUMENT_XDIM
            &&& doc.encoding@ == encoded
        },
        Ok(Artifact::Svg(s)) => target is Svg && s@ == svg_text(encoded, BARCODE_HEIGHT as nat, 1),
        Ok(Artifact::Png(bytes)) => target is Png && png_image(BARCODE_HEIGHT, encoded) == Some(
            bytes@,
        ),
        Ok(Artifact::Label(label)) => {
            &&& target matches RenderTarget::PngWithCaption(caption)
            &&& is_label_of(label.canvas@, encoded, 0, label_height(1) as int)
            &&& label.captions@.len() == 1
            &&& is_centered(
                label.captions@[0],
                caption@,
                encoded.len(),
                BARCODE_HEIGHT + TEXT_PADDING,
            )
        },
        Err(e) => e == BarcodeError::Format,
    }
}

/// Whether modules `encoded` can be rendered for `target`: they have the
/// shape of a train and, for the bare raster image, the PNG generator gives
/// bytes for them.
pub open spec fn can_render(encoded: Seq<u8>, target: RenderTarget) -> bool {
    &&& is_module_train(encoded)
    &&& target is Png ==> png_image(BARCODE_HEIGHT, encoded) is Some
}

/// Renders a barcode for a target, by the renderer that the target names.
///
/// The format error comes if and only if the modules cannot be rendered for
/// the target.
pub fn render(manager: &BarcodeManager, target: &RenderTarget) -> (r: Result<
    Artifact,
    BarcodeError,
>)
    ensures
        renders(manager.encoded@, *target, r),
        r is Ok <==> can_render(manager.encoded@, *target),
{
    match target {
        RenderTarget::Json => match manager.to_json() {
            Ok(doc) => Ok(Artifact::Json(doc)),
            Err(e) => Err(e),
        },
        RenderTarget::Svg => match manager.to_svg() {
            Ok(s) => Ok(Artifact::Svg(s)),
            Err(e) => Err(e),
        },
        RenderTarget::Png => match manager.to_png() {
            Ok(bytes) => Ok(Artifact::Png(bytes)),
            Err(e) => Err(e),
        },
        RenderTarget::PngWithCaption(caption) => {
            let train = match manager.train() {
                Ok(train) => train,
                Err(e) => {
                    return Err(e);
                },
            };
            match captioned_label(&train, caption.as_str()) {
                Ok(label) => Ok(Artifact::Label(label)),
                Err(e) => Err(e),
            }
        },
    }
}

} // verus!
