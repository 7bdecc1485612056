//! The QR code that leads a phone to the jukebox's address.

use vstd::prelude::*;

use qrcode::types::QrError;
use vstd::string::StringSliceAdditionalSpecFns;

verus! {

#[verifier::external_type_specification]
#[verifier::external_body]
pub struct ExQrError(QrError);

/// A grey-scale image, one byte per pixel, row by row.
pub struct QrImage {
    pub width: u32,
    pub height: u32,
    pub luma: Vec<u8>,
}

/// The grey-scale picture that the `qrcode` crate draws for `data`, with
/// its default settings (medium error correction, smallest version, quiet
/// zone), or `None` where the data cannot be encoded.
pub uninterp spec fn qr_luma_render(data: Seq<u8>) -> Option<(u32, u32, Seq<u8>)>;

/// Trusted: `qrcode::QrCode::new` on `data`, then `QrCode::render` to
/// `image::Luma<u8>` pixels and `Renderer::build`; the image is handed back
/// as its width, height and raw pixel bytes. The contract names the
/// picture and claims that encoding fails exactly where `qr_luma_render`
/// is `None`.
#[verifier::external_body]
fn render_qr(data: &[u8]) -> (r: Result<QrImage, QrError>)
    ensures
        match r {
            Ok(img) => qr_luma_render(data@) == Some((img.width, img.height, img.luma@)),
            Err(_) => qr_luma_render(data@) is None,
        },
{
    let code = qrcode::QrCode::new(data)?;
    let image = code.render::<image::Luma<u8>>().build();
    Ok(QrImage { width: image.width(), height: image.height(), luma: image.into_raw() })
}

/// The PNG file that the `image` crate writes for a grey-scale picture of
/// `width` by `height` pixels given row by row in `luma`, or `None` where
/// the pixels do not fill that size or the encoder refuses the picture.
pub uninterp spec fn png_luma_encoding(width: u32, height: u32, luma: Seq<u8>) -> Option<Seq<u8>>;

/// Trusted: `image::ImageBuffer::<Luma<u8>, Vec<u8>>::from_raw` on the
/// picture, then `ImageBuffer::write_to` an in-memory `Cursor` as
/// `ImageFormat::Png`; the bytes written are handed back. The contract names
/// the file and claims that it is absent exactly where
/// `png_luma_encoding` is `None`.
#[verifier::external_body]
fn encode_png(img: QrImage) -> (r: Option<Vec<u8>>)
    ensures
        r matches Some(b) ==> png_luma_encoding(img.width, img.height, img.luma@) == Some(b@),
        r is None ==> png_luma_encoding(img.width, img.height, img.luma@) is None,
{
    let buffer: image::ImageBuffer<image::Luma<u8>, Vec<u8>> = image::ImageBuffer::from_raw(
        img.width,
        img.height,
        img.luma,
    )?;
    let mut out = std::io::Cursor::new(Vec::new());
    buffer.write_to(&mut out, image::ImageFormat::Png).ok()?;
    Some(out.into_inner())
}

/// Why no QR code was drawn.
#[derive(Debug, Clone, Copy, PartialEq, Eq, Structural)]
pub enum QrCodeError {
    /// The address does not fit in a QR code.
    Encoding,
    /// The picture could not be written as a PNG file.
    Image,
}

/// Draws the QR code of an address such as `192.168.1.20:80`.
pub fn create_qr_code(address: &str) -> (r: Result<QrImage, QrCodeError>)
    ensures
        match r {
            Ok(img) => qr_luma_render(address.spec_bytes()) == Some(
                (img.width, img.height, img.luma@),
            ),
            Err(e) => qr_luma_render(address.spec_bytes()) is None && e == QrCodeError::Encoding,
        },
{
    let bytes = address.as_bytes();
    match render_qr(bytes) {
        Ok(img) => Ok(img),
        Err(_) => Err(QrCodeError::Encoding),
    }
}

/// Draws the QR code of an address and writes it as a PNG file, given as
/// its bytes.
pub fn create_qr_png(address: &str) -> (r: Result<Vec<u8>, QrCodeError>)
    ensures
        match qr_luma_render(address.spec_bytes()) {
            None => r == Err::<Vec<u8>, QrCodeError>(QrCodeError::Encoding),
            Some((w, h, l)) => match png_luma_encoding(w, h, l) {
                Some(b) => r matches Ok(v) && v@ == b,
                None => r == Err::<Vec<u8>, QrCodeError>(QrCodeError::Image),
            },
        },
{
    let img = create_qr_code(address)?;
    match encode_png(img) {
        Some(png) => Ok(png),
        None => Err(QrCodeError::Image),
    }
}

} // verus!
