//! QR codes for the terminal.

use vstd::prelude::*;

pub use crate::items::function::Function;

verus! {

/// Why no QR code could be made.
#[derive(Debug, Clone, Copy, PartialEq, Eq, Structural)]
pub enum QrFailure {
    /// The data does not fit into the largest code.
    DataTooLong,
    /// Version and error correction level do not go together.
    InvalidVersion,
    /// The data holds characters that the code cannot hold.
    UnsupportedCharacterSet,
    /// The designator of the character set is out of range.
    InvalidEciDesignator,
    /// A character outside the character set was found.
    InvalidCharacter,
}

/// What a failure is called.
pub open spec fn failure_text(f: QrFailure) -> Seq<char> {
    match f {
        QrFailure::DataTooLong => "data too long"@,
        QrFailure::InvalidVersion => "invalid version"@,
        QrFailure::UnsupportedCharacterSet => "unsupported character set"@,
        QrFailure::InvalidEciDesignator => "invalid ECI designator"@,
        QrFailure::InvalidCharacter => "invalid character"@,
    }
}

impl QrFailure {
    /// The failure in words.
    pub fn message(&self) -> (r: String)
        ensures
            r@ == failure_text(*self),
    {
        match self {
            QrFailure::DataTooLong => String::from_str("data too long"),
            QrFailure::InvalidVersion => String::from_str("invalid version"),
            QrFailure::UnsupportedCharacterSet => String::from_str("unsupported character set"),
            QrFailure::InvalidEciDesignator => String::from_str("invalid ECI designator"),
            QrFailure::InvalidCharacter => String::from_str("invalid character"),
        }
    }
}

/// The picture of the QR code for `data`, drawn with half-block characters,
/// or why `data` has no QR code.
pub uninterp spec fn qr_picture(data: Seq<char>) -> Result<Seq<char>, QrFailure>;

/// What making a QR code gave, as plain text.
pub open spec fn qr_outcome(r: Result<String, QrFailure>) -> Result<Seq<char>, QrFailure> {
    match r {
        Ok(t) => Ok(t@),
        Err(e) => Err(e),
    }
}

/// `qrcode::QrCode::new` on the bytes of `data`, and the code it gives
/// rendered by `qrcode::render::Renderer::build` with the pixel type
/// `Dense1x2` and modules two wide and one high.
///
/// The code has the medium error correction level and the smallest version
/// that holds the data. Code and picture, and the failure where there is
/// one, depend on the data alone.
#[verifier::external_body]
fn qr_render(data: &str) -> (r: Result<String, QrFailure>)
    ensures
        qr_outcome(r) == qr_picture(data@),
{
    match qrcode::QrCode::new(data) {
        Ok(c) => Ok(c.render::<qrcode::render::unicode::Dense1x2>().module_dimensions(2, 1).build()),
        Err(qrcode::types::QrError::DataTooLong) => Err(QrFailure::DataTooLong),
        Err(qrcode::types::QrError::InvalidVersion) => Err(QrFailure::InvalidVersion),
        Err(qrcode::types::QrError::UnsupportedCharacterSet) => Err(
            QrFailure::UnsupportedCharacterSet,
        ),
        Err(qrcode::types::QrError::InvalidEciDesignator) => Err(QrFailure::InvalidEciDesignator),
        Err(qrcode::types::QrError::InvalidCharacter) => Err(QrFailure::InvalidCharacter),
    }
}

/// The picture of the QR code for `web_address`, to be printed on a terminal.
/// It fails exactly where the address has no QR code, and then says why.
pub fn return_qrcode(web_address: &str) -> (r: Result<String, QrFailure>)
    ensures
        qr_outcome(r) == qr_picture(web_address@),
{
    qr_render(web_address)
}

} // verus!
