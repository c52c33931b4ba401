//! The ways in which building a container fails.

use image::ImageError;
use vstd::prelude::*;
use vstd::string::StringExecFns;

verus! {

/// The error type of the image codec. Its values are carried, never inspected.
#[verifier::external_type_specification]
#[verifier::external_body]
pub struct ExImageError(ImageError);

/// Why a container could not be built. Every failure ends the whole build.
#[derive(Debug)]
#[non_exhaustive]
pub enum Error {
    /// The codec could not compress a frame, or refuses its measures.
    Image(ImageError),
    /// The codec could not decode the source under this path.
    Decode { path: String, error: ImageError },
    /// No source is at least as wide as the requested size.
    MissingIconSize(u32),
    /// A decoded source is not a square.
    NonSquareImage { path: String, width: u32, height: u32 },
    /// The container would hold more than 65535 frames, or more bytes than a
    /// 4-byte offset can address.
    ContainerTooLarge,
}

/// The character of a decimal digit.
pub open spec fn digit(d: nat) -> char {
    if d == 0 {
        '0'
    } else if d == 1 {
        '1'
    } else if d == 2 {
        '2'
    } else if d == 3 {
        '3'
    } else if d == 4 {
        '4'
    } else if d == 5 {
        '5'
    } else if d == 6 {
        '6'
    } else if d == 7 {
        '7'
    } else if d == 8 {
        '8'
    } else {
        '9'
    }
}

/// A number in decimal digits, without leading zeros.
pub open spec fn decimal(n: nat) -> Seq<char>
    decreases n,
{
    if n < 10 {
        seq![digit(n)]
    } else {
        decimal(n / 10).push(digit(n % 10))
    }
}

/// What [`Error::message`] says of an error; `None` for the codec's own
/// errors, of which the codec speaks.
pub open spec fn message_of(e: Error) -> Option<Seq<char>> {
    match e {
        Error::Image(_) => None,
        Error::Decode { .. } => None,
        Error::MissingIconSize(size) => Some(
            "No icon in the sources is >= "@ + decimal(size as nat) + "px"@,
        ),
        Error::NonSquareImage { path, width, height } => Some(
            "Image "@ + path@ + " ("@ + decimal(width as nat) + " × "@ + decimal(height as nat)
                + ") is not a square"@,
        ),
        Error::ContainerTooLarge => Some("The icons do not fit into one container"@),
    }
}

/// The digit as a string.
fn digit_str(d: u32) -> (r: &'static str)
    requires
        d < 10,
    ensures
        r@ == seq![digit(d as nat)],
{
    proof {
        reveal_strlit("0");
        reveal_strlit("1");
        reveal_strlit("2");
        reveal_strlit("3");
        reveal_strlit("4");
        reveal_strlit("5");
        reveal_strlit("6");
        reveal_strlit("7");
        reveal_strlit("8");
        reveal_strlit("9");
    }
    let r = if d == 0 {
        "0"
    } else if d == 1 {
        "1"
    } else if d == 2 {
        "2"
    } else if d == 3 {
        "3"
    } else if d == 4 {
        "4"
    } else if d == 5 {
        "5"
    } else if d == 6 {
        "6"
    } else if d == 7 {
        "7"
    } else if d == 8 {
        "8"
    } else {
        "9"
    };
    assert(r@ =~= seq![digit(d as nat)]);
    r
}

/// Appends a number in decimal digits.
fn append_decimal(out: &mut String, n: u32)
    ensures
        final(out)@ == old(out)@ + decimal(n as nat),
    decreases n,
{
    if n >= 10 {
        append_decimal(out, n / 10);
    }
    out.append(digit_str(n % 10));
    assert(final(out)@ =~= old(out)@ + decimal(n as nat));
}

/// What the codec says of its error, by its `Display`. Nothing is claimed of
/// the text.
#[verifier::external_body]
fn image_error_message(e: &ImageError) -> String {
    e.to_string()
}

impl Error {
    /// What went wrong, in words. For the codec's own error these are the
    /// codec's words; for every other they are [`message_of`] the error.
    pub fn message(&self) -> (r: String)
        ensures
            message_of(*self) matches Some(text) ==> r@ == text,
    {
        match self {
            Error::Image(e) => image_error_message(e),
            Error::Decode { path: _, error } => image_error_message(error),
            Error::MissingIconSize(size) => {
                let mut text = String::from_str("No icon in the sources is >= ");
                append_decimal(&mut text, *size);
                text.append("px");
                text
            },
            Error::NonSquareImage { path, width, height } => {
                let mut text = String::from_str("Image ");
                text.append(path.as_str());
                text.append(" (");
                append_decimal(&mut text, *width);
                text.append(" × ");
                append_decimal(&mut text, *height);
                text.append(") is not a square");
                text
            },
            Error::ContainerTooLarge => String::from_str("The icons do not fit into one container"),
        }
    }
}

impl From<ImageError> for Error {
    fn from(source: ImageError) -> (r: Error) {
        Error::Image(source)
    }
}

impl vstd::std_specs::convert::FromSpecImpl<ImageError> for Error {
    open spec fn obeys_from_spec() -> bool {
        true
    }

    open spec fn from_spec(source: ImageError) -> Error {
        Error::Image(source)
    }
}

} // verus!
