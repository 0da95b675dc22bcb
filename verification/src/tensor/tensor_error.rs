//! The text of an error.

use super::{decimal_text, Error};
use super::tensor_numeric::render_decimal;
use vstd::prelude::*;
use vstd::std_specs::convert::FromSpecImpl;
use vstd::string::StringExecFns;

verus! {

/// The first `n` numbers of a list in decimal, separated by a comma and a
/// space.
pub open spec fn numbers_text(list: Seq<usize>, n: int) -> Seq<char>
    decreases n,
{
    if n <= 0 {
        Seq::empty()
    } else if n == 1 {
        decimal_text(list[0] as int)
    } else {
        numbers_text(list, n - 1) + ", "@ + decimal_text(list[n - 1] as int)
    }
}

/// A list of numbers as the debug formatter writes it: `[2, 3, 4]`.
pub open spec fn list_text(list: Seq<usize>) -> Seq<char> {
    "["@ + numbers_text(list, list.len() as int) + "]"@
}

/// A number in decimal.
fn number(n: usize) -> (text: String)
    ensures
        text@ == decimal_text(n as int),
{
    render_decimal(n as i128)
}

/// Appends a list of numbers, in brackets and separated by a comma and a
/// space.
fn append_list(text: &mut String, list: &Vec<usize>)
    ensures
        final(text)@ == old(text)@ + list_text(list@),
{
    let ghost before = text@;
    text.append("[");
    let mut i: usize = 0;
    while i < list.len()
        invariant
            i <= list@.len(),
            text@ == before + "["@ + numbers_text(list@, i as int),
        decreases list@.len() - i,
    {
        if i > 0 {
            text.append(", ");
        }
        let item = number(list[i]);
        text.append(item.as_str());
        i += 1;
        assert(text@ =~= before + "["@ + numbers_text(list@, i as int));
    }
    text.append("]");
    assert(text@ =~= before + list_text(list@));
}

/// `std::io::Error`, a failure of the operating system.
#[verifier::external_type_specification]
#[verifier::external_body]
pub struct ExIoError(std::io::Error);

/// `ToString::to_string` on a `std::io::Error`: the text that the standard
/// library and the operating system give for the failure.
#[verifier::external_body]
fn io_error_text(err: &std::io::Error) -> (text: String) {
    err.to_string()
}

impl From<std::io::Error> for Error {
    /// The generic error that carries the text of a failure of the
    /// operating system.
    fn from(err: std::io::Error) -> (r: Self)
        ensures
            r is Error,
    {
        Error::Error { err_msg: io_error_text(&err) }
    }
}

impl FromSpecImpl<std::io::Error> for Error {
    open spec fn obeys_from_spec() -> bool {
        false
    }

    open spec fn from_spec(err: std::io::Error) -> Self {
        arbitrary()
    }
}

impl Error {
    /// The text of the error: what failed, and the values that it failed
    /// on.
    pub open spec fn message(&self) -> Seq<char> {
        match self {
            Error::InvalidAxis { axis, ndim } => "Invalid axis [ AXIS: "@ + decimal_text(
                *axis as int,
            ) + " | NDIM: "@ + decimal_text(*ndim as int) + " ]"@,
            Error::ShapeMismatch { shape_a, shape_b } => "Shape mismatch [ SHAPE(A): "@
                + list_text(shape_a@) + " | SHAPE(B): "@ + list_text(shape_b@) + " ]"@,
            Error::DimensionMismatch { tensor_dim, dim } =>
                "Dimension mismatch [ TENSOR_DIMENSION: "@ + decimal_text(*tensor_dim as int)
                    + " | DIMENSION: "@ + decimal_text(*dim as int) + " ]"@,
            Error::ShapeMismatchBroadcast { shape_a, shape_b } =>
                "The two shapes are not compatible for broadcasting [ SHAPE(A): "@ + list_text(
                    shape_a@,
                ) + " | SHAPE(B): "@ + list_text(shape_b@) + " ]"@,
            Error::InvalidSlicing { slice, shape } => "Invalid slicing [ SLICE: "@ + list_text(
                slice@,
            ) + " | SHAPE: "@ + list_text(shape@) + " ]"@,
            Error::IndexOutOfRange { index, nelems } => "Index out of range [ INDEX: "@
                + decimal_text(*index as int) + " | NUM_ELEMENTS: "@ + decimal_text(
                *nelems as int,
            ) + " ]"@,
            Error::InvalidParam { err_msg } => "Invalid parameter [ DESC: "@ + err_msg@ + " ]"@,
            Error::InvalidFileContents { err_msg } => "Error [ ERR_MSG: "@ + err_msg@ + " ]"@,
            Error::Error { err_msg } => "Error [ ERR_MSG: "@ + err_msg@ + " ]"@,
        }
    }

    /// The text of the error.
    pub fn to_string(&self) -> (text: String)
        ensures
            text@ == self.message(),
    {
        match self {
            Error::InvalidAxis { axis, ndim } => {
                let mut text = String::from_str("Invalid axis [ AXIS: ");
                text.append(number(*axis).as_str());
                text.append(" | NDIM: ");
                text.append(number(*ndim).as_str());
                text.append(" ]");
                text
            },
            Error::ShapeMismatch { shape_a, shape_b } => {
                let mut text = String::from_str("Shape mismatch [ SHAPE(A): ");
                append_list(&mut text, shape_a);
                text.append(" | SHAPE(B): ");
                append_list(&mut text, shape_b);
                text.append(" ]");
                text
            },
            Error::DimensionMismatch { tensor_dim, dim } => {
                let mut text = String::from_str("Dimension mismatch [ TENSOR_DIMENSION: ");
                text.append(number(*tensor_dim).as_str());
                text.append(" | DIMENSION: ");
                text.append(number(*dim).as_str());
                text.append(" ]");
                text
            },
            Error::ShapeMismatchBroadcast { shape_a, shape_b } => {
                let mut text = String::from_str(
                    "The two shapes are not compatible for broadcasting [ SHAPE(A): ",
                );
                append_list(&mut text, shape_a);
                text.append(" | SHAPE(B): ");
                append_list(&mut text, shape_b);
                text.append(" ]");
                text
            },
            Error::InvalidSlicing { slice, shape } => {
                let mut text = String::from_str("Invalid slicing [ SLICE: ");
                append_list(&mut text, slice);
                text.append(" | SHAPE: ");
                append_list(&mut text, shape);
                text.append(" ]");
                text
            },
            Error::IndexOutOfRange { index, nelems } => {
                let mut text = String::from_str("Index out of range [ INDEX: ");
                text.append(number(*index).as_str());
                text.append(" | NUM_ELEMENTS: ");
                text.append(number(*nelems).as_str());
                text.append(" ]");
                text
            },
            Error::InvalidParam { err_msg } => {
                let mut text = String::from_str("Invalid parameter [ DESC: ");
                text.append(err_msg.as_str());
                text.append(" ]");
                text
            },
            Error::InvalidFileContents { err_msg } => {
                let mut text = String::from_str("Error [ ERR_MSG: ");
                text.append(err_msg.as_str());
                text.append(" ]");
                text
            },
            Error::Error { err_msg } => {
                let mut text = String::from_str("Error [ ERR_MSG: ");
                text.append(err_msg.as_str());
                text.append(" ]");
                text
            },
        }
    }
}

} // verus!
