//! What a summary of a run shows, and the names of the files that take the
//! results.
//!
//! A summary previews a sequence by its first ten values and, where there
//! are more than ten, its last ten. The magnitude spectrum and the full
//! spectrum go to two files named after the input file's stem.

use vstd::prelude::*;
use vstd::string::StringExecFns;

verus! {

/// How many values a preview shows from either end.
pub const PREVIEW: usize = 10;

/// The name of the file that takes the magnitude spectrum of an input whose
/// file name has the stem `stem`, or has none.
pub open spec fn magnitude_name(stem: Option<Seq<char>>) -> Seq<char> {
    match stem {
        Some(stem) => stem + "_fft.txt"@,
        None => "fft_output.txt"@,
    }
}

/// The name of the file that takes the full spectrum of an input whose file
/// name has the stem `stem`, or has none.
pub open spec fn spectrum_name(stem: Option<Seq<char>>) -> Seq<char> {
    match stem {
        Some(stem) => stem + "_fft_full.txt"@,
        None => "fft_output_full.txt"@,
    }
}

/// The start of a preview: the first ten values, or all where there are
/// fewer.
pub fn first_values<T>(values: &[T]) -> (shown: &[T])
    ensures
        shown@ == values@.take(
            if values.len() < PREVIEW {
                values.len() as int
            } else {
                PREVIEW as int
            },
        ),
{
    if values.len() < PREVIEW {
        values
    } else {
        &values[0..PREVIEW]
    }
}

/// The end of a preview: the last ten values, shown only where there are
/// more than ten.
pub fn last_values<T>(values: &[T]) -> (shown: Option<&[T]>)
    ensures
        shown is Some <==> values.len() > PREVIEW,
        shown matches Some(last) ==> last@ == values@.skip(values.len() - PREVIEW),
{
    if values.len() > PREVIEW {
        Some(&values[values.len() - PREVIEW..values.len()])
    } else {
        None
    }
}

/// The name of the file for the magnitude spectrum: the stem followed by
/// `_fft.txt`, or `fft_output.txt` where the input's name has no stem.
pub fn magnitude_file_name(stem: Option<&str>) -> (name: String)
    ensures
        name@ == magnitude_name(
            match stem {
                Some(stem) => Some(stem@),
                None => None,
            },
        ),
{
    match stem {
        Some(stem) => stem.to_owned().concat("_fft.txt"),
        None => "fft_output.txt".to_owned(),
    }
}

/// The name of the file for the full spectrum: the stem followed by
/// `_fft_full.txt`, or `fft_output_full.txt` where the input's name has no
/// stem.
pub fn spectrum_file_name(stem: Option<&str>) -> (name: String)
    ensures
        name@ == spectrum_name(
            match stem {
                Some(stem) => Some(stem@),
                None => None,
            },
        ),
{
    match stem {
        Some(stem) => stem.to_owned().concat("_fft_full.txt"),
        None => "fft_output_full.txt".to_owned(),
    }
}

} // verus!
