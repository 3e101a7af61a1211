//! From what each line gave to the sample sequence.
//!
//! Reading a number from a line is the caller's business. This module takes
//! the outcome for every line that held something and keeps the values, in
//! line order; the lines that gave none are reported by number and never
//! stop the others from counting.

use crate::text::{data_lines, is_whitespace, lemma_blank_text_has_no_data, LineView};
use vstd::prelude::*;

verus! {

/// What reading one line gave: the line's number, and the value read from
/// it, or `None` where the line does not hold a number.
#[derive(Copy, Debug, PartialEq)]
pub struct Reading<T> {
    pub line: usize,
    pub value: Option<T>,
}

impl<T: Copy> Clone for Reading<T> {
    fn clone(&self) -> (copy: Self)
        ensures
            copy == *self,
    {
        Reading { line: self.line, value: self.value }
    }
}

/// The outcome of reading a whole text.
#[derive(Debug, PartialEq)]
pub struct Report<T> {
    /// The values read, in line order.
    pub samples: Vec<T>,
    /// The numbers of the lines that held something other than a number, in
    /// line order.
    pub rejected: Vec<usize>,
}

/// Why a text cannot serve as input.
#[derive(Clone, Copy, Debug, PartialEq, Eq)]
pub enum InputError {
    /// No line of the text holds a number.
    NoValidData,
}

/// The values among `readings`, in order.
pub open spec fn accepted<T>(readings: Seq<Reading<T>>) -> Seq<T> {
    readings.filter_map(|reading: Reading<T>| reading.value)
}

/// The line numbers of those `readings` that hold no value, in order.
pub open spec fn rejected<T>(readings: Seq<Reading<T>>) -> Seq<usize> {
    readings.filter_map(
        |reading: Reading<T>|
            if reading.value is None {
                Some(reading.line)
            } else {
                None
            },
    )
}

/// Whether `readings` are what reading `lines` gave: one reading for each
/// line, in order and under the line's number.
pub open spec fn read_from<T>(readings: Seq<Reading<T>>, lines: Seq<LineView>) -> bool {
    &&& readings.len() == lines.len()
    &&& forall|i: int| 0 <= i < readings.len() ==> (#[trigger] readings[i]).line == lines[i].number
}

/// Gathers the values that were read, in line order, and the numbers of the
/// lines that gave none.
pub fn gather<T: Copy>(readings: &[Reading<T>]) -> (report: Report<T>)
    ensures
        report.samples@ == accepted(readings@),
        report.rejected@ == rejected(readings@),
{
    let mut samples: Vec<T> = Vec::new();
    let mut rejected_lines: Vec<usize> = Vec::new();
    let mut i: usize = 0;
    while i < readings.len()
        invariant
            i <= readings.len(),
            samples@ == accepted(readings@.take(i as int)),
            rejected_lines@ == rejected(readings@.take(i as int)),
        decreases readings.len() - i,
    {
        proof {
            readings@.lemma_filter_map_take_succ(|reading: Reading<T>| reading.value, i as int);
            readings@.lemma_filter_map_take_succ(
                |reading: Reading<T>|
                    if reading.value is None {
                        Some(reading.line)
                    } else {
                        None
                    },
                i as int,
            );
        }
        match readings[i].value {
            Some(value) => {
                samples.push(value);
            },
            None => {
                rejected_lines.push(readings[i].line);
            },
        }
        i = i + 1;
    }
    assert(readings@.take(i as int) == readings@);
    Report { samples, rejected: rejected_lines }
}

/// Refuses an empty sample sequence: a text with no number in it is no
/// input. Anything else passes through unchanged.
pub fn require_samples<T>(samples: Vec<T>) -> (checked: Result<Vec<T>, InputError>)
    ensures
        samples.len() == 0 <==> checked == Err::<Vec<T>, InputError>(InputError::NoValidData),
        samples.len() > 0 <==> checked == Ok::<Vec<T>, InputError>(samples),
{
    if samples.len() == 0 {
        Err(InputError::NoValidData)
    } else {
        Ok(samples)
    }
}

impl InputError {
    /// The error in words.
    pub fn message(&self) -> (text: String)
        ensures
            text@ == "File contains no valid data points"@,
    {
        "File contains no valid data points".to_owned()
    }
}

/// Every reading counts once: it gives a sample or it is reported, so the
/// samples and the rejected lines together are as many as the readings.
pub proof fn lemma_every_reading_counts<T>(readings: Seq<Reading<T>>)
    ensures
        accepted(readings).len() + rejected(readings).len() == readings.len(),
    decreases readings.len(),
{
    if readings.len() > 0 {
        lemma_every_reading_counts(readings.drop_last());
    }
}

/// A text of whitespace alone, the empty text among them, gives no sample
/// and no rejected line, whatever reads its lines.
pub proof fn lemma_blank_text_gives_nothing<T>(text: Seq<char>, readings: Seq<Reading<T>>)
    requires
        forall|i: int| 0 <= i < text.len() ==> is_whitespace(text[i]),
        read_from(readings, data_lines(text)),
    ensures
        accepted(readings) == Seq::<T>::empty(),
        rejected(readings) == Seq::<usize>::empty(),
{
    lemma_blank_text_has_no_data(text);
}

} // verus!
