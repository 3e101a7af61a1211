//! The complex buffer of a transform and its flat, interleaved layout.
//!
//! A spectrum is computed in three steps. [`prepare`] turns the samples into
//! the complex buffer of the forward transform; the caller runs the transform
//! on that buffer, in place; [`interleave`] lays the result out flat, as
//! `re, im, re, im, ...`, and [`pair_up`] reads such a layout back, for
//! whoever wants the magnitude of each bin. The transform is unscaled and
//! keeps the buffer's length, so `n` samples give `n` bins and `2 * n` flat
//! values.
//!
//! An empty input has an empty spectrum; no transform is run for it.

use vstd::prelude::*;

verus! {

/// A complex value, held as its real and imaginary part.
#[derive(Copy, Debug, PartialEq)]
pub struct Complex<T> {
    pub re: T,
    pub im: T,
}

impl<T: Copy> Clone for Complex<T> {
    fn clone(&self) -> (copy: Self)
        ensures
            copy == *self,
    {
        Complex { re: self.re, im: self.im }
    }
}

/// The samples as complex values: sample `t` becomes the real part of
/// element `t`, and every imaginary part is `zero`.
pub open spec fn promoted<T>(samples: Seq<T>, zero: T) -> Seq<Complex<T>> {
    Seq::new(samples.len(), |t: int| Complex { re: samples[t], im: zero })
}

/// The flat layout of a complex sequence: `re0, im0, re1, im1, ...`.
pub open spec fn interleaved<T>(bins: Seq<Complex<T>>) -> Seq<T> {
    Seq::new(
        2 * bins.len(),
        |i: int|
            if i % 2 == 0 {
                bins[i / 2].re
            } else {
                bins[i / 2].im
            },
    )
}

/// The complex sequence that a flat layout of even length stands for.
pub open spec fn paired<T>(flat: Seq<T>) -> Seq<Complex<T>> {
    Seq::new(flat.len() / 2, |k: int| Complex { re: flat[2 * k], im: flat[2 * k + 1] })
}

/// What is left to do for the spectrum of some samples.
#[derive(Debug, PartialEq)]
pub enum Step<T> {
    /// There were no samples: the spectrum is empty, and there is nothing to
    /// transform.
    Empty,
    /// Run the forward transform over this buffer, in place.
    Transform(Vec<Complex<T>>),
}

/// Promotes real samples to complex values whose imaginary part is `zero`.
pub fn promote<T: Copy>(samples: &[T], zero: T) -> (buffer: Vec<Complex<T>>)
    ensures
        buffer@ == promoted(samples@, zero),
        buffer.len() == samples.len(),
{
    let mut buffer: Vec<Complex<T>> = Vec::with_capacity(samples.len());
    let mut t: usize = 0;
    while t < samples.len()
        invariant
            t <= samples.len(),
            buffer@ == promoted(samples@.take(t as int), zero),
        decreases samples.len() - t,
    {
        buffer.push(Complex { re: samples[t], im: zero });
        t = t + 1;
    }
    assert(samples@.take(t as int) == samples@);
    buffer
}

/// The first step towards the spectrum of `samples`: the buffer to
/// transform, which holds the samples as complex values with the imaginary
/// part `zero`, or `Empty` where there is no sample.
pub fn prepare<T: Copy>(samples: &[T], zero: T) -> (step: Step<T>)
    ensures
        samples.len() == 0 <==> step is Empty,
        step matches Step::Transform(buffer) ==> buffer@ == promoted(samples@, zero)
            && buffer.len() == samples.len(),
{
    if samples.len() == 0 {
        Step::Empty
    } else {
        Step::Transform(promote(samples, zero))
    }
}

/// Lays a complex sequence out flat, real part before imaginary part.
pub fn interleave<T: Copy>(bins: &[Complex<T>]) -> (flat: Vec<T>)
    ensures
        flat@ == interleaved(bins@),
        flat.len() == 2 * bins.len(),
{
    let mut flat: Vec<T> = Vec::new();
    let mut k: usize = 0;
    while k < bins.len()
        invariant
            k <= bins.len(),
            flat@ == interleaved(bins@.take(k as int)),
        decreases bins.len() - k,
    {
        flat.push(bins[k].re);
        flat.push(bins[k].im);
        k = k + 1;
    }
    assert(bins@.take(k as int) == bins@);
    flat
}

/// Reads a flat layout back into complex values. An odd number of values is
/// no layout of a complex sequence and gives `None`.
pub fn pair_up<T: Copy>(flat: &[T]) -> (bins: Option<Vec<Complex<T>>>)
    ensures
        bins is Some <==> flat.len() % 2 == 0,
        bins matches Some(b) ==> b@ == paired(flat@),
{
    if flat.len() % 2 != 0 {
        return None;
    }
    let mut bins: Vec<Complex<T>> = Vec::new();
    let mut k: usize = 0;
    while k < flat.len() / 2
        invariant
            flat.len() % 2 == 0,
            k <= flat.len() / 2,
            bins@ == paired(flat@.take(2 * k)),
        decreases flat.len() / 2 - k,
    {
        bins.push(Complex { re: flat[2 * k], im: flat[2 * k + 1] });
        k = k + 1;
    }
    assert(flat@.take(2 * k) == flat@);
    Some(bins)
}

/// Laying a complex sequence out flat and reading it back gives the same
/// sequence: no bin is lost, added or moved.
pub proof fn lemma_paired_interleaved<T>(bins: Seq<Complex<T>>)
    ensures
        paired(interleaved(bins)) == bins,
        interleaved(bins).len() == 2 * bins.len(),
{
}

/// Reading a flat layout of even length and laying it out again gives the
/// same values.
pub proof fn lemma_interleaved_paired<T>(flat: Seq<T>)
    requires
        flat.len() % 2 == 0,
    ensures
        interleaved(paired(flat)) == flat,
        2 * paired(flat).len() == flat.len(),
{
}

/// A spectrum has one bin for each sample. The buffer handed to the
/// transform is as long as the input, so whatever `bins` a transform that
/// keeps the buffer's length leaves there, they are as many as the samples,
/// their flat layout is twice as long, and reading it back gives as many.
pub proof fn lemma_one_bin_per_sample<T>(samples: Seq<T>, zero: T, bins: Seq<Complex<T>>)
    requires
        bins.len() == promoted(samples, zero).len(),
    ensures
        bins.len() == samples.len(),
        interleaved(bins).len() == 2 * samples.len(),
        paired(interleaved(bins)).len() == samples.len(),
{
}

} // verus!
