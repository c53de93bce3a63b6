//! The evaluator's fixed configuration.
use crate::error::Error;
use vstd::prelude::*;

verus! {

/// What an evaluator is made of, as mathematical values.
pub struct Configuration {
    pub width: nat,
    pub height: nat,
    pub iterations: nat,
    /// The escape threshold, a binary64 bit pattern.
    pub threshold: u64,
    pub palette: Seq<u32>,
}

impl Configuration {
    /// The grid has at least one pixel each way, the budget at least one
    /// iteration, and the palette an entry for every point value below the
    /// budget. The three counts fit in 32 bits.
    pub open spec fn wf(&self) -> bool {
        &&& 1 <= self.width <= u32::MAX
        &&& 1 <= self.height <= u32::MAX
        &&& 1 <= self.iterations <= u32::MAX
        &&& self.palette.len() >= self.iterations
    }

    /// The number of pixels of the grid.
    pub open spec fn pixels(&self) -> nat {
        self.width * self.height
    }
}

/// Grid dimensions, iteration budget, escape threshold and palette of one
/// evaluator. A value of this type is always well formed.
pub struct Mandelbrot {
    width: u32,
    height: u32,
    iterations: u32,
    threshold: u64,
    colors: Vec<u32>,
}

impl View for Mandelbrot {
    type V = Configuration;

    closed spec fn view(&self) -> Configuration {
        Configuration {
            width: self.width as nat,
            height: self.height as nat,
            iterations: self.iterations as nat,
            threshold: self.threshold,
            palette: self.colors@,
        }
    }
}

impl Mandelbrot {
    #[verifier::type_invariant]
    closed spec fn inv(&self) -> bool {
        self@.wf()
    }

    /// Builds an evaluator, or reports `Error::Configuration` where the
    /// parts do not make a well-formed configuration. `threshold` is a
    /// binary64 bit pattern.
    pub fn new(width: u32, height: u32, iterations: u32, threshold: u64, colors: Vec<u32>) -> (r:
        Result<Mandelbrot, Error>)
        ensures
            match r {
                Ok(m) => m@ == (Configuration {
                    width: width as nat,
                    height: height as nat,
                    iterations: iterations as nat,
                    threshold,
                    palette: colors@,
                }) && m@.wf(),
                Err(e) => e == Error::Configuration,
            },
            r.is_ok() <==> width >= 1 && height >= 1 && iterations >= 1 && colors@.len()
                >= iterations,
    {
        if width == 0 || height == 0 || iterations == 0 || colors.len() < iterations as usize {
            Err(Error::Configuration)
        } else {
            Ok(Mandelbrot { width, height, iterations, threshold, colors })
        }
    }

    pub fn width(&self) -> (r: u32)
        ensures
            r == self@.width,
            self@.wf(),
    {
        proof {
            use_type_invariant(self);
        }
        self.width
    }

    pub fn height(&self) -> (r: u32)
        ensures
            r == self@.height,
            self@.wf(),
    {
        proof {
            use_type_invariant(self);
        }
        self.height
    }

    /// The number of pixels over which the span of a viewport axis is
    /// spread, for the horizontal and for the vertical axis alike: the grid's
    /// width. One pixel is thus as many units high as the vertical span
    /// divided by the width, whatever the grid's height, and the last row
    /// reaches the end of the vertical range only on a square grid.
    pub fn axis_extent(&self) -> (r: u32)
        ensures
            r == self@.width,
            r >= 1,
    {
        self.width()
    }

    pub fn iterations(&self) -> (r: u32)
        ensures
            r == self@.iterations,
            self@.wf(),
    {
        proof {
            use_type_invariant(self);
        }
        self.iterations
    }

    /// The escape threshold, as the bit pattern it was given by.
    pub fn threshold(&self) -> (r: u64)
        ensures
            r == self@.threshold,
    {
        self.threshold
    }

    pub fn colors(&self) -> (r: &Vec<u32>)
        ensures
            r@ == self@.palette,
            self@.wf(),
    {
        proof {
            use_type_invariant(self);
        }
        &self.colors
    }
}

} // verus!
