//! Access to the four channel bands of a sample.

use vstd::prelude::*;
use crate::color::Rgba;

verus! {

/// Per-band access to a four-channel sample.
pub trait Band {
    /// The value that the red accessor returns.
    spec fn spec_r(&self) -> u8;

    /// The value that the green accessor returns.
    spec fn spec_g(&self) -> u8;

    /// The value that the blue accessor returns.
    spec fn spec_b(&self) -> u8;

    /// The value that the alpha accessor returns.
    spec fn spec_a(&self) -> u8;

    /// The red band.
    fn r(&self) -> (v: u8)
        ensures
            v == self.spec_r(),
    ;

    /// The green band.
    fn g(&self) -> (v: u8)
        ensures
            v == self.spec_g(),
    ;

    /// The blue band.
    fn b(&self) -> (v: u8)
        ensures
            v == self.spec_b(),
    ;

    /// The alpha band.
    fn a(&self) -> (v: u8)
        ensures
            v == self.spec_a(),
    ;
}

impl Band for Rgba {
    open spec fn spec_r(&self) -> u8 {
        self.r
    }

    open spec fn spec_g(&self) -> u8 {
        self.g
    }

    open spec fn spec_b(&self) -> u8 {
        self.b
    }

    open spec fn spec_a(&self) -> u8 {
        self.a
    }

    fn r(&self) -> u8 {
        self.r
    }

    fn g(&self) -> u8 {
        self.g
    }

    fn b(&self) -> u8 {
        self.b
    }

    fn a(&self) -> u8 {
        self.a
    }
}

} // verus!
