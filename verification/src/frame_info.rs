//! An input together with the frame it belongs to.

use vstd::prelude::*;
use vstd::std_specs::cmp::PartialEqSpec;
use crate::config::Frame;

verus! {

/// The input of one player for one frame.
#[derive(Debug, Copy)]
pub struct PlayerInput<I> {
    /// The frame to which this input applies.
    pub frame: Frame,
    /// What the player does in that frame.
    pub input: I,
}

impl<I: Copy> Clone for PlayerInput<I> {
    fn clone(&self) -> (r: Self)
        ensures
            r == *self,
    {
        *self
    }
}

impl<I: PartialEq> PartialEq for PlayerInput<I> {
    fn eq(&self, other: &Self) -> (r: bool) {
        self.frame == other.frame && self.input == other.input
    }
}

impl<I: PartialEq> vstd::std_specs::cmp::PartialEqSpecImpl for PlayerInput<I> {
    open spec fn obeys_eq_spec() -> bool {
        I::obeys_eq_spec()
    }

    open spec fn eq_spec(&self, other: &Self) -> bool {
        self.frame == other.frame && self.input.eq_spec(&other.input)
    }
}

impl<I: Copy + PartialEq + Default> PlayerInput<I> {
    /// Tags `input` with `frame`.
    pub fn new(frame: Frame, input: I) -> (r: Self)
        ensures
            r.frame == frame,
            r.input == input,
    {
        PlayerInput { frame, input }
    }

    /// The default input, tagged with `frame`.
    pub fn blank_input(frame: Frame) -> (r: Self)
        ensures
            r.frame == frame,
            call_ensures(I::default, (), r.input),
    {
        PlayerInput { frame, input: I::default() }
    }

    /// Whether both carry the same input, whatever their frames.
    pub fn input_matches(&self, other: &Self) -> (r: bool)
        ensures
            I::obeys_eq_spec() ==> r == self.input.eq_spec(&other.input),
    {
        self.input == other.input
    }
}

} // verus!
