//! The path of a container as `derive` writes it, such as `crate::module`.
use vstd::prelude::*;

use crate::text::{split_seq, split_str, views};

verus! {

/// A path of modules joined by `::`.
pub struct ContainerPath<'a> {
    path: &'a str,
}

impl<'a> ContainerPath<'a> {
    /// The path `path`.
    pub fn new(path: &'a str) -> (r: Self)
        ensures
            r.text() == path@,
    {
        ContainerPath { path }
    }

    /// The text of the path.
    pub closed spec fn text(&self) -> Seq<char> {
        self.path@
    }

    /// The parts of the path: its text split at each `::`.
    pub fn parts(&self) -> (r: Vec<String>)
        ensures
            views(r@) == split_seq(self.text(), "::"@),
    {
        split_str(self.path, "::")
    }
}

} // verus!
