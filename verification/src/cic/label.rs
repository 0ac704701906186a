//! The ground-truth class of a flow.

use vstd::prelude::*;

verus! {

/// The class that a row of the dataset assigns to its flow: a name and the
/// number under which the name is known within one input file. The number 0
/// stands for "not assigned yet", 1 for the benign class.
#[derive(Debug, PartialEq, Eq, Hash)]
pub struct Label {
    pub index: u8,
    pub name: String,
}

/// A label as plain values.
pub struct LabelView {
    pub index: u8,
    pub name: Seq<char>,
}

impl View for Label {
    type V = LabelView;

    open spec fn view(&self) -> LabelView {
        LabelView { index: self.index, name: self.name@ }
    }
}

impl Clone for Label {
    fn clone(&self) -> (out: Self)
        ensures
            out == *self,
    {
        Label { index: self.index, name: self.name.clone() }
    }
}

impl Default for Label {
    fn default() -> (out: Self)
        ensures
            out.index == 0,
            out.name@ == Seq::<char>::empty(),
    {
        Label { index: 0, name: String::new() }
    }
}

impl Label {
    /// The label with the given number and name.
    pub fn new(index: u8, name: String) -> (out: Self)
        ensures
            out.index == index,
            out.name == name,
    {
        Label { index, name }
    }

    /// The label with the given name and no number assigned.
    pub fn new_with_name(name: String) -> (out: Self)
        ensures
            out.index == 0,
            out.name == name,
    {
        Label { index: 0, name }
    }

    /// The number of the label.
    pub fn index(&self) -> (out: u8)
        ensures
            out == self.index,
    {
        self.index
    }

    /// Gives the label the number `index` and leaves its name as it is.
    pub fn set_index_mut(&mut self, index: u8)
        ensures
            final(self).index == index,
            final(self).name == old(self).name,
    {
        self.index = index;
    }

    /// The name of the label.
    pub fn name(&self) -> (out: &String)
        ensures
            *out == self.name,
    {
        &self.name
    }
}

} // verus!
