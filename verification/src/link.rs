//! Terminal rigid-body descriptors attached below a joint.

use vstd::prelude::*;

verus! {

/// Spec-level image of a [`Link`]: its name as a character sequence.
pub ghost struct LinkView {
    pub name: Seq<char>,
}

/// A descriptor of the rigid body attached below a joint, carried for
/// display and identification only.
#[derive(Debug, Clone)]
pub struct Link {
    pub name: String,
}

impl View for Link {
    type V = LinkView;

    open spec fn view(&self) -> LinkView {
        LinkView { name: self.name@ }
    }
}

impl Link {
    pub fn new(name: &str) -> (r: Link)
        ensures
            r@ == (LinkView { name: name@ }),
    {
        Link { name: name.to_owned() }
    }
}

} // verus!
