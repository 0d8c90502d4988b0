//! The previous segment component, which shows how much time the last
//! segment gained or lost against a comparison. It has no settings.

use vstd::prelude::*;

verus! {

/// The previous segment component.
#[derive(Debug, Clone, Copy, PartialEq, Eq, Structural)]
pub struct Component;

impl Component {
    /// Creates the component.
    pub fn new() -> (r: Component)
        ensures
            r == Component,
    {
        Component
    }
}

impl Default for Component {
    fn default() -> (r: Component)
        ensures
            r == Component,
    {
        Component
    }
}

} // verus!
