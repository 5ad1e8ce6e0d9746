//! Rendering traits for report generators: a type that can draw itself as
//! TeX or as HTML. The renderers themselves live with the caller; these
//! traits only fix the shape they implement.

use vstd::prelude::*;

verus! {

/// A value that can render itself as a TeX fragment.
pub trait HasTEX {
    fn to_tex(&self) -> String;
}

/// A value that can render itself as an HTML fragment.
pub trait HasHTML {
    fn to_html(&self) -> String;
}

} // verus!
