use vstd::prelude::*;

verus! {

/// Defines the common behavior of all mathematical shapes.
///
/// A shape exposes two capabilities: `mutate`, a slot through which an
/// external search loop perturbs the shape's parameters in place, and
/// `is_valid`, a pure predicate over the shape's own parameters. Validity
/// is queried on demand, never enforced at construction time, so a shape
/// may live in an invalid state until a caller checks it.
pub trait Shape {
    /// Perturbs the shape's parameters in place. The perturbation policy
    /// is owned by the caller's optimizer, not by the shape itself.
    fn mutate(&mut self);

    /// Indicates if the current shape instance is valid or not by a
    /// user-defined constraint. By default, a shape is always valid.
    fn is_valid(&self) -> (r: bool)
        default_ensures
            r == true,
    {
        true
    }
}

} // verus!
