//! The models of values that may be absent or may have failed.

use vstd::prelude::*;

verus! {

/// The model of a value that may be absent.
pub open spec fn option_model<T: View>(o: Option<T>) -> Option<T::V> {
    match o {
        Some(t) => Some(t@),
        None => None,
    }
}

/// The model of a result: that of the value, or that of the failure.
pub open spec fn result_model<T: View, E: View>(r: Result<T, E>) -> Result<T::V, E::V> {
    match r {
        Ok(t) => Ok(t@),
        Err(e) => Err(e@),
    }
}
} // verus!
