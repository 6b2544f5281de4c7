//! The allocator bridge: which deallocation function releases a buffer that
//! the engine handed out.
//!
//! The engine may register a deallocation hook of its own. Whether it did is
//! passed in by the caller at every release, so the choice never rests on
//! ambient state.

use vstd::prelude::*;

verus! {

/// The function that must release an engine buffer.
#[derive(Debug)]
pub enum Deallocator<F> {
    /// The hook that the engine registered.
    Registered(F),
    /// The platform's general-purpose deallocator.
    Platform,
}

/// Resolves the deallocator for one release: the registered hook where there
/// is one, the platform's deallocator otherwise.
pub fn xml_free<F>(registered: Option<F>) -> (chosen: Deallocator<F>)
    ensures
        chosen == match registered {
            Some(hook) => Deallocator::Registered(hook),
            None => Deallocator::Platform,
        },
{
    match registered {
        Some(hook) => Deallocator::Registered(hook),
        None => Deallocator::Platform,
    }
}

} // verus!
