//! The image service.

use std::sync::Arc;
use vstd::prelude::*;

verus! {

/// The image service over a backend. It keeps nothing besides.
#[derive(Debug)]
pub struct ImageShell<B> {
    pub backend: Arc<B>,
}

impl<B> ImageShell<B> {
    /// The service over the backend.
    pub fn new(backend: Arc<B>) -> (r: Self)
        ensures
            r.backend == backend,
    {
        ImageShell { backend }
    }
}

} // verus!
