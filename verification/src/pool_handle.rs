//! A late-bound link from an agent's tools to the pool that runs agents.
//!
//! Tools exist before the pool that owns them does, so they are given this
//! handle instead: a cell shared between clones, filled once the pool is up,
//! and holding only a weak reference so that it never extends the pool's
//! life.

use std::sync::{Arc, OnceLock, Weak};
use vstd::prelude::*;

verus! {

/// A cell holding a weak reference to the pool, filled at most once.
///
/// Its contents are not modelled: the cell is read and written only
/// through the three methods below, each a call into `std::sync`, and
/// nothing about what it holds is claimed.
#[verifier::external_body]
#[verifier::reject_recursive_types(P)]
struct WeakCell<P> {
    cell: OnceLock<Weak<P>>,
}

impl<P> WeakCell<P> {
    /// `OnceLock::new`: an empty cell. Nothing is claimed of it.
    #[verifier::external_body]
    fn empty() -> WeakCell<P> {
        WeakCell { cell: OnceLock::new() }
    }

    /// `Arc::downgrade`, then `OnceLock::set`: fills the cell with a weak
    /// reference to `pool` unless it is already full, in which case the
    /// reference is dropped. Whether it was full depends on the cell's
    /// history, so nothing is claimed.
    #[verifier::external_body]
    fn fill(&self, pool: &Arc<P>) {
        let _ = self.cell.set(Arc::downgrade(pool));
    }

    /// `OnceLock::get`, then `Weak::upgrade`: the pool, when the cell was
    /// filled and something still holds the pool strongly. Depends on the
    /// cell's history and on what else holds the pool, so nothing is claimed.
    #[verifier::external_body]
    fn pool(&self) -> Option<Arc<P>> {
        self.cell.get().and_then(Weak::upgrade)
    }
}

/// A shared, fill-once link to the pool. Every handle made with `share`
/// sees the same cell.
#[verifier::reject_recursive_types(P)]
pub struct PoolHandle<P> {
    inner: Arc<WeakCell<P>>,
}

impl<P> PoolHandle<P> {
    /// A handle that nothing has filled yet.
    pub fn new() -> (r: PoolHandle<P>) {
        PoolHandle { inner: Arc::new(WeakCell::empty()) }
    }

    /// Another handle on the same cell.
    pub fn share(&self) -> (r: PoolHandle<P>)
        ensures
            r == *self,
    {
        PoolHandle { inner: Arc::clone(&self.inner) }
    }

    /// Points the handle at `pool`. Only the first call has any effect.
    pub fn set(&self, pool: &Arc<P>) {
        self.inner.fill(pool);
    }

    /// The pool, if one was set and is still alive.
    pub fn get(&self) -> (r: Option<Arc<P>>) {
        self.inner.pool()
    }
}

} // verus!
