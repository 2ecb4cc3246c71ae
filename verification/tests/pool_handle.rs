//! The pool a teammate's own tools reach back into.

use std::sync::Arc;

use opencompany_core::pool_handle::PoolHandle;

#[test]
fn an_unfilled_handle_has_no_pool() {
    let handle: PoolHandle<u32> = PoolHandle::new();
    assert!(handle.get().is_none());
}

#[test]
fn a_filled_handle_yields_the_pool_while_it_lives_and_keeps_the_first_fill() {
    let handle: PoolHandle<u32> = PoolHandle::new();
    let shared = handle.share();
    let pool = Arc::new(7u32);
    handle.set(&pool);
    assert_eq!(shared.get().as_deref(), Some(&7));
    let other = Arc::new(8u32);
    shared.set(&other);
    assert_eq!(handle.get().as_deref(), Some(&7), "a second fill is ignored");
    drop(pool);
    assert!(handle.get().is_none(), "the handle never keeps the pool alive");
}
