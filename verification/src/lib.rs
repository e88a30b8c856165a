//! A shared, lock-protected container for quick prototyping, plus a
//! key-polymorphic registry of such containers.
//!
//! [`Cowboy`] is a reference-counted handle to one slot guarded by a
//! reader/writer lock. Every handle produced by cloning shares the same
//! slot. Each cell carries an invariant, fixed at construction: every
//! value the slot ever holds satisfies it, and every read is guaranteed
//! to return a value satisfying it.
//!
//! [`Sheriff`] is a registry mapping heterogeneous keys to cells of
//! heterogeneous value types in one table, with a runtime type check at
//! retrieval. Its contract is a mathematical map from key values to
//! tagged cells.
//!
//! Unlike the guards of std's locks, the read and write handles here do
//! not release the lock when dropped: call `release_read` or
//! `release_write` on them.

use std::sync::Arc;
use vstd::prelude::*;
use vstd::rwlock::{ReadHandle, RwLock, WriteHandle};

mod sheriff;

pub use sheriff::Holster;
pub use sheriff::Holstered;
pub use sheriff::Key;
pub use sheriff::KeyVal;
pub use sheriff::LookupError;
pub use sheriff::Sheriff;
pub use sheriff::key_eq;
pub use sheriff::lemma_key_kind_isolation;
pub use sheriff::lemma_register_round_trip;
pub use sheriff::lemma_reregister_last_wins;
pub use sheriff::lemma_remove_then_absent;

verus! {

/// A reference-counted handle to a reader/writer-locked slot holding one `T`.
#[verifier::reject_recursive_types(T)]
pub struct Cowboy<T> {
    slot: Arc<RwLock<T, spec_fn(T) -> bool>>,
}

/// Relies on std's `Arc::clone`: the new handle points at the same
/// allocation, hence carries the same abstract value.
#[verifier::external_body]
fn share_arc<T>(a: &Arc<T>) -> (r: Arc<T>)
    ensures
        r == *a,
{
    Arc::clone(a)
}

impl<T> Cowboy<T> {
    /// The invariant this cell was created with. Every value the slot ever
    /// holds satisfies it; it never changes over the cell's lifetime.
    pub closed spec fn inv(&self) -> spec_fn(T) -> bool {
        self.slot.pred()
    }

    /// `v` is a value this cell is allowed to hold.
    pub open spec fn admits(&self, v: T) -> bool {
        self.inv()(v)
    }

    /// Create a new cell whose slot starts out holding `value`, with no
    /// constraint on later contents. Always succeeds.
    pub fn new(value: T) -> (c: Cowboy<T>)
        ensures
            forall|v: T| c.admits(v),
    {
        Cowboy { slot: Arc::new(RwLock::new(value, Ghost(|v: T| true))) }
    }

    /// Create a new cell holding `value`, constrained by the given invariant:
    /// every later write must satisfy `inv`, and every read is then known
    /// to satisfy it.
    pub fn new_with(value: T, Ghost(inv): Ghost<spec_fn(T) -> bool>) -> (c: Cowboy<T>)
        requires
            inv(value),
        ensures
            c.inv() == inv,
    {
        Cowboy { slot: Arc::new(RwLock::new(value, Ghost(inv))) }
    }

    /// Acquire shared read access; blocks while a writer holds the slot.
    /// The value seen through the handle satisfies the cell's invariant:
    /// no reader ever observes a value that was not validly written.
    /// The lock is held until `release_read` is called on the handle.
    pub fn read(&self) -> (handle: ReadHandle<'_, T, spec_fn(T) -> bool>)
        ensures
            self.admits(handle@),
    {
        self.slot.acquire_read()
    }

    /// Acquire shared read access. Shorthand for [`Cowboy::read`].
    pub fn r(&self) -> (handle: ReadHandle<'_, T, spec_fn(T) -> bool>)
        ensures
            self.admits(handle@),
    {
        self.read()
    }

    /// Acquire exclusive write access; blocks while any reader or writer
    /// holds the slot. The slot's current value is handed out, and the
    /// handle stores a replacement when `release_write` is called on it.
    /// The value handed out satisfies the cell's invariant, and the handle
    /// accepts exactly the values the cell admits.
    pub fn write(&self) -> (r: (T, WriteHandle<'_, T, spec_fn(T) -> bool>))
        ensures
            self.admits(r.0),
            r.1.rwlock().pred() == self.inv(),
    {
        self.slot.acquire_write()
    }

    /// Acquire exclusive write access. Shorthand for [`Cowboy::write`].
    pub fn w(&self) -> (r: (T, WriteHandle<'_, T, spec_fn(T) -> bool>))
        ensures
            self.admits(r.0),
            r.1.rwlock().pred() == self.inv(),
    {
        self.write()
    }

    /// Overwrite the slot with `value`.
    pub fn set(&self, value: T)
        requires
            self.admits(value),
    {
        let (_previous, handle) = self.slot.acquire_write();
        handle.release_write(value);
    }

    /// Swap `value` into the slot and hand the previous value back.
    pub fn replace(&self, value: T) -> (previous: T)
        requires
            self.admits(value),
        ensures
            self.admits(previous),
    {
        let (previous, handle) = self.slot.acquire_write();
        handle.release_write(value);
        previous
    }

    /// Apply `f` to the slot's value under exclusive access. `f` must accept
    /// every value the cell admits and must hand back an admitted value.
    pub fn modify<F: FnOnce(T) -> T>(&self, f: F)
        requires
            forall|v: T| self.admits(v) ==> #[trigger] call_requires(f, (v,)),
            forall|v: T, w: T| self.admits(v) && #[trigger] call_ensures(f, (v,), w) ==> self.admits(w),
    {
        let (value, handle) = self.slot.acquire_write();
        let updated = f(value);
        handle.release_write(updated);
    }
}

impl<T: Clone> Cowboy<T> {
    /// Clone the slot's current value out under shared read access.
    pub fn get_cloned(&self) -> (value: T)
        ensures
            exists|v: T| self.admits(v) && cloned(v, value),
    {
        let handle = self.slot.acquire_read();
        let value = handle.borrow().clone();
        proof {
            assert(self.admits(handle@) && cloned(handle@, value));
        }
        handle.release_read();
        value
    }
}

impl<T> Clone for Cowboy<T> {
    /// The new handle shares the same slot: a write through either handle
    /// is seen by reads through the other.
    fn clone(&self) -> (other: Self)
        ensures
            other == *self,
    {
        Cowboy { slot: share_arc(&self.slot) }
    }
}

impl<T: Default> Default for Cowboy<T> {
    /// A new unconstrained cell holding `T`'s default value.
    fn default() -> (c: Self)
        ensures
            forall|v: T| c.admits(v),
    {
        Cowboy::new(T::default())
    }
}

impl<T> Cowboy<Vec<T>> {
    /// Push onto the vector in the slot under exclusive access. The cell's
    /// invariant must be preserved by pushing `item`.
    pub fn push(&self, item: T)
        requires
            forall|v: Vec<T>, w: Vec<T>|
                #![trigger self.admits(v), self.admits(w)]
                self.admits(v) && w@ == v@.push(item) ==> self.admits(w),
    {
        let (mut vec, handle) = self.slot.acquire_write();
        let ghost before = vec;
        vec.push(item);
        proof {
            assert(self.admits(before) && vec@ == before@.push(item));
            assert(self.admits(vec));
        }
        handle.release_write(vec);
    }

    /// The length of the vector in the slot at the moment of the read.
    pub fn len(&self) -> (n: usize)
        ensures
            exists|v: Vec<T>| self.admits(v) && n == v@.len(),
    {
        let handle = self.slot.acquire_read();
        let n = handle.borrow().len();
        proof {
            assert(self.admits(handle@) && n == handle@@.len());
        }
        handle.release_read();
        n
    }

    /// Whether the vector in the slot is empty at the moment of the read.
    pub fn is_empty(&self) -> (empty: bool)
        ensures
            exists|v: Vec<T>| self.admits(v) && (empty <==> v@.len() == 0),
    {
        let handle = self.slot.acquire_read();
        let empty = handle.borrow().len() == 0;
        proof {
            assert(self.admits(handle@) && (empty <==> handle@@.len() == 0));
        }
        handle.release_read();
        empty
    }
}

/// Wrap any value in a fresh unconstrained [`Cowboy`] cell.
pub trait IntoCowboy: Sized {
    /// Wrap the value in a new cell with no constraint on later contents.
    fn cowboy(self) -> (c: Cowboy<Self>)
        ensures
            forall|v: Self| c.admits(v),
    ;
}

impl<T> IntoCowboy for T {
    fn cowboy(self) -> (c: Cowboy<Self>) {
        Cowboy::new(self)
    }
}

/// A cell whose invariant pins the content to a single value can only ever
/// read that value back: creating such a cell and acquiring read access
/// yields the value it was created with.
pub fn read_pinned<T: Copy>(value: T) -> (out: T)
    ensures
        out == value,
{
    let cell = Cowboy::new_with(value, Ghost(|v: T| v == value));
    let handle = cell.read();
    let out = *handle.borrow();
    handle.release_read();
    out
}

} // verus!
