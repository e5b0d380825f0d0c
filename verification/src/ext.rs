//! Concrete externalities implementation.

use crate::backend::Backend;
use crate::codec;
use crate::{Externalities, OverlayedChanges};
use vstd::prelude::*;

verus! {

/// Errors that can occur when interacting with the externalities.
#[derive(Debug, Copy, Clone)]
pub enum Error<B, E> {
    /// Failure to load state data from the backend.
    Backend(B),
    /// Failure to execute a function.
    Executor(E),
}

impl<B, E> Error<B, E> {
    /// A short description of the error's kind.
    pub fn description(&self) -> (r: &'static str)
        ensures
            self is Backend ==> r@ == "backend error"@,
            self is Executor ==> r@ == "executor error"@,
    {
        match self {
            Error::Backend(..) => "backend error",
            Error::Executor(..) => "executor error",
        }
    }
}

/// Wraps the current overlayed changes together with a read-only backend for
/// the duration of one call.
pub struct Ext<'a, B> {
    /// The overlayed changes to write to.
    pub overlay: OverlayedChanges,
    /// The storage backend to read from.
    pub backend: &'a B,
}

impl<'a, B: Backend> Externalities for Ext<'a, B> {
    type Error = B::Error;

    /// A read resolves through the overlay first; a key the overlay does not
    /// resolve falls back to the backend's persisted view.
    open spec fn storage_at(&self, key: Seq<u8>) -> Seq<u8> {
        match self.overlay.read_spec(key) {
            Some(v) => v,
            None => self.backend.storage_at(key),
        }
    }

    /// The committed layer of the wrapped overlay.
    open spec fn committed_view(&self) -> Map<Seq<u8>, Seq<u8>> {
        self.overlay.committed_map()
    }

    fn code(&self) -> (r: Result<Vec<u8>, Self::Error>)
        ensures
            (r matches Ok(c) && c@ == self.overlay.code_spec()),
    {
        Ok(self.overlay.code())
    }

    fn storage(&self, key: &[u8]) -> (r: Result<Vec<u8>, Self::Error>)
        ensures
            self.overlay.read_spec(key@) matches Some(v) ==> (r matches Ok(rv) && rv@ == v),
            r matches Ok(rv) ==> (self.overlay.read_spec(key@) is None ==> rv@
                == self.backend.storage_at(key@)),
            r is Err ==> self.overlay.read_spec(key@) is None,
    {
        let overlay_value = self.overlay.storage(key);
        match overlay_value {
            Some(x) => {
                proof {
                    assert(x@ =~= x.deep_view());
                }
                Ok(x)
            },
            None => self.backend.storage(key),
        }
    }

    fn set_code(&mut self, code: Vec<u8>)
        ensures
            final(self).overlay.prospective_map() == old(self).overlay.prospective_map().insert(
                codec::code_key(),
                code@,
            ),
            final(self).overlay.committed_map() == old(self).overlay.committed_map(),
            final(self).backend == old(self).backend,
    {
        self.overlay.set_code(code);
    }

    fn set_storage(&mut self, key: Vec<u8>, value: Vec<u8>)
        ensures
            final(self).overlay.prospective_map() == old(self).overlay.prospective_map().insert(
                key@,
                value@,
            ),
            final(self).overlay.committed_map() == old(self).overlay.committed_map(),
            final(self).backend == old(self).backend,
    {
        self.overlay.set_storage(key, value);
    }
}

} // verus!
