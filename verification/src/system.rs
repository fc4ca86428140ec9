use vstd::prelude::*;
use crate::error::{spec_from_errno, Error};

verus! {

/// Raw status word returned by every kernel trap: zero on success,
/// a negated error code on failure.
#[derive(Clone, Copy, PartialEq, Eq, Structural, Debug)]
pub struct ResultT(pub i64);

impl ResultT {
    /// A trap succeeded exactly when its status word is zero.
    pub fn success(self) -> (r: bool)
        ensures
            r == (self.0 == 0),
    {
        self.0 == 0
    }

    /// Turns a status word into a result: `Ok` exactly on zero, otherwise
    /// the negated word mapped into the bounded error domain.
    pub fn result(self) -> (r: Result<(), Error>)
        ensures
            match r {
                Ok(()) => self.0 == 0,
                Err(e) => self.0 != 0 && e.code() == spec_from_errno(-(self.0 as int)) && e.wf(),
            },
    {
        if !self.success() {
            Err(Error::from_result_t(self))
        } else {
            Ok(())
        }
    }
}

} // verus!
