//! The user account record and its password operations.

use vstd::prelude::*;
use vstd::string::StringSliceAdditionalSpecFns;

verus! {

/// A stored user: database identity, e-mail, and password bytes.  The
/// type deliberately has no `Debug` form, so the password bytes cannot
/// reach a log by accident.
pub struct User {
    pub id: Option<i64>,
    pub email: Option<String>,
    pub password: Option<Vec<u8>>,
}

/// Byte-by-byte comparison of a stored password with a candidate.
fn bytes_eq(a: &Vec<u8>, b: &[u8]) -> (r: bool)
    ensures
        r == (a@ == b@),
{
    if a.len() != b.len() {
        return false;
    }
    let n = a.len();
    let mut i: usize = 0;
    while i < n
        invariant
            n == a@.len(),
            n == b@.len(),
            0 <= i <= n,
            forall|j: int| 0 <= j < i ==> a@[j] == b@[j],
        decreases n - i,
    {
        if a[i] != b[i] {
            return false;
        }
        i += 1;
    }
    proof {
        assert(a@ =~= b@);
    }
    true
}

impl User {
    /// True exactly when a password is stored and its bytes equal the
    /// UTF-8 bytes of the candidate.
    pub fn check_password(&self, password: &str) -> (r: bool)
        ensures
            r == match self.password {
                Some(p) => p@ == password.spec_bytes(),
                None => false,
            },
    {
        match &self.password {
            Some(stored) => bytes_eq(stored, password.as_bytes()),
            None => false,
        }
    }

    /// Store the UTF-8 bytes of the password, replacing any previous one;
    /// never fails.
    pub fn set_password(&mut self, password: &str) -> (r: Result<(), ()>)
        ensures
            r is Ok,
            final(self).password matches Some(p) && p@ == password.spec_bytes(),
            final(self).id == old(self).id,
            final(self).email == old(self).email,
    {
        self.password = Some(password.as_bytes_vec());
        Ok(())
    }
}

} // verus!
