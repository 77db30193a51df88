//! The participants of a subnet as the ledger numbers them.
use vstd::prelude::*;

verus! {

/// Marks the settings by which a subnet's emission is distributed.
#[derive(Clone, Copy, Debug, PartialEq, Eq, Structural)]
pub struct SubnetDistributionParameters;

/// What the removal of a participant does to the uids of a subnet with `n`
/// participants: the participant with the last uid takes the place of the
/// removed one.
#[derive(Clone, Copy, Debug, PartialEq, Eq, Structural)]
pub struct Removal {
    /// The uid that is freed and filled again.
    pub uid: u16,
    /// The uid whose participant moves into the freed place.
    pub replace_uid: u16,
    /// The number of participants that are left.
    pub remaining: u16,
}

/// Why a participant could not be removed.
#[derive(Clone, Copy, Debug, PartialEq, Eq, Structural)]
pub enum NetworkError {
    /// No participant of the subnet has the uid.
    ModuleDoesNotExist,
}

/// Plans the removal of the participant with uid `uid` from a subnet with `n`
/// participants. In an empty subnet there is nothing to do; in any other, a
/// uid that no participant has is refused.
pub fn remove_module(n: u16, uid: u16) -> (r: Result<Option<Removal>, NetworkError>)
    ensures
        r == (if n == 0 {
            Ok::<Option<Removal>, NetworkError>(None)
        } else if uid >= n {
            Err(NetworkError::ModuleDoesNotExist)
        } else {
            Ok(Some(Removal { uid, replace_uid: (n - 1) as u16, remaining: (n - 1) as u16 }))
        }),
{
    if n == 0 {
        Ok(None)
    } else if uid >= n {
        Err(NetworkError::ModuleDoesNotExist)
    } else {
        Ok(Some(Removal { uid, replace_uid: n - 1, remaining: n - 1 }))
    }
}

} // verus!
