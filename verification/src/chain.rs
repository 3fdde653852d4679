//! What the board reads from the blockchain about the call being executed.

use vstd::prelude::*;

verus! {

/// Calls `near_sdk::env::predecessor_account_id` and returns the account as
/// its string. The account is the one that made the call now being executed;
/// it is not a function of any argument, so nothing is stated of it.
#[verifier::external_body]
pub(crate) fn predecessor_account() -> (account: String) {
    near_sdk::env::predecessor_account_id().into()
}

/// Calls `near_sdk::env::attached_deposit` and returns the amount in
/// yoctoNEAR. It is whatever the caller attached to the call now being
/// executed; nothing is stated of it.
#[verifier::external_body]
pub(crate) fn attached_deposit() -> (amount: u128) {
    near_sdk::env::attached_deposit().as_yoctonear()
}

} // verus!
