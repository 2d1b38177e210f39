//! What the verifier is told about `tokio_util`'s cancellation tokens.
//!
//! A token is shared, mutable state: whether it has fired can change at any
//! moment, from any task that holds it. So nothing is claimed of the tokens
//! these functions return; the declarations only let verified code create,
//! derive and fire them. The three functions take any token: they fail only
//! where a lock inside the token tree was poisoned by a panic elsewhere.

use vstd::prelude::*;
use tokio_util::sync::CancellationToken;

verus! {

/// `tokio_util::sync::CancellationToken`, opaque to the verifier.
#[verifier::external_type_specification]
#[verifier::external_body]
pub struct ExCancellationToken(CancellationToken);

/// `CancellationToken::new` returns a token of its own. Nothing is claimed
/// of it.
pub assume_specification[ CancellationToken::new ]() -> (token: CancellationToken)
;

/// `CancellationToken::child_token` returns a token that fires when the
/// given one does. Nothing is claimed of it.
pub assume_specification[ CancellationToken::child_token ](token: &CancellationToken) -> (child:
    CancellationToken)
;

/// `CancellationToken::cancel` fires the token and the tokens derived from
/// it. It returns nothing, and nothing is claimed of it.
pub assume_specification[ CancellationToken::cancel ](token: &CancellationToken)
;

} // verus!
