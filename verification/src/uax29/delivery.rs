//! How reports reach a callback that may stop them.

use vstd::prelude::*;

verus! {

/// `replies` answer the first of `all` the reports: every one of them, or those up to and with the
/// first negative reply.
pub open spec fn is_answered<R>(all: Seq<R>, replies: Seq<bool>) -> bool {
    &&& replies.len() <= all.len()
    &&& forall|i: int| 0 <= i < replies.len() - 1 ==> #[trigger] replies[i]
    &&& replies.len() < all.len() ==> replies.len() > 0 && !replies.last()
}

/// All of the replies are positive.
pub open spec fn all_positive(replies: Seq<bool>) -> bool {
    forall|i: int| 0 <= i < replies.len() ==> #[trigger] replies[i]
}

} // verus!
