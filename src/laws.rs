use vstd::prelude::*;

use crate::bridge::{BridgeState, MEMORIAL_MESSAGE, TOTAL_SUPPLY};

verus! {

/// A call of one of the entry points that write storage.
pub ghost enum BridgeCall {
    /// `initialize(admin)`; `authorized` tells whether the caller proved
    /// control of `admin`.
    Initialize { admin: Seq<char>, authorized: bool },
    /// `anchor_letter(url)`.
    AnchorLetter { url: Seq<char> },
}

/// Storage after one call.
pub open spec fn apply_call(s: BridgeState, c: BridgeCall) -> BridgeState {
    match c {
        BridgeCall::Initialize { admin, authorized } => if authorized {
            s.after_initialize(admin)
        } else {
            s
        },
        BridgeCall::AnchorLetter { url } => s.after_anchor(url),
    }
}

/// Storage after a sequence of calls, in order.
pub open spec fn apply_calls(s: BridgeState, calls: Seq<BridgeCall>) -> BridgeState
    decreases calls.len(),
{
    if calls.len() == 0 {
        s
    } else {
        apply_call(apply_calls(s, calls.drop_last()), calls.last())
    }
}

/// The reference given by the last letter anchoring among `calls`, if any.
pub open spec fn last_anchored(calls: Seq<BridgeCall>) -> Option<Seq<char>>
    decreases calls.len(),
{
    if calls.len() == 0 {
        None
    } else {
        match calls.last() {
            BridgeCall::AnchorLetter { url } => Some(url),
            _ => last_anchored(calls.drop_last()),
        }
    }
}

/// The call is an initialization by a caller who proved control of the admin.
pub open spec fn is_authorized_initialize(c: BridgeCall) -> bool {
    c matches BridgeCall::Initialize { authorized, .. } && authorized
}

/// Some call among `calls` is an authorized initialization.
pub open spec fn has_initialized(calls: Seq<BridgeCall>) -> bool {
    exists|i: int| 0 <= i < calls.len() && #[trigger] is_authorized_initialize(calls[i])
}

/// After a successful initialization the supply is exactly the total supply,
/// the message is the memorial message, and the admin holds the total supply.
pub proof fn lemma_initialize_writes_constants(s: BridgeState, admin: Seq<char>)
    ensures
        s.after_initialize(admin).initialized(),
        s.after_initialize(admin).supply == Some(TOTAL_SUPPLY),
        s.after_initialize(admin).message == Some(MEMORIAL_MESSAGE@),
        s.after_initialize(admin).holdings[admin] == TOTAL_SUPPLY,
{
}

/// Until an authorized initialization, storage holds neither a message nor a
/// supply, so neither can be read.
pub proof fn lemma_uninitialized_until_initialize(calls: Seq<BridgeCall>)
    requires
        !has_initialized(calls),
    ensures
        apply_calls(BridgeState::empty(), calls).message is None,
        apply_calls(BridgeState::empty(), calls).supply is None,
        !apply_calls(BridgeState::empty(), calls).initialized(),
    decreases calls.len(),
{
    if calls.len() > 0 {
        let init = calls.drop_last();
        assert(!has_initialized(init)) by {
            if has_initialized(init) {
                let i = choose|i: int| 0 <= i < init.len() && #[trigger] is_authorized_initialize(init[i]);
                assert(calls[i] == init[i]);
            }
        };
        lemma_uninitialized_until_initialize(init);
        assert(!is_authorized_initialize(calls[calls.len() - 1]));
    }
}

/// The anchored letter is the one given by the last anchoring call, whatever
/// else was called; with no anchoring call it is what it was before.
pub proof fn lemma_last_anchor_wins(s: BridgeState, calls: Seq<BridgeCall>)
    ensures
        apply_calls(s, calls).letter == (match last_anchored(calls) {
            Some(url) => Some(url),
            None => s.letter,
        }),
    decreases calls.len(),
{
    if calls.len() > 0 {
        lemma_last_anchor_wins(s, calls.drop_last());
    }
}

/// Fresh storage has no letter until some letter is anchored; after that
/// the letter read is exactly the last one anchored.
pub proof fn lemma_letter_from_fresh_storage(calls: Seq<BridgeCall>)
    ensures
        apply_calls(BridgeState::empty(), calls).letter == last_anchored(calls),
{
    lemma_last_anchor_wins(BridgeState::empty(), calls);
}

/// An initialization without proof of control of the admin changes nothing.
pub proof fn lemma_unauthorized_initialize_changes_nothing(s: BridgeState, admin: Seq<char>)
    ensures
        apply_call(s, BridgeCall::Initialize { admin, authorized: false }) == s,
{
}

/// A second initialization by another admin writes the message and the
/// supply again, and leaves both admins with a supply record: nothing guards
/// against initializing twice.
pub proof fn lemma_reinitialize(s: BridgeState, first: Seq<char>, second: Seq<char>)
    requires
        first != second,
    ensures
        s.after_initialize(first).after_initialize(second).supply == Some(TOTAL_SUPPLY),
        s.after_initialize(first).after_initialize(second).message == Some(MEMORIAL_MESSAGE@),
        s.after_initialize(first).after_initialize(second).holdings[first] == TOTAL_SUPPLY,
        s.after_initialize(first).after_initialize(second).holdings[second] == TOTAL_SUPPLY,
        s.after_initialize(first).after_initialize(second).holdings.dom() == s.holdings.dom().insert(first).insert(second),
        s.after_initialize(first).after_initialize(second).letter == s.letter,
{
    assert(s.after_initialize(first).after_initialize(second).holdings.dom() =~= s.holdings.dom().insert(first).insert(second));
}

} // verus!
