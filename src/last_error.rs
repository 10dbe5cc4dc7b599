//! The side channel that holds the message of the last failure.
//!
//! Every failing operation at the boundary writes its message here before it
//! reports failure, and every successful one clears it; the last write wins.
use vstd::prelude::*;

verus! {

/// The message of the last failure; empty when the last operation succeeded.
pub struct ErrorSlot {
    message: String,
}

impl View for ErrorSlot {
    type V = Seq<char>;

    closed spec fn view(&self) -> Seq<char> {
        self.message@
    }
}

impl ErrorSlot {
    /// A slot that holds no error.
    pub fn new() -> (r: Self)
        ensures
            r@ == Seq::<char>::empty(),
    {
        ErrorSlot { message: String::new() }
    }

    /// The message held.
    pub fn last_error(&self) -> (r: String)
        ensures
            r@ == self@,
    {
        self.message.clone()
    }
}

/// Replaces the message held by `message`.
pub fn set_last_error(slot: &mut ErrorSlot, message: String)
    ensures
        final(slot)@ == message@,
{
    slot.message = message;
}

/// Empties the slot.
pub fn clear_last_error(slot: &mut ErrorSlot)
    ensures
        final(slot)@ == Seq::<char>::empty(),
{
    set_last_error(slot, String::new());
}

} // verus!
