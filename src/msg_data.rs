use vstd::prelude::*;

verus! {

/// A value that changes by applying messages to it.
pub trait MsgData: Sized {
    /// The messages this value understands.
    type Msg;

    /// The value that `msg` turns `self` into.
    spec fn applied(self, msg: Self::Msg) -> Self;

    /// Applies message `msg` to `self`, in place. This never fails: a message
    /// that makes no sense in the current state must leave it unchanged or
    /// saturate.
    fn msg(&mut self, msg: Self::Msg)
        ensures
            *final(self) == old(self).applied(msg),
    ;
}

/// The value after applying `msgs` to `value`, first to last.
pub open spec fn applied_all<T: MsgData>(value: T, msgs: Seq<T::Msg>) -> T
    decreases msgs.len(),
{
    if msgs.len() == 0 {
        value
    } else {
        applied_all(value.applied(msgs[0]), msgs.drop_first())
    }
}

} // verus!
