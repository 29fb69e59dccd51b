//! Commands returned by an application's `init` and `update`.
use vstd::prelude::*;

verus! {

/// A batch of messages to feed back into the application's `update`.
pub struct Cmd<Msg> {
    msgs: Vec<Msg>,
}

impl<Msg> View for Cmd<Msg> {
    type V = Seq<Msg>;

    closed spec fn view(&self) -> Seq<Msg> {
        self.msgs@
    }
}

impl<Msg> Cmd<Msg> {
    /// No message.
    pub fn none() -> (c: Cmd<Msg>)
        ensures
            c@ == Seq::<Msg>::empty(),
    {
        Cmd { msgs: Vec::new() }
    }

    /// The given messages, in order.
    pub fn batch(msgs: Vec<Msg>) -> (c: Cmd<Msg>)
        ensures
            c@ == msgs@,
    {
        Cmd { msgs }
    }

    /// The messages, in order.
    pub fn into_vec(self) -> (v: Vec<Msg>)
        ensures
            v@ == self@,
    {
        self.msgs
    }
}

} // verus!
