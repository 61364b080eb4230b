//! Where the text for the players goes.

use vstd::prelude::*;

verus! {

/// One message: who gets it, and its text.
pub type Message = (Seq<char>, Seq<char>);

/// The messages for the players, kept in memory in the order in which they
/// were handed over. The game only ever adds to it; sending is left to
/// whoever owns it.
pub struct Outbox {
    pub msgs: Vec<(String, String)>,
}

/// The values of a sequence of kept messages.
pub open spec fn message_views(msgs: Seq<(String, String)>) -> Seq<Message> {
    msgs.map_values(|m: (String, String)| (m.0@, m.1@))
}

impl Outbox {
    /// Every message handed over so far, oldest first.
    pub open spec fn sent(&self) -> Seq<Message> {
        message_views(self.msgs@)
    }

    /// A sink that holds nothing yet.
    pub fn new() -> (o: Outbox)
        ensures
            o.sent() == Seq::<Message>::empty(),
    {
        let o = Outbox { msgs: Vec::new() };
        assert(message_views(o.msgs@) =~= Seq::<Message>::empty());
        o
    }

    /// Hands over one message for the named player.
    pub fn send(&mut self, user: &str, text: &str)
        ensures
            final(self).sent() == old(self).sent().push((user@, text@)),
    {
        self.msgs.push((String::from_str(user), String::from_str(text)));
        assert(message_views(self.msgs@) =~= message_views(old(self).msgs@).push((user@, text@)));
    }
}

} // verus!
