//! One connected session: its identity and the mailbox of frames pending
//! delivery to it, oldest first.

use vstd::prelude::*;

use crate::codec;
use crate::codec::ID_LEN;

verus! {

/// The frames of a mailbox, as the sequence of their byte contents.
pub open spec fn frames_view(frames: Seq<Vec<u8>>) -> Seq<Seq<u8>> {
    frames.map_values(|f: Vec<u8>| f@)
}

/// A session: one record per live connection, owned by the registry.
pub struct Client {
    /// The session's 36-byte ASCII identifier.
    pub id: Vec<u8>,
    /// Frames waiting to be delivered to this session, oldest first.
    pub outbound_messages: Vec<Vec<u8>>,
}

/// Mathematical shape of a session.
#[verifier::ext_equal]
pub ghost struct ClientView {
    pub id: Seq<u8>,
    pub mailbox: Seq<Seq<u8>>,
}

impl View for Client {
    type V = ClientView;

    open spec fn view(&self) -> ClientView {
        ClientView { id: self.id@, mailbox: frames_view(self.outbound_messages@) }
    }
}

impl Client {
    /// A session is well formed when its id has the canonical 36-byte length.
    pub open spec fn wf(&self) -> bool {
        self@.id.len() == ID_LEN
    }

    /// A fresh session with the given identity and an empty mailbox.
    pub fn new(id: Vec<u8>) -> (c: Client)
        ensures
            c@.id == id@,
            c@.mailbox == Seq::<Seq<u8>>::empty(),
    {
        let c = Client { id, outbound_messages: Vec::new() };
        proof {
            assert(c@.mailbox =~= Seq::<Seq<u8>>::empty());
        }
        c
    }

    /// Appends one frame to this session's mailbox.
    pub fn receive_inbound_message(&mut self, message: &Vec<u8>)
        ensures
            final(self)@.id == old(self)@.id,
            final(self)@.mailbox == old(self)@.mailbox.push(message@),
    {
        self.outbound_messages.push(message.clone());
        proof {
            assert(self@.mailbox =~= old(self)@.mailbox.push(message@));
        }
    }

    /// Appends a departure notice about the given peer to this session's
    /// mailbox. An id that is not exactly 36 bytes aborts the notification
    /// and leaves the mailbox unchanged; this cannot happen for correctly
    /// generated ids.
    pub fn inform_of_departed_peer(&mut self, id: &Vec<u8>)
        ensures
            final(self)@.id == old(self)@.id,
            id@.len() == ID_LEN ==> final(self)@.mailbox == old(self)@.mailbox.push(
                codec::departure_frame(id@),
            ),
            id@.len() != ID_LEN ==> final(self)@.mailbox == old(self)@.mailbox,
    {
        match codec::encode_departure(id) {
            Some(frame) => {
                self.outbound_messages.push(frame);
                proof {
                    assert(self@.mailbox =~= old(self)@.mailbox.push(codec::departure_frame(id@)));
                }
            },
            None => (),
        }
    }

    /// Empties the mailbox and returns every pending frame, oldest first.
    pub fn take_outbound_messages(&mut self) -> (r: Vec<Vec<u8>>)
        ensures
            final(self)@.id == old(self)@.id,
            final(self)@.mailbox == Seq::<Seq<u8>>::empty(),
            frames_view(r@) == old(self)@.mailbox,
    {
        let mut out: Vec<Vec<u8>> = Vec::new();
        core::mem::swap(&mut out, &mut self.outbound_messages);
        proof {
            assert(self@.mailbox =~= Seq::<Seq<u8>>::empty());
        }
        out
    }
}

} // verus!
