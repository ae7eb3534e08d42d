//! The session registry: the one piece of state shared by every
//! connection, and the relay and departure fan-out rules that act on it.
//!
//! The registry owns one [`Client`] per live session. Relaying stamps an
//! inbound frame with the sender's id and appends it to every other
//! session's mailbox (stamp-and-queue); departure notification appends one
//! departure notice to every remaining session's mailbox. The acting
//! session is always excluded from its own fan-out.

use vstd::prelude::*;

use crate::client::{Client, ClientView};
use crate::codec;
use crate::codec::{HEADER_LEN, ID_LEN};

verus! {

/// Whether some registered session bears the given id.
pub open spec fn contains_id(s: Seq<ClientView>, id: Seq<u8>) -> bool {
    exists|i: int| 0 <= i < s.len() && (#[trigger] s[i].id) == id
}

/// The set of ids of all registered sessions.
pub open spec fn live_ids(s: Seq<ClientView>) -> Set<Seq<u8>> {
    Set::new(|id: Seq<u8>| contains_id(s, id))
}

/// Whether an inbound frame and a sender id are accepted by the relay: the
/// frame must carry a complete type tag and the id must have the canonical
/// length. Anything else is dropped without effect.
pub open spec fn relay_accepts(frame: Seq<u8>, sender: Seq<u8>) -> bool {
    frame.len() >= HEADER_LEN && sender.len() == ID_LEN
}

/// How relaying one inbound frame from `sender` transforms the registered
/// sessions: ids are untouched; every other session's mailbox gains exactly
/// the stamped frame at its end; the sender's own mailbox is untouched; a
/// rejected frame changes nothing.
pub open spec fn post_relay(
    pre: Seq<ClientView>,
    post: Seq<ClientView>,
    sender: Seq<u8>,
    frame: Seq<u8>,
) -> bool {
    &&& post.len() == pre.len()
    &&& forall|k: int| 0 <= k < pre.len() ==> (#[trigger] post[k].id) == pre[k].id
    &&& relay_accepts(frame, sender) ==> forall|k: int|
        0 <= k < pre.len() ==> (#[trigger] post[k].mailbox) == if pre[k].id == sender {
            pre[k].mailbox
        } else {
            pre[k].mailbox.push(codec::stamped(frame, sender))
        }
    &&& !relay_accepts(frame, sender) ==> post == pre
}

/// How notifying a departure transforms the registered sessions: ids are
/// untouched; every session other than the departed one gains exactly one
/// departure notice at the end of its mailbox; an id that is not exactly
/// 36 bytes aborts the notification and changes nothing.
pub open spec fn post_notify(pre: Seq<ClientView>, post: Seq<ClientView>, departed: Seq<u8>) -> bool {
    &&& post.len() == pre.len()
    &&& forall|k: int| 0 <= k < pre.len() ==> (#[trigger] post[k].id) == pre[k].id
    &&& departed.len() == ID_LEN ==> forall|k: int|
        0 <= k < pre.len() ==> (#[trigger] post[k].mailbox) == if pre[k].id == departed {
            pre[k].mailbox
        } else {
            pre[k].mailbox.push(codec::departure_frame(departed))
        }
    &&& departed.len() != ID_LEN ==> post == pre
}

fn ids_equal(a: &Vec<u8>, b: &Vec<u8>) -> (r: bool)
    ensures
        r <==> a@ == b@,
{
    if a.len() != b.len() {
        return false;
    }
    let mut i: usize = 0;
    while i < a.len()
        invariant
            i <= a@.len(),
            a@.len() == b@.len(),
            forall|k: int| 0 <= k < i ==> a@[k] == b@[k],
        decreases a@.len() - i,
    {
        if a[i] != b[i] {
            return false;
        }
        i = i + 1;
    }
    proof {
        assert(a@ =~= b@);
    }
    true
}

/// The shared map of live sessions. Exactly one `Client` per connection;
/// all cross-connection interaction goes through this one structure.
pub struct Registry {
    /// The registered sessions, in order of registration.
    pub clients: Vec<Client>,
}

impl View for Registry {
    type V = Seq<ClientView>;

    open spec fn view(&self) -> Seq<ClientView> {
        Seq::new(self.clients@.len(), |i: int| self.clients@[i]@)
    }
}

impl Registry {
    /// A registry is well formed when no two sessions share an id and
    /// every id has the canonical 36-byte length.
    pub open spec fn wf(&self) -> bool {
        &&& forall|i: int, j: int|
            0 <= i < j < self@.len() ==> (#[trigger] self@[i].id) != (#[trigger] self@[j].id)
        &&& forall|i: int| 0 <= i < self@.len() ==> (#[trigger] self@[i].id).len() == ID_LEN
    }

    /// An empty registry: the process starts with no sessions.
    pub fn new() -> (r: Registry)
        ensures
            r.wf(),
            r@ == Seq::<ClientView>::empty(),
    {
        let r = Registry { clients: Vec::new() };
        proof {
            assert(r@ =~= Seq::<ClientView>::empty());
        }
        r
    }

    fn find_index(&self, id: &Vec<u8>) -> (r: Option<usize>)
        ensures
            r matches Some(i) ==> 0 <= i < self@.len() && self@[i as int].id == id@,
            r is None ==> !contains_id(self@, id@),
    {
        let mut i: usize = 0;
        while i < self.clients.len()
            invariant
                i <= self.clients@.len(),
                forall|k: int| 0 <= k < i ==> (#[trigger] self@[k].id) != id@,
            decreases self.clients@.len() - i,
        {
            if ids_equal(&self.clients[i].id, id) {
                return Some(i);
            }
            i = i + 1;
        }
        None
    }

    /// Whether a session with this id is currently registered.
    pub fn contains(&self, id: &Vec<u8>) -> (r: bool)
        ensures
            r <==> contains_id(self@, id@),
    {
        match self.find_index(id) {
            Some(i) => {
                proof {
                    assert(self@[i as int].id == id@);
                }
                true
            },
            None => false,
        }
    }

    /// Inserts a brand-new session with an empty mailbox. The id must be
    /// freshly generated: registering an id that is already live is a
    /// breach of the calling discipline, not a runtime-checked error.
    pub fn register(&mut self, id: Vec<u8>)
        requires
            old(self).wf(),
            id@.len() == ID_LEN,
            !contains_id(old(self)@, id@),
        ensures
            final(self).wf(),
            final(self)@ == old(self)@.push(
                ClientView { id: id@, mailbox: Seq::<Seq<u8>>::empty() },
            ),
            live_ids(final(self)@) == live_ids(old(self)@).insert(id@),
    {
        let ghost pre = self@;
        let ghost idv = id@;
        let c = Client::new(id);
        self.clients.push(c);
        proof {
            let cv = ClientView { id: idv, mailbox: Seq::<Seq<u8>>::empty() };
            assert(self@ =~= pre.push(cv));
            assert forall|i: int, j: int| 0 <= i < j < self@.len() implies self@[i].id
                != self@[j].id by {
                if j == pre.len() {
                    assert(self@[j].id == idv);
                    assert(self@[i].id == pre[i].id);
                    assert(!contains_id(pre, idv));
                }
            }
            assert forall|x: Seq<u8>| live_ids(self@).contains(x) implies live_ids(pre).insert(
                idv,
            ).contains(x) by {
                let i = choose|i: int| 0 <= i < self@.len() && self@[i].id == x;
                if i < pre.len() {
                    assert(pre[i].id == x);
                }
            }
            assert forall|x: Seq<u8>| live_ids(pre).insert(idv).contains(x) implies live_ids(
                self@,
            ).contains(x) by {
                if contains_id(pre, x) {
                    let i = choose|i: int| 0 <= i < pre.len() && pre[i].id == x;
                    assert(self@[i].id == x);
                } else {
                    assert(self@[pre.len() as int].id == idv);
                }
            }
            assert(live_ids(self@) =~= live_ids(pre).insert(idv));
        }
    }

    /// Atomically removes and returns the session with the given id, or
    /// returns `None` (a no-op, not an error) if it is already gone.
    pub fn unregister(&mut self, id: &Vec<u8>) -> (r: Option<Client>)
        requires
            old(self).wf(),
        ensures
            final(self).wf(),
            r is Some <==> contains_id(old(self)@, id@),
            r is None ==> final(self)@ == old(self)@,
            r matches Some(c) ==> c@.id == id@ && exists|j: int|
                0 <= j < old(self)@.len() && old(self)@[j].id == id@ && c@ == old(self)@[j]
                    && final(self)@ == old(self)@.remove(j),
            !contains_id(final(self)@, id@),
            live_ids(final(self)@) == live_ids(old(self)@).remove(id@),
    {
        let ghost pre = self@;
        match self.find_index(id) {
            Some(i) => {
                let c = self.clients.remove(i);
                proof {
                    assert(self@ =~= pre.remove(i as int));
                    let post = self@;
                    assert forall|k: int| 0 <= k < post.len() implies (#[trigger] post[k].id)
                        != id@ by {
                        if k < i {
                            assert(post[k] == pre[k]);
                        } else {
                            assert(post[k] == pre[k + 1]);
                        }
                    }
                    assert forall|x: Seq<u8>| live_ids(post).contains(x) implies live_ids(
                        pre,
                    ).remove(id@).contains(x) by {
                        let k = choose|k: int| 0 <= k < post.len() && post[k].id == x;
                        if k < i {
                            assert(pre[k].id == x);
                        } else {
                            assert(pre[k + 1].id == x);
                        }
                    }
                    assert forall|x: Seq<u8>| live_ids(pre).remove(id@).contains(x)
                        implies live_ids(post).contains(x) by {
                        let k = choose|k: int| 0 <= k < pre.len() && pre[k].id == x;
                        if k < i {
                            assert(post[k].id == x);
                        } else {
                            assert(k != i);
                            assert(post[k - 1].id == x);
                        }
                    }
                    assert(live_ids(self@) =~= live_ids(pre).remove(id@));
                }
                Some(c)
            },
            None => {
                proof {
                    assert(live_ids(self@) =~= live_ids(pre).remove(id@));
                }
                None
            },
        }
    }

    /// Stamps a valid inbound frame from `sender_id` with that id and
    /// appends one copy to every other session's mailbox. A frame without a
    /// complete type tag, or a malformed sender id, is dropped: nothing in
    /// the registry changes and nothing is ever sent for it.
    pub fn relay_inbound(&mut self, sender_id: &Vec<u8>, frame: &Vec<u8>)
        requires
            old(self).wf(),
        ensures
            final(self).wf(),
            post_relay(old(self)@, final(self)@, sender_id@, frame@),
    {
        let ghost pre = self@;
        let msg = match codec::stamp_with_sender(frame, sender_id) {
            Some(m) => m,
            None => {
                return ;
            },
        };
        let mut i: usize = 0;
        while i < self.clients.len()
            invariant
                i <= self.clients@.len(),
                self.clients@.len() == pre.len(),
                msg@ == codec::stamped(frame@, sender_id@),
                relay_accepts(frame@, sender_id@),
                forall|k: int| 0 <= k < pre.len() ==> (#[trigger] self@[k].id) == pre[k].id,
                forall|k: int|
                    i <= k < pre.len() ==> (#[trigger] self@[k].mailbox) == pre[k].mailbox,
                forall|k: int|
                    0 <= k < i ==> (#[trigger] self@[k].mailbox) == if pre[k].id == sender_id@ {
                        pre[k].mailbox
                    } else {
                        pre[k].mailbox.push(codec::stamped(frame@, sender_id@))
                    },
            decreases self.clients@.len() - i,
        {
            let is_sender = ids_equal(&self.clients[i].id, sender_id);
            proof {
                assert(self@[i as int].id == self.clients@[i as int]@.id);
            }
            if !is_sender {
                let ghost snap = self@;
                let mut c = self.clients.remove(i);
                c.receive_inbound_message(&msg);
                self.clients.insert(i, c);
                proof {
                    assert(self@ =~= snap.update(
                        i as int,
                        ClientView {
                            id: snap[i as int].id,
                            mailbox: snap[i as int].mailbox.push(msg@),
                        },
                    ));
                    assert(self@[i as int].mailbox == pre[i as int].mailbox.push(msg@));
                    assert(forall|k: int|
                        0 <= k < pre.len() && k != i ==> (#[trigger] self@[k].mailbox) == snap[k].mailbox);
                }
            } else {
                proof {
                    assert(pre[i as int].id == sender_id@);
                    assert(self@[i as int].mailbox == pre[i as int].mailbox);
                }
            }
            i = i + 1;
        }
    }

    /// Appends one departure notice bearing `departed`'s id to every
    /// session's mailbox except the departed session's own. An id that is
    /// not exactly 36 bytes aborts the whole notification (this cannot
    /// happen for correctly generated ids).
    pub fn notify_departure(&mut self, departed: &Vec<u8>)
        requires
            old(self).wf(),
        ensures
            final(self).wf(),
            post_notify(old(self)@, final(self)@, departed@),
    {
        let ghost pre = self@;
        let notice = match codec::encode_departure(departed) {
            Some(f) => f,
            None => {
                return ;
            },
        };
        let mut i: usize = 0;
        while i < self.clients.len()
            invariant
                i <= self.clients@.len(),
                self.clients@.len() == pre.len(),
                notice@ == codec::departure_frame(departed@),
                departed@.len() == ID_LEN,
                forall|k: int| 0 <= k < pre.len() ==> (#[trigger] self@[k].id) == pre[k].id,
                forall|k: int|
                    i <= k < pre.len() ==> (#[trigger] self@[k].mailbox) == pre[k].mailbox,
                forall|k: int|
                    0 <= k < i ==> (#[trigger] self@[k].mailbox) == if pre[k].id == departed@ {
                        pre[k].mailbox
                    } else {
                        pre[k].mailbox.push(codec::departure_frame(departed@))
                    },
            decreases self.clients@.len() - i,
        {
            let is_departed = ids_equal(&self.clients[i].id, departed);
            proof {
                assert(self@[i as int].id == self.clients@[i as int]@.id);
            }
            if !is_departed {
                let ghost snap = self@;
                let mut c = self.clients.remove(i);
                c.receive_inbound_message(&notice);
                self.clients.insert(i, c);
                proof {
                    assert(self@ =~= snap.update(
                        i as int,
                        ClientView {
                            id: snap[i as int].id,
                            mailbox: snap[i as int].mailbox.push(notice@),
                        },
                    ));
                    assert(self@[i as int].mailbox == pre[i as int].mailbox.push(notice@));
                    assert(forall|k: int|
                        0 <= k < pre.len() && k != i ==> (#[trigger] self@[k].mailbox) == snap[k].mailbox);
                }
            } else {
                proof {
                    assert(pre[i as int].id == departed@);
                    assert(self@[i as int].mailbox == pre[i as int].mailbox);
                }
            }
            i = i + 1;
        }
    }

    /// Atomically empties the mailbox of the session with the given id and
    /// returns the pending frames, oldest first. An absent id yields no
    /// frames and changes nothing.
    pub fn drain_mailbox(&mut self, id: &Vec<u8>) -> (r: Vec<Vec<u8>>)
        requires
            old(self).wf(),
        ensures
            final(self).wf(),
            final(self)@.len() == old(self)@.len(),
            forall|k: int|
                0 <= k < old(self)@.len() ==> (#[trigger] final(self)@[k].id) == old(self)@[k].id,
            !contains_id(old(self)@, id@) ==> final(self)@ == old(self)@ && r@.len() == 0,
            forall|k: int|
                0 <= k < old(self)@.len() && old(self)@[k].id != id@
                    ==> (#[trigger] final(self)@[k].mailbox) == old(self)@[k].mailbox,
            forall|k: int|
                0 <= k < old(self)@.len() && old(self)@[k].id == id@
                    ==> (#[trigger] final(self)@[k].mailbox) == Seq::<Seq<u8>>::empty()
                    && crate::client::frames_view(r@) == old(self)@[k].mailbox,
    {
        let ghost pre = self@;
        match self.find_index(id) {
            Some(i) => {
                let mut c = self.clients.remove(i);
                let out = c.take_outbound_messages();
                self.clients.insert(i, c);
                proof {
                    assert(self@ =~= pre.update(
                        i as int,
                        ClientView { id: pre[i as int].id, mailbox: Seq::<Seq<u8>>::empty() },
                    ));
                    assert forall|k: int|
                        0 <= k < pre.len() && pre[k].id == id@ implies k == i as int by {
                        if k != i {
                            assert(pre[k].id != pre[i as int].id);
                        }
                    }
                }
                out
            },
            None => {
                let out: Vec<Vec<u8>> = Vec::new();
                proof {
                    assert(crate::client::frames_view(out@) =~= Seq::<Seq<u8>>::empty());
                }
                out
            },
        }
    }

    /// One full step of the relay for one inbound frame: fan the frame out
    /// to every other session, then drain and return the sender's own
    /// pending mailbox. Because of self-exclusion the frame just relayed is
    /// never among the returned frames; a rejected frame leaves every
    /// mailbox as it was.
    pub fn process_inbound(&mut self, sender_id: &Vec<u8>, frame: &Vec<u8>) -> (r: Vec<Vec<u8>>)
        requires
            old(self).wf(),
        ensures
            final(self).wf(),
            final(self)@.len() == old(self)@.len(),
            forall|k: int|
                0 <= k < old(self)@.len() ==> (#[trigger] final(self)@[k].id) == old(self)@[k].id,
            forall|k: int|
                0 <= k < old(self)@.len() && old(self)@[k].id != sender_id@
                    ==> (#[trigger] final(self)@[k].mailbox) == if relay_accepts(
                    frame@,
                    sender_id@,
                ) {
                    old(self)@[k].mailbox.push(codec::stamped(frame@, sender_id@))
                } else {
                    old(self)@[k].mailbox
                },
            forall|k: int|
                0 <= k < old(self)@.len() && old(self)@[k].id == sender_id@
                    ==> (#[trigger] final(self)@[k].mailbox) == Seq::<Seq<u8>>::empty()
                    && crate::client::frames_view(r@) == old(self)@[k].mailbox,
            !contains_id(old(self)@, sender_id@) ==> r@.len() == 0,
    {
        let ghost pre = self@;
        self.relay_inbound(sender_id, frame);
        let ghost mid = self@;
        let r = self.drain_mailbox(sender_id);
        proof {
            lemma_same_ids_same_contains(pre, mid);
        }
        r
    }

    /// Tears one session down: atomically removes it from the registry,
    /// then enqueues one departure notice about it into the mailbox of
    /// every session still registered. The departing session's own pending
    /// mailbox is returned with the removed record and never delivered.
    pub fn depart(&mut self, id: &Vec<u8>) -> (r: Option<Client>)
        requires
            old(self).wf(),
        ensures
            final(self).wf(),
            r is Some <==> contains_id(old(self)@, id@),
            !contains_id(final(self)@, id@),
            live_ids(final(self)@) == live_ids(old(self)@).remove(id@),
            r is None ==> post_notify(old(self)@, final(self)@, id@),
            r matches Some(c) ==> c@.id == id@ && exists|j: int|
                0 <= j < old(self)@.len() && old(self)@[j].id == id@ && c@ == old(self)@[j]
                    && post_notify(old(self)@.remove(j), final(self)@, id@),
        {
        let ghost pre = self@;
        let removed = self.unregister(id);
        let ghost mid = self@;
        self.notify_departure(id);
        proof {
            lemma_same_ids_same_contains(mid, self@);
            assert(live_ids(self@) =~= live_ids(mid));
            if removed is Some {
                let j = choose|j: int|
                    0 <= j < pre.len() && pre[j].id == id@ && removed->Some_0@ == pre[j] && mid
                        == pre.remove(j);
                assert(pre[j].id == id@ && removed->Some_0@ == pre[j] && mid == pre.remove(j)
                    && post_notify(pre.remove(j), self@, id@));
            }
        }
        removed
    }
}

/// Two registries with pointwise-equal ids register exactly the same ids.
proof fn lemma_same_ids_same_contains(pre: Seq<ClientView>, post: Seq<ClientView>)
    requires
        post.len() == pre.len(),
        forall|k: int| 0 <= k < pre.len() ==> (#[trigger] post[k].id) == pre[k].id,
    ensures
        forall|x: Seq<u8>| contains_id(post, x) <==> contains_id(pre, x),
        live_ids(post) == live_ids(pre),
{
    assert forall|x: Seq<u8>| contains_id(post, x) implies contains_id(pre, x) by {
        let k = choose|k: int| 0 <= k < post.len() && post[k].id == x;
        assert(pre[k].id == x);
    }
    assert forall|x: Seq<u8>| contains_id(pre, x) implies contains_id(post, x) by {
        let k = choose|k: int| 0 <= k < pre.len() && pre[k].id == x;
        assert(post[k].id == x);
    }
    assert(live_ids(post) =~= live_ids(pre));
}

/// Attribution: every frame that relaying appends to a peer's mailbox
/// carries exactly the sender's id in its id field, with the original tag
/// and payload around it, and earlier mailbox entries are untouched.
pub proof fn lemma_relayed_frame_attributes_sender(
    pre: Seq<ClientView>,
    post: Seq<ClientView>,
    sender: Seq<u8>,
    frame: Seq<u8>,
    k: int,
)
    requires
        post_relay(pre, post, sender, frame),
        relay_accepts(frame, sender),
        0 <= k < pre.len(),
        pre[k].id != sender,
    ensures
        post[k].mailbox.len() == pre[k].mailbox.len() + 1,
        post[k].mailbox.last() == codec::stamped(frame, sender),
        codec::sender_of(post[k].mailbox.last()) == sender,
        forall|m: int| 0 <= m < pre[k].mailbox.len() ==> post[k].mailbox[m] == pre[k].mailbox[m],
{
    codec::lemma_stamp_attributes_sender(frame, sender);
}

/// Silent drop: an inbound frame without a complete type tag, or one whose
/// sender id is not exactly 36 bytes, causes no registry mutation at all —
/// no session, no state, no mailbox changes, so nothing is ever sent for it.
pub proof fn lemma_malformed_frame_no_effect(
    pre: Seq<ClientView>,
    post: Seq<ClientView>,
    sender: Seq<u8>,
    frame: Seq<u8>,
)
    requires
        post_relay(pre, post, sender, frame),
        !relay_accepts(frame, sender),
    ensures
        post == pre,
{
}

/// Self-exclusion: neither relaying a frame from a session nor notifying
/// the departure of a session ever appends anything to that session's own
/// mailbox.
pub proof fn lemma_self_exclusion(
    pre: Seq<ClientView>,
    post: Seq<ClientView>,
    actor: Seq<u8>,
    frame: Seq<u8>,
    k: int,
)
    requires
        post_relay(pre, post, actor, frame) || post_notify(pre, post, actor),
        0 <= k < pre.len(),
        pre[k].id == actor,
    ensures
        post[k].mailbox == pre[k].mailbox,
{
}

/// Departure delivery: when a departure notice is fanned out, every
/// remaining session receives exactly one new frame, it is the departure
/// notice bearing the departed id, and it decodes back to that id.
pub proof fn lemma_departure_notice_exactly_once(
    pre: Seq<ClientView>,
    post: Seq<ClientView>,
    departed: Seq<u8>,
    k: int,
)
    requires
        post_notify(pre, post, departed),
        departed.len() == ID_LEN,
        0 <= k < pre.len(),
        pre[k].id != departed,
    ensures
        post[k].mailbox.len() == pre[k].mailbox.len() + 1,
        post[k].mailbox.last() == codec::departure_frame(departed),
        codec::decoded(post[k].mailbox.last()) == Some(
            codec::FrameView::Departure { id: departed },
        ),
        forall|m: int| 0 <= m < pre[k].mailbox.len() ==> post[k].mailbox[m] == pre[k].mailbox[m],
{
    codec::lemma_departure_round_trip(departed);
}

/// No session's mailbox holds a frame whose id field names that session
/// itself: every queued frame is attributed to, or reports the departure
/// of, some other session.
pub open spec fn no_self_addressed(s: Seq<ClientView>) -> bool {
    forall|k: int, m: int|
        0 <= k < s.len() && 0 <= m < s[k].mailbox.len() ==> codec::sender_of(
            #[trigger] s[k].mailbox[m],
        ) != s[k].id
}

/// Relaying preserves self-addressing freedom: the only frame it enqueues
/// is stamped with the sender's id, and the sender's own mailbox is left
/// alone, so no mailbox ever gains a frame that names its owner.
pub proof fn lemma_relay_preserves_no_self_addressed(
    pre: Seq<ClientView>,
    post: Seq<ClientView>,
    sender: Seq<u8>,
    frame: Seq<u8>,
)
    requires
        post_relay(pre, post, sender, frame),
        no_self_addressed(pre),
    ensures
        no_self_addressed(post),
{
    if relay_accepts(frame, sender) {
        codec::lemma_stamp_attributes_sender(frame, sender);
        assert forall|k: int, m: int|
            0 <= k < post.len() && 0 <= m < post[k].mailbox.len() implies codec::sender_of(
            post[k].mailbox[m],
        ) != post[k].id by {
            if pre[k].id != sender && m == pre[k].mailbox.len() {
                assert(post[k].mailbox[m] == codec::stamped(frame, sender));
            } else {
                assert(post[k].mailbox[m] == pre[k].mailbox[m]);
            }
        }
    }
}

/// Departure notification preserves self-addressing freedom: the notice
/// bears the departed id and is withheld from any session bearing that id.
pub proof fn lemma_notify_preserves_no_self_addressed(
    pre: Seq<ClientView>,
    post: Seq<ClientView>,
    departed: Seq<u8>,
)
    requires
        post_notify(pre, post, departed),
        no_self_addressed(pre),
    ensures
        no_self_addressed(post),
{
    if departed.len() == ID_LEN {
        assert(codec::sender_of(codec::departure_frame(departed)) =~= departed);
        assert forall|k: int, m: int|
            0 <= k < post.len() && 0 <= m < post[k].mailbox.len() implies codec::sender_of(
            post[k].mailbox[m],
        ) != post[k].id by {
            if pre[k].id != departed && m == pre[k].mailbox.len() {
                assert(post[k].mailbox[m] == codec::departure_frame(departed));
            } else {
                assert(post[k].mailbox[m] == pre[k].mailbox[m]);
            }
        }
    }
}

/// Registering a session preserves self-addressing freedom: the newcomer's
/// mailbox is empty and nobody else's changes.
pub proof fn lemma_register_preserves_no_self_addressed(pre: Seq<ClientView>, id: Seq<u8>)
    requires
        no_self_addressed(pre),
    ensures
        no_self_addressed(pre.push(ClientView { id, mailbox: Seq::<Seq<u8>>::empty() })),
{
    let post = pre.push(ClientView { id, mailbox: Seq::<Seq<u8>>::empty() });
    assert forall|k: int, m: int|
        0 <= k < post.len() && 0 <= m < post[k].mailbox.len() implies codec::sender_of(
        post[k].mailbox[m],
    ) != post[k].id by {
        assert(k < pre.len());
        assert(post[k] == pre[k]);
    }
}

/// Removing a session preserves self-addressing freedom: the remaining
/// sessions keep their mailboxes unchanged.
pub proof fn lemma_remove_preserves_no_self_addressed(pre: Seq<ClientView>, j: int)
    requires
        no_self_addressed(pre),
        0 <= j < pre.len(),
    ensures
        no_self_addressed(pre.remove(j)),
{
    let post = pre.remove(j);
    assert forall|k: int, m: int|
        0 <= k < post.len() && 0 <= m < post[k].mailbox.len() implies codec::sender_of(
        post[k].mailbox[m],
    ) != post[k].id by {
        if k < j {
            assert(post[k] == pre[k]);
        } else {
            assert(post[k] == pre[k + 1]);
        }
    }
}

/// Draining a mailbox preserves self-addressing freedom: the drained
/// mailbox is left empty and no other mailbox changes.
pub proof fn lemma_drain_preserves_no_self_addressed(pre: Seq<ClientView>, i: int)
    requires
        no_self_addressed(pre),
        0 <= i < pre.len(),
    ensures
        no_self_addressed(
            pre.update(i, ClientView { id: pre[i].id, mailbox: Seq::<Seq<u8>>::empty() }),
        ),
{
    let post = pre.update(i, ClientView { id: pre[i].id, mailbox: Seq::<Seq<u8>>::empty() });
    assert forall|k: int, m: int|
        0 <= k < post.len() && 0 <= m < post[k].mailbox.len() implies codec::sender_of(
        post[k].mailbox[m],
    ) != post[k].id by {
        assert(k != i);
        assert(post[k] == pre[k]);
    }
}

/// A well-formed registry holds at most one session per id: two indices
/// bearing the same id are the same index.
pub proof fn lemma_no_duplicate_ids(r: &Registry, i: int, j: int)
    requires
        r.wf(),
        0 <= i < r@.len(),
        0 <= j < r@.len(),
        r@[i].id == r@[j].id,
    ensures
        i == j,
{
}

} // verus!
