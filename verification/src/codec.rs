//! Binary frame codec for the typed wire scheme.
//!
//! Every frame begins with a 4-byte little-endian type tag. A relayed data
//! frame (tag 0) carries the 36-byte ASCII sender id followed by the
//! original payload; a departure notice (tag 2) carries the bare 36-byte
//! ASCII id of the departed session.

use vstd::prelude::*;

verus! {

/// Wire type tag of a relayed data frame.
pub const FRAME_TYPE_DATA: u32 = 0;

/// Wire type tag of a departure notice.
pub const FRAME_TYPE_DEPARTURE: u32 = 2;

/// Byte length of the canonical textual session identifier.
pub const ID_LEN: usize = 36;

/// Byte length of the type tag that leads every frame.
pub const HEADER_LEN: usize = 4;

/// The little-endian 4-byte encoding of a 32-bit value.
pub open spec fn u32_le(v: u32) -> Seq<u8> {
    seq![
        (v % 256) as u8,
        ((v / 256) % 256) as u8,
        ((v / 65536) % 256) as u8,
        ((v / 16777216) % 256) as u8,
    ]
}

/// The 32-bit value read little-endian from a 4-byte sequence.
pub open spec fn u32_of_le(b: Seq<u8>) -> u32
    recommends
        b.len() == 4,
{
    (b[0] + b[1] * 256 + b[2] * 65536 + b[3] * 16777216) as u32
}

/// A frame with the sender's id spliced in directly after the type tag.
pub open spec fn stamped(frame: Seq<u8>, sender: Seq<u8>) -> Seq<u8> {
    frame.subrange(0, HEADER_LEN as int) + sender + frame.skip(HEADER_LEN as int)
}

/// The id field of a stamped or departure frame: the 36 bytes after the tag.
pub open spec fn sender_of(frame: Seq<u8>) -> Seq<u8> {
    frame.subrange(HEADER_LEN as int, (HEADER_LEN + ID_LEN) as int)
}

/// The complete wire encoding of a departure notice for `id`.
pub open spec fn departure_frame(id: Seq<u8>) -> Seq<u8> {
    u32_le(FRAME_TYPE_DEPARTURE) + id
}

fn copy_range(bytes: &Vec<u8>, from: usize, to: usize) -> (r: Vec<u8>)
    requires
        from <= to <= bytes@.len(),
    ensures
        r@ == bytes@.subrange(from as int, to as int),
{
    let mut r: Vec<u8> = Vec::new();
    let mut i: usize = from;
    while i < to
        invariant
            from <= i <= to <= bytes@.len(),
            r@ == bytes@.subrange(from as int, i as int),
        decreases to - i,
    {
        r.push(bytes[i]);
        i = i + 1;
        proof {
            assert(r@ =~= bytes@.subrange(from as int, i as int));
        }
    }
    r
}

fn u32_to_le_vec(v: u32) -> (r: Vec<u8>)
    ensures
        r@ == u32_le(v),
{
    let mut r: Vec<u8> = Vec::new();
    r.push((v % 256) as u8);
    r.push(((v / 256) % 256) as u8);
    r.push(((v / 65536) % 256) as u8);
    r.push(((v / 16777216) % 256) as u8);
    proof {
        assert(r@ =~= u32_le(v));
    }
    r
}

fn read_frame_type(bytes: &Vec<u8>) -> (t: u32)
    requires
        bytes@.len() >= 4,
    ensures
        t == u32_of_le(bytes@.subrange(0, 4)),
{
    let b0 = bytes[0] as u32;
    let b1 = bytes[1] as u32;
    let b2 = bytes[2] as u32;
    let b3 = bytes[3] as u32;
    b0 + b1 * 256 + b2 * 65536 + b3 * 16777216
}

/// Splices the sender's 36-byte id into a frame directly after its 4-byte
/// type tag, so a recipient can attribute the update without a lookup.
/// Returns `None` (the frame is dropped) when the frame has no complete tag
/// or the id is not exactly 36 bytes.
pub fn stamp_with_sender(frame: &Vec<u8>, sender_id: &Vec<u8>) -> (r: Option<Vec<u8>>)
    ensures
        r is Some <==> (frame@.len() >= HEADER_LEN && sender_id@.len() == ID_LEN),
        r matches Some(f) ==> f@ == stamped(frame@, sender_id@),
{
    if sender_id.len() != ID_LEN {
        return None;
    }
    if frame.len() < HEADER_LEN {
        return None;
    }
    let mut out = copy_range(frame, 0, HEADER_LEN);
    let mut id_part = copy_range(sender_id, 0, ID_LEN);
    let mut rest = copy_range(frame, HEADER_LEN, frame.len());
    out.append(&mut id_part);
    out.append(&mut rest);
    proof {
        assert(sender_id@.subrange(0, ID_LEN as int) =~= sender_id@);
        assert(frame@.subrange(HEADER_LEN as int, frame@.len() as int) =~= frame@.skip(
            HEADER_LEN as int,
        ));
    }
    Some(out)
}

/// Encodes a departure notice: the type-2 tag followed by the bare 36-byte
/// id. Returns `None` (the notification is aborted) when the id is not
/// exactly 36 bytes; this cannot happen for correctly generated ids.
pub fn encode_departure(id: &Vec<u8>) -> (r: Option<Vec<u8>>)
    ensures
        r is Some <==> id@.len() == ID_LEN,
        r matches Some(f) ==> f@ == departure_frame(id@),
{
    if id.len() != ID_LEN {
        return None;
    }
    let mut out = u32_to_le_vec(FRAME_TYPE_DEPARTURE);
    let mut id_part = copy_range(id, 0, ID_LEN);
    out.append(&mut id_part);
    proof {
        assert(id@.subrange(0, ID_LEN as int) =~= id@);
    }
    Some(out)
}

/// A decoded frame, as a recipient of the relay sees it.
pub enum Frame {
    /// A relayed data update, attributed to the session that sent it.
    Data { sender: Vec<u8>, payload: Vec<u8> },
    /// Notice that the session with this id has disconnected.
    Departure { id: Vec<u8> },
}

/// The mathematical shape of a decoded frame.
pub ghost enum FrameView {
    Data { sender: Seq<u8>, payload: Seq<u8> },
    Departure { id: Seq<u8> },
}

impl View for Frame {
    type V = FrameView;

    open spec fn view(&self) -> FrameView {
        match self {
            Frame::Data { sender, payload } => FrameView::Data {
                sender: sender@,
                payload: payload@,
            },
            Frame::Departure { id } => FrameView::Departure { id: id@ },
        }
    }
}

/// What a byte buffer decodes to: `None` for anything that violates the
/// typed scheme's length rules or carries an unknown tag.
pub open spec fn decoded(bytes: Seq<u8>) -> Option<FrameView> {
    if bytes.len() < HEADER_LEN {
        None
    } else {
        let t = u32_of_le(bytes.subrange(0, HEADER_LEN as int));
        if t == FRAME_TYPE_DATA && bytes.len() >= HEADER_LEN + ID_LEN {
            Some(
                FrameView::Data {
                    sender: sender_of(bytes),
                    payload: bytes.skip((HEADER_LEN + ID_LEN) as int),
                },
            )
        } else if t == FRAME_TYPE_DEPARTURE && bytes.len() == HEADER_LEN + ID_LEN {
            Some(FrameView::Departure { id: sender_of(bytes) })
        } else {
            None
        }
    }
}

/// Decodes a buffer against the typed scheme. Returns `None` exactly when
/// the buffer violates the scheme's length rules or carries an unknown tag.
pub fn decode_frame(bytes: &Vec<u8>) -> (r: Option<Frame>)
    ensures
        r is Some <==> decoded(bytes@) is Some,
        r matches Some(f) ==> Some(f@) == decoded(bytes@),
{
    if bytes.len() < HEADER_LEN {
        return None;
    }
    let t = read_frame_type(bytes);
    if t == FRAME_TYPE_DATA && bytes.len() >= HEADER_LEN + ID_LEN {
        let sender = copy_range(bytes, HEADER_LEN, HEADER_LEN + ID_LEN);
        let payload = copy_range(bytes, HEADER_LEN + ID_LEN, bytes.len());
        proof {
            assert(bytes@.subrange((HEADER_LEN + ID_LEN) as int, bytes@.len() as int)
                =~= bytes@.skip((HEADER_LEN + ID_LEN) as int));
        }
        Some(Frame::Data { sender, payload })
    } else if t == FRAME_TYPE_DEPARTURE && bytes.len() == HEADER_LEN + ID_LEN {
        let id = copy_range(bytes, HEADER_LEN, HEADER_LEN + ID_LEN);
        Some(Frame::Departure { id })
    } else {
        None
    }
}

/// Stamping never mis-attributes: the id field of a stamped frame is the
/// sender's id, the tag is the original tag, and the remainder is the
/// original payload.
pub proof fn lemma_stamp_attributes_sender(frame: Seq<u8>, sender: Seq<u8>)
    requires
        frame.len() >= HEADER_LEN,
        sender.len() == ID_LEN,
    ensures
        sender_of(stamped(frame, sender)) == sender,
        stamped(frame, sender).subrange(0, HEADER_LEN as int) == frame.subrange(
            0,
            HEADER_LEN as int,
        ),
        stamped(frame, sender).skip((HEADER_LEN + ID_LEN) as int) == frame.skip(HEADER_LEN as int),
{
    assert(sender_of(stamped(frame, sender)) =~= sender);
    assert(stamped(frame, sender).subrange(0, HEADER_LEN as int) =~= frame.subrange(
        0,
        HEADER_LEN as int,
    ));
    assert(stamped(frame, sender).skip((HEADER_LEN + ID_LEN) as int) =~= frame.skip(
        HEADER_LEN as int,
    ));
}

/// A stamped data frame decodes to a data frame that attributes exactly the
/// sender who was stamped in, with the original payload.
pub proof fn lemma_decode_stamped(frame: Seq<u8>, sender: Seq<u8>)
    requires
        frame.len() >= HEADER_LEN,
        sender.len() == ID_LEN,
        u32_of_le(frame.subrange(0, HEADER_LEN as int)) == FRAME_TYPE_DATA,
    ensures
        decoded(stamped(frame, sender)) == Some(
            FrameView::Data { sender, payload: frame.skip(HEADER_LEN as int) },
        ),
{
    lemma_stamp_attributes_sender(frame, sender);
}

/// Round trip: decoding an encoded departure notice recovers the departed
/// id exactly, for any well-formed 36-byte id.
pub proof fn lemma_departure_round_trip(id: Seq<u8>)
    requires
        id.len() == ID_LEN,
    ensures
        decoded(departure_frame(id)) == Some(FrameView::Departure { id }),
{
    let f = departure_frame(id);
    assert(f.subrange(0, HEADER_LEN as int) =~= u32_le(FRAME_TYPE_DEPARTURE));
    assert(u32_le(FRAME_TYPE_DEPARTURE) =~= seq![2u8, 0u8, 0u8, 0u8]);
    assert(u32_of_le(seq![2u8, 0u8, 0u8, 0u8]) == FRAME_TYPE_DEPARTURE);
    assert(sender_of(f) =~= id);
}

} // verus!
