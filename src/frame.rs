//! Frames on the wire: `VarInt(length) ++ VarInt(packet_id) ++ payload`,
//! where `length` counts the bytes of the packet id and the payload.
use vstd::prelude::*;
use crate::codec::{PacketDecoder, PacketEncoder};
use crate::protocol::Client;
use crate::varint::{
    DecodeError, lemma_var_at_shift, lemma_var_at_within, lemma_varint_round_trip,
    read_varint_at, varint_at, varint_bytes, write_varint,
};

verus! {

/// The frame that carries packet `id` with `payload`.
pub open spec fn frame_bytes(id: i32, payload: Seq<u8>) -> Seq<u8> {
    let body = varint_bytes(id) + payload;
    varint_bytes(body.len() as i32) + body
}

/// The head of a frame: its declared length, its packet id, and where its
/// payload starts.
pub open spec fn frame_header(f: Seq<u8>) -> Result<(i32, i32, nat), DecodeError> {
    match varint_at(f, 0) {
        Ok((len, n1)) => match varint_at(f, n1 as int) {
            Ok((id, n2)) => Ok((len, id, n1 + n2)),
            Err(e) => Err(e),
        },
        Err(e) => Err(e),
    }
}

/// Whether a frame starts `s`: `Ok(Some(m))` when the first `m` bytes are a
/// whole frame, `Ok(None)` when `s` ends before the first frame does, and
/// `Err` when the bytes cannot begin a frame.
pub open spec fn scan_frame(s: Seq<u8>) -> Result<Option<nat>, DecodeError> {
    match varint_at(s, 0) {
        Err(DecodeError::UnexpectedEnd) => Ok(None),
        Err(e) => Err(e),
        Ok((len, n1)) => {
            if len < 1 {
                Err(DecodeError::BadLength)
            } else if n1 + len > s.len() {
                Ok(None)
            } else {
                match frame_header(s.subrange(0, n1 + len)) {
                    Ok(_) => Ok(Some((n1 + len) as nat)),
                    Err(e) => Err(e),
                }
            }
        },
    }
}

/// A buffer cut into the whole frames at its start, in order, and the
/// bytes of an unfinished frame after them; or why a frame is malformed.
pub open spec fn split_batch(s: Seq<u8>) -> Result<(Seq<Seq<u8>>, Seq<u8>), DecodeError>
    decreases s.len(),
{
    if s.len() == 0 {
        Ok((Seq::empty(), Seq::empty()))
    } else {
        match scan_frame(s) {
            Err(e) => Err(e),
            Ok(None) => Ok((Seq::empty(), s)),
            Ok(Some(m)) => {
                if m == 0 || m > s.len() {
                    Ok((Seq::empty(), s))
                } else {
                    match split_batch(s.subrange(m as int, s.len() as int)) {
                        Ok((fs, rest)) => Ok((seq![s.subrange(0, m as int)] + fs, rest)),
                        Err(e) => Err(e),
                    }
                }
            },
        }
    }
}

/// `r` with the frames `fs` put in front.
pub open spec fn prepend(fs: Seq<Seq<u8>>, r: Result<(Seq<Seq<u8>>, Seq<u8>), DecodeError>) -> Result<
    (Seq<Seq<u8>>, Seq<u8>),
    DecodeError,
> {
    match r {
        Ok((gs, rest)) => Ok((fs + gs, rest)),
        Err(e) => Err(e),
    }
}

/// Whether decoder `d` holds frame `f`, with the length, id and payload
/// start that its head gives.
pub open spec fn decodes(d: PacketDecoder, f: Seq<u8>) -> bool {
    &&& d.buffer@ == f
    &&& frame_header(f) == Ok::<(i32, i32, nat), DecodeError>(
        (d.length, d.packet_id, d.pos as nat),
    )
}

impl PacketEncoder {
    /// The frame of this packet. Compression is not part of this engine:
    /// with `compressed` set no bytes are produced. Neither is the stream
    /// cipher: the engine stops at establishing the shared secret, and the
    /// frame goes out in the clear whether or not `encryption_key` is set.
    pub fn finalize(&self, compressed: bool, encryption_key: &Option<Vec<u8>>) -> (r: Vec<u8>)
        requires
            self.buffer@.len() + 5 <= i32::MAX,
        ensures
            compressed ==> r@ == Seq::<u8>::empty(),
            !compressed ==> r@ == frame_bytes(self.packet_id as i32, self.buffer@),
    {
        if compressed {
            return Vec::new();
        }
        let mut id_bytes: Vec<u8> = Vec::new();
        write_varint(&mut id_bytes, self.packet_id as i32);
        proof {
            lemma_varint_round_trip(self.packet_id as i32, Seq::empty());
            assert(id_bytes@ == varint_bytes(self.packet_id as i32));
        }
        let body_len: i32 = (self.buffer.len() + id_bytes.len()) as i32;
        let mut out: Vec<u8> = Vec::new();
        write_varint(&mut out, body_len);
        let mut payload = self.buffer.clone();
        out.append(&mut id_bytes);
        out.append(&mut payload);
        proof {
            assert(out@ == frame_bytes(self.packet_id as i32, self.buffer@));
        }
        out
    }
}

impl PacketDecoder {
    /// A decoder over `buffer`, with the frame's length and packet id read
    /// and the cursor at the start of the payload.
    pub fn new(buffer: Vec<u8>, client: &Client) -> (r: Result<PacketDecoder, DecodeError>)
        ensures
            match frame_header(buffer@) {
                Ok(_) => r matches Ok(d) && decodes(d, buffer@) && d.buffer == buffer,
                Err(e) => r == Err::<PacketDecoder, DecodeError>(e),
            },
    {
        let (length, n1) = match read_varint_at(buffer.as_slice(), 0) {
            Ok(v) => v,
            Err(e) => return Err(e),
        };
        let (packet_id, n2) = match read_varint_at(buffer.as_slice(), n1) {
            Ok(v) => v,
            Err(e) => return Err(e),
        };
        Ok(PacketDecoder { buffer, packet_id, length, pos: n1 + n2 })
    }

    /// Cuts a buffer of back-to-back frames into one decoder per whole
    /// frame, in order, and hands back the bytes of an unfinished last frame,
    /// to be put in front of the next read.
    pub fn new_batch(buffer: Vec<u8>, client: &Client) -> (r: Result<
        (Vec<PacketDecoder>, Vec<u8>),
        DecodeError,
    >)
        ensures
            match split_batch(buffer@) {
                Ok((frames, rest)) => r matches Ok((ds, left)) && left@ == rest && ds@.len()
                    == frames.len() && forall|k: int|
                    0 <= k < frames.len() ==> #[trigger] decodes(ds@[k], frames[k]),
                Err(e) => r == Err::<(Vec<PacketDecoder>, Vec<u8>), DecodeError>(e),
            },
    {
        let ghost s = buffer@;
        let ghost mut frames: Seq<Seq<u8>> = Seq::empty();
        let mut ds: Vec<PacketDecoder> = Vec::new();
        let mut p: usize = 0;
        let len = buffer.len();
        proof {
            assert(s.subrange(0, len as int) == s);
            match split_batch(s) {
                Ok((gs, rest)) => {
                    assert(frames + gs == gs);
                },
                Err(_) => {},
            }
        }
        loop
            invariant
                s == buffer@,
                len == s.len(),
                p <= len,
                split_batch(s) == prepend(frames, split_batch(s.subrange(p as int, len as int))),
                ds@.len() == frames.len(),
                forall|k: int| 0 <= k < frames.len() ==> #[trigger] decodes(ds@[k], frames[k]),
            decreases len - p,
        {
            let ghost t = s.subrange(p as int, len as int);
            proof {
                assert(s == s.subrange(0, p as int) + t);
                lemma_var_at_shift(s.subrange(0, p as int), t, 0, 5);
                lemma_var_at_within(s, p as int, 5);
            }
            if p == len {
                assert(frames + Seq::<Seq<u8>>::empty() == frames);
                return Ok((ds, Vec::new()));
            }
            let (flen, n1) = match read_varint_at(buffer.as_slice(), p) {
                Ok(v) => v,
                Err(DecodeError::UnexpectedEnd) => {
                    let left = vstd::slice::slice_to_vec(&buffer.as_slice()[p..len]);
                    assert(frames + Seq::<Seq<u8>>::empty() == frames);
                    return Ok((ds, left));
                },
                Err(e) => return Err(e),
            };
            if flen < 1 {
                return Err(DecodeError::BadLength);
            }
            if flen as usize > len - p - n1 {
                let left = vstd::slice::slice_to_vec(&buffer.as_slice()[p..len]);
                assert(frames + Seq::<Seq<u8>>::empty() == frames);
                return Ok((ds, left));
            }
            let m: usize = n1 + flen as usize;
            let f = vstd::slice::slice_to_vec(&buffer.as_slice()[p..p + m]);
            assert(f@ == t.subrange(0, m as int));
            let d = match PacketDecoder::new(f, client) {
                Ok(d) => d,
                Err(e) => return Err(e),
            };
            proof {
                assert(t.subrange(m as int, t.len() as int) == s.subrange((p + m) as int, len as int));
                assert(frames.push(f@) + Seq::<Seq<u8>>::empty() == frames.push(f@));
                let later = split_batch(s.subrange((p + m) as int, len as int));
                match later {
                    Ok((fs, rest)) => {
                        assert(frames + (seq![f@] + fs) == frames.push(f@) + fs);
                    },
                    Err(_) => {},
                }
                frames = frames.push(d.buffer@);
            }
            ds.push(d);
            p = p + m;
        }
    }
}

/// Reading the head of the frame of `id` and `payload` gives back the body's
/// length, `id`, and a payload start after which exactly `payload` stands;
/// and the frame is recognised as whole at the start of any buffer it
/// begins, whatever follows it.
pub proof fn lemma_frame_round_trip(id: i32, payload: Seq<u8>, rest: Seq<u8>)
    requires
        payload.len() + 5 <= i32::MAX,
    ensures
        ({
            let f = frame_bytes(id, payload);
            let body_len = varint_bytes(id).len() + payload.len();
            let start = varint_bytes(body_len as i32).len() + varint_bytes(id).len();
            &&& frame_header(f) == Ok::<(i32, i32, nat), DecodeError>(
                (body_len as i32, id, start as nat),
            )
            &&& f.subrange(start as int, f.len() as int) == payload
            &&& scan_frame(f + rest) == Ok::<Option<nat>, DecodeError>(Some(f.len()))
        }),
{
    let body = varint_bytes(id) + payload;
    let f = frame_bytes(id, payload);
    lemma_varint_round_trip(id, payload);
    let len = body.len() as i32;
    let lb = varint_bytes(len);
    lemma_varint_round_trip(len, body);
    assert(f == lb + body);
    lemma_var_at_shift(lb, body, 0, 5);
    assert(f.subrange((lb.len() + varint_bytes(id).len()) as int, f.len() as int) == payload);
    let g = f + rest;
    lemma_varint_round_trip(len, body + rest);
    assert(g == lb + (body + rest));
    assert(g.subrange(0, f.len() as int) == f);
}

/// Splitting a buffer that starts with a whole frame yields that frame
/// first, then whatever splitting the remaining bytes yields.
pub proof fn lemma_split_frame_then(id: i32, payload: Seq<u8>, rest: Seq<u8>)
    requires
        payload.len() + 5 <= i32::MAX,
    ensures
        split_batch(frame_bytes(id, payload) + rest) == prepend(
            seq![frame_bytes(id, payload)],
            split_batch(rest),
        ),
{
    let f = frame_bytes(id, payload);
    let s = f + rest;
    lemma_frame_round_trip(id, payload, rest);
    lemma_varint_round_trip(id, payload);
    assert(s.subrange(f.len() as int, s.len() as int) == rest);
    assert(s.subrange(0, f.len() as int) == f);
}

/// The frames of the packets `ids` with `payloads`, in order.
pub open spec fn frames_of(ids: Seq<i32>, payloads: Seq<Seq<u8>>) -> Seq<Seq<u8>> {
    Seq::new(ids.len(), |k: int| frame_bytes(ids[k], payloads[k]))
}

/// The byte sequences of `fs`, back to back.
pub open spec fn concat_all(fs: Seq<Seq<u8>>) -> Seq<u8>
    decreases fs.len(),
{
    if fs.len() == 0 {
        Seq::empty()
    } else {
        fs[0] + concat_all(fs.drop_first())
    }
}

/// A buffer holding any number of whole frames back to back splits into
/// exactly those frames, in order, with no bytes left over; by
/// `lemma_frame_round_trip` each of them reads back as its own packet id and
/// payload.
pub proof fn lemma_back_to_back_frames(ids: Seq<i32>, payloads: Seq<Seq<u8>>)
    requires
        ids.len() == payloads.len(),
        forall|k: int| 0 <= k < payloads.len() ==> #[trigger] payloads[k].len() + 5 <= i32::MAX,
    ensures
        split_batch(concat_all(frames_of(ids, payloads))) == Ok::<
            (Seq<Seq<u8>>, Seq<u8>),
            DecodeError,
        >((frames_of(ids, payloads), Seq::empty())),
    decreases ids.len(),
{
    let fs = frames_of(ids, payloads);
    if ids.len() == 0 {
        assert(concat_all(fs) == Seq::<u8>::empty());
        assert(fs == Seq::<Seq<u8>>::empty());
    } else {
        let ids2 = ids.drop_first();
        let ps2 = payloads.drop_first();
        assert forall|k: int| 0 <= k < ps2.len() implies #[trigger] ps2[k].len() + 5 <= i32::MAX by {
            assert(ps2[k] == payloads[k + 1]);
        }
        lemma_back_to_back_frames(ids2, ps2);
        assert(fs.drop_first() == frames_of(ids2, ps2));
        assert(payloads[0].len() + 5 <= i32::MAX);
        lemma_split_frame_then(ids[0], payloads[0], concat_all(fs.drop_first()));
        assert(seq![fs[0]] + frames_of(ids2, ps2) == fs);
    }
}

/// A buffer holding two whole frames back to back splits into exactly those
/// two frames, in order, with no bytes left over; each of them reads back as
/// its own packet id and payload.
pub proof fn lemma_two_frames_split(id1: i32, payload1: Seq<u8>, id2: i32, payload2: Seq<u8>)
    requires
        payload1.len() + 5 <= i32::MAX,
        payload2.len() + 5 <= i32::MAX,
    ensures
        split_batch(frame_bytes(id1, payload1) + frame_bytes(id2, payload2)) == Ok::<
            (Seq<Seq<u8>>, Seq<u8>),
            DecodeError,
        >((seq![frame_bytes(id1, payload1), frame_bytes(id2, payload2)], Seq::empty())),
{
    let f1 = frame_bytes(id1, payload1);
    let f2 = frame_bytes(id2, payload2);
    lemma_split_frame_then(id1, payload1, f2);
    lemma_split_frame_then(id2, payload2, Seq::empty());
    assert(f2 + Seq::<u8>::empty() == f2);
    assert(seq![f2] + Seq::<Seq<u8>>::empty() == seq![f2]);
    assert(seq![f1] + seq![f2] == seq![f1, f2]);
}

} // verus!
