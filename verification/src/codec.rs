use vstd::arithmetic::div_mod::lemma_div_denominator;
use vstd::arithmetic::div_mod::lemma_fundamental_div_mod;
use vstd::prelude::*;

use crate::errors::ErrorKind;

verus! {

/// Largest serialized session payload accepted on the wire, in bytes.
pub const MAX_SESSION_PAYLOAD: usize = 2048;

/// Largest serialized presence payload accepted on the wire, in bytes.
pub const MAX_SIGNAL_PAYLOAD: usize = 64;

/// A signaling payload: an SDP blob, a trickled ICE candidate blob, or both.
/// The blobs themselves are opaque to the core; the media stack produces and
/// consumes them.
#[derive(Debug)]
pub struct Session {
    pub ice_candidate: Option<Vec<u8>>,
    pub sdp: Option<Vec<u8>>,
}

/// The mathematical content of a [`Session`].
pub struct SessionV {
    pub ice_candidate: Option<Seq<u8>>,
    pub sdp: Option<Seq<u8>>,
}

impl View for Session {
    type V = SessionV;

    open spec fn view(&self) -> SessionV {
        SessionV {
            ice_candidate: match self.ice_candidate {
                Some(ref b) => Some(b@),
                None => None,
            },
            sdp: match self.sdp {
                Some(ref b) => Some(b@),
                None => None,
            },
        }
    }
}

impl SessionV {
    /// At least one of the two fields is populated.
    pub open spec fn wf(&self) -> bool {
        self.ice_candidate is Some || self.sdp is Some
    }
}

impl Session {
    pub open spec fn wf(&self) -> bool {
        self@.wf()
    }
}

/// A four-byte little-endian rendering of a 32-bit length.
pub open spec fn enc_u32_le(n: u32) -> Seq<u8> {
    seq![
        (n as int % 256) as u8,
        (n as int / 256 % 256) as u8,
        (n as int / 65536 % 256) as u8,
        (n as int / 16777216 % 256) as u8,
    ]
}

/// The value four little-endian bytes stand for.
pub open spec fn dec_u32_le(b: Seq<u8>) -> int
    recommends
        b.len() == 4,
{
    b[0] + 256 * b[1] + 65536 * b[2] + 16777216 * b[3]
}

/// Reading the four bytes back gives the length they were written from.
pub proof fn lemma_dec_enc_u32(n: u32)
    ensures
        dec_u32_le(enc_u32_le(n)) == n,
{
    let a = n as int;
    lemma_fundamental_div_mod(a, 256);
    lemma_fundamental_div_mod(a / 256, 256);
    lemma_div_denominator(a, 256, 256);
    lemma_fundamental_div_mod(a / 65536, 256);
    lemma_div_denominator(a, 65536, 256);
    assert(a / 16777216 < 256) by {
        assert(a < 4294967296);
    }
    assert(a == a % 256 + 256 * (a / 256 % 256) + 65536 * (a / 65536 % 256) + 16777216 * (a
        / 16777216));
}

/// An optional blob on the wire: a presence tag, then for a populated blob a
/// little-endian length and the bytes themselves.
pub open spec fn enc_opt_bytes(o: Option<Seq<u8>>) -> Seq<u8> {
    match o {
        None => seq![0u8],
        Some(b) => seq![1u8] + enc_u32_le(b.len() as u32) + b,
    }
}

/// Decodes one optional blob from the front; yields the blob and the rest.
pub open spec fn dec_opt_bytes(b: Seq<u8>) -> Option<(Option<Seq<u8>>, Seq<u8>)> {
    if b.len() < 1 {
        None
    } else if b[0] == 0 {
        Some((None, b.drop_first()))
    } else if b[0] == 1 && b.len() >= 5 {
        let n = dec_u32_le(b.subrange(1, 5));
        if 5 + n <= b.len() {
            Some((Some(b.subrange(5, 5 + n)), b.skip(5 + n)))
        } else {
            None
        }
    } else {
        None
    }
}

/// The stable binary encoding of a session payload: the candidate blob, then
/// the SDP blob.
pub open spec fn enc_session(v: SessionV) -> Seq<u8> {
    enc_opt_bytes(v.ice_candidate) + enc_opt_bytes(v.sdp)
}

/// Decodes a session payload.  Rejects payloads over [`MAX_SESSION_PAYLOAD`]
/// bytes, trailing garbage, and a payload with neither field populated.
pub open spec fn dec_session(b: Seq<u8>) -> Option<SessionV> {
    if b.len() > MAX_SESSION_PAYLOAD {
        None
    } else {
        match dec_opt_bytes(b) {
            None => None,
            Some((cand, rest)) => match dec_opt_bytes(rest) {
                None => None,
                Some((sdp, rest2)) => if rest2.len() == 0 && (cand is Some || sdp is Some) {
                    Some(SessionV { ice_candidate: cand, sdp: sdp })
                } else {
                    None
                },
            },
        }
    }
}

/// Decoding inverts encoding for one optional blob, whatever follows it.
pub proof fn lemma_dec_enc_opt_bytes(o: Option<Seq<u8>>, rest: Seq<u8>)
    requires
        o matches Some(d) ==> d.len() < 4294967296,
    ensures
        dec_opt_bytes(enc_opt_bytes(o) + rest) matches Some(p) && p.0 == o && p.1 == rest,
{
    let b = enc_opt_bytes(o) + rest;
    match o {
        None => {
            assert(b[0] == 0);
            assert(b.drop_first() =~= rest);
        },
        Some(d) => {
            let n = d.len() as u32;
            assert(b[0] == 1);
            assert(b.len() == 5 + d.len() + rest.len());
            assert(b.subrange(1, 5) =~= enc_u32_le(n));
            lemma_dec_enc_u32(n);
            assert(dec_u32_le(b.subrange(1, 5)) == d.len());
            assert(b.subrange(5, 5 + d.len() as int) =~= d);
            assert(b.skip(5 + d.len() as int) =~= rest);
        },
    }
}

/// Round trip of the session codec: every well-formed session payload that
/// fits the wire bound decodes to exactly the value it was encoded from.
pub proof fn lemma_session_round_trip(v: SessionV)
    requires
        v.wf(),
        enc_session(v).len() <= MAX_SESSION_PAYLOAD,
    ensures
        dec_session(enc_session(v)) == Some(v),
{
    let b = enc_session(v);
    match v.ice_candidate {
        Some(d) => assert(d.len() < 4294967296),
        None => (),
    }
    match v.sdp {
        Some(d) => assert(d.len() < 4294967296),
        None => (),
    }
    lemma_dec_enc_opt_bytes(v.ice_candidate, enc_opt_bytes(v.sdp));
    lemma_dec_enc_opt_bytes(v.sdp, Seq::<u8>::empty());
    assert(enc_opt_bytes(v.sdp) + Seq::<u8>::empty() =~= enc_opt_bytes(v.sdp));
    assert(dec_session(b) == Some(SessionV { ice_candidate: v.ice_candidate, sdp: v.sdp }));
    assert(SessionV { ice_candidate: v.ice_candidate, sdp: v.sdp } == v);
}

/// Appends the little-endian rendering of `n`.
fn append_u32_le(out: &mut Vec<u8>, n: u32)
    ensures
        final(out)@ == old(out)@ + enc_u32_le(n),
{
    let ghost prev = out@;
    out.push((n % 256) as u8);
    out.push((n / 256 % 256) as u8);
    out.push((n / 65536 % 256) as u8);
    out.push((n / 16777216 % 256) as u8);
    proof {
        assert(out@ =~= prev + enc_u32_le(n));
    }
}

/// Appends all bytes of `src`.
fn append_bytes(out: &mut Vec<u8>, src: &Vec<u8>)
    ensures
        final(out)@ == old(out)@ + src@,
{
    let ghost prev = out@;
    let mut i: usize = 0;
    while i < src.len()
        invariant
            0 <= i <= src@.len(),
            out@ == prev + src@.take(i as int),
        decreases src@.len() - i,
    {
        out.push(src[i]);
        proof {
            assert(prev + src@.take(i + 1) =~= (prev + src@.take(i as int)).push(
                src@[i as int],
            ));
        }
        i = i + 1;
    }
    proof {
        assert(src@.take(src@.len() as int) =~= src@);
    }
}

/// Appends one optional blob in its wire form.
fn append_opt_bytes(out: &mut Vec<u8>, o: &Option<Vec<u8>>)
    requires
        o matches Some(d) ==> d@.len() < 4294967296,
    ensures
        final(out)@ == old(out)@ + enc_opt_bytes(match o {
            Some(ref d) => Some(d@),
            None => None,
        }),
{
    let ghost prev = out@;
    match o {
        None => {
            out.push(0u8);
            proof {
                assert(out@ =~= prev + enc_opt_bytes(None::<Seq<u8>>));
            }
        },
        Some(d) => {
            out.push(1u8);
            append_u32_le(out, d.len() as u32);
            append_bytes(out, d);
            proof {
                assert(out@ =~= prev + enc_opt_bytes(Some(d@)));
            }
        },
    }
}

/// Serializes a session payload into its stable binary encoding.
///
/// Succeeds exactly when the payload is well-formed (at least one field
/// populated) and its encoding fits the wire bound.
pub fn encode_session(s: &Session) -> (r: Result<Vec<u8>, ErrorKind>)
    ensures
        r matches Ok(v) ==> s.wf() && v@ == enc_session(s@) && v@.len() <= MAX_SESSION_PAYLOAD,
        r matches Err(e) ==> e == ErrorKind::BadPayload && (!s.wf() || enc_session(s@).len()
            > MAX_SESSION_PAYLOAD),
{
    let cand_len: usize = match &s.ice_candidate {
        None => 1,
        Some(d) => {
            if d.len() > MAX_SESSION_PAYLOAD {
                return Err(ErrorKind::BadPayload);
            }
            5 + d.len()
        },
    };
    let sdp_len: usize = match &s.sdp {
        None => 1,
        Some(d) => {
            if d.len() > MAX_SESSION_PAYLOAD {
                return Err(ErrorKind::BadPayload);
            }
            5 + d.len()
        },
    };
    if cand_len + sdp_len > MAX_SESSION_PAYLOAD {
        return Err(ErrorKind::BadPayload);
    }
    if s.ice_candidate.is_none() && s.sdp.is_none() {
        return Err(ErrorKind::BadPayload);
    }
    let mut out: Vec<u8> = Vec::new();
    append_opt_bytes(&mut out, &s.ice_candidate);
    append_opt_bytes(&mut out, &s.sdp);
    proof {
        assert(out@ =~= enc_session(s@));
    }
    Ok(out)
}

/// Reads one optional blob starting at `i`; on success returns the blob and
/// the position just past it.
fn decode_opt_bytes_at(bytes: &Vec<u8>, i: usize) -> (r: Result<(Option<Vec<u8>>, usize), ErrorKind>)
    requires
        i <= bytes@.len(),
    ensures
        r matches Ok(p) ==> {
            &&& i < p.1 <= bytes@.len()
            &&& dec_opt_bytes(bytes@.skip(i as int)) matches Some(q) && q.0 == (match p.0 {
                Some(ref d) => Some(d@),
                None => None::<Seq<u8>>,
            }) && q.1 == bytes@.skip(p.1 as int)
        },
        r matches Err(e) ==> e == ErrorKind::BadPayload && dec_opt_bytes(bytes@.skip(i as int))
            is None,
{
    let ghost tail = bytes@.skip(i as int);
    if i >= bytes.len() {
        return Err(ErrorKind::BadPayload);
    }
    let tag = bytes[i];
    proof {
        assert(tail[0] == bytes@[i as int]);
    }
    if tag == 0 {
        proof {
            assert(tail.drop_first() =~= bytes@.skip(i + 1));
        }
        Ok((None, i + 1))
    } else if tag == 1 {
        if bytes.len() - i < 5 {
            return Err(ErrorKind::BadPayload);
        }
        let b0 = bytes[i + 1];
        let b1 = bytes[i + 2];
        let b2 = bytes[i + 3];
        let b3 = bytes[i + 4];
        let n: usize = b0 as usize + 256 * (b1 as usize) + 65536 * (b2 as usize) + 16777216 * (
        b3 as usize);
        proof {
            assert(tail.subrange(1, 5) =~= seq![
                bytes@[i + 1],
                bytes@[i + 2],
                bytes@[i + 3],
                bytes@[i + 4],
            ]);
            assert(dec_u32_le(tail.subrange(1, 5)) == n);
        }
        if n > bytes.len() - i - 5 {
            proof {
                assert(5 + dec_u32_le(tail.subrange(1, 5)) > tail.len());
            }
            return Err(ErrorKind::BadPayload);
        }
        let start = i + 5;
        let mut payload: Vec<u8> = Vec::new();
        let mut k: usize = 0;
        while k < n
            invariant
                0 <= k <= n,
                start + n <= bytes@.len(),
                bytes@.len() <= usize::MAX,
                payload@ == bytes@.subrange(start as int, start + k),
            decreases n - k,
        {
            payload.push(bytes[start + k]);
            proof {
                assert(bytes@.subrange(start as int, start + k + 1) =~= bytes@.subrange(
                    start as int,
                    start + k,
                ).push(bytes@[start + k]));
            }
            k = k + 1;
        }
        proof {
            assert(tail.subrange(5, 5 + n) =~= bytes@.subrange(start as int, start + n));
            assert(tail.skip(5 + n) =~= bytes@.skip(start + n));
        }
        Ok((Some(payload), start + n))
    } else {
        Err(ErrorKind::BadPayload)
    }
}

/// Parses a session payload from its stable binary encoding.
///
/// Accepts exactly the encodings that [`dec_session`] accepts: payloads up to
/// [`MAX_SESSION_PAYLOAD`] bytes with no trailing bytes and at least one
/// populated field; everything else is `BadPayload`.
pub fn decode_session(bytes: &Vec<u8>) -> (r: Result<Session, ErrorKind>)
    ensures
        r matches Ok(s) ==> dec_session(bytes@) == Some(s@) && s.wf(),
        r matches Err(e) ==> e == ErrorKind::BadPayload && dec_session(bytes@) is None,
{
    if bytes.len() > MAX_SESSION_PAYLOAD {
        return Err(ErrorKind::BadPayload);
    }
    proof {
        assert(bytes@.skip(0) =~= bytes@);
    }
    let (cand, j) = match decode_opt_bytes_at(bytes, 0) {
        Ok(p) => p,
        Err(e) => {
            return Err(e);
        },
    };
    let (sdp, k) = match decode_opt_bytes_at(bytes, j) {
        Ok(p) => p,
        Err(e) => {
            return Err(e);
        },
    };
    if k != bytes.len() {
        proof {
            assert(bytes@.skip(k as int).len() > 0);
        }
        return Err(ErrorKind::BadPayload);
    }
    if cand.is_none() && sdp.is_none() {
        return Err(ErrorKind::BadPayload);
    }
    proof {
        assert(bytes@.skip(k as int).len() == 0);
    }
    Ok(Session { ice_candidate: cand, sdp: sdp })
}

} // verus!
