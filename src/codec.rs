//! Fixed-size framing: a payload right-padded with zero bytes up to the
//! frame size, and the payload recovered by taking the bytes before the
//! first zero byte.
use vstd::prelude::*;

verus! {

/// Why a frame could not be produced or read.
#[derive(Debug, Clone, Copy, PartialEq, Eq, Structural)]
pub enum FrameError {
    /// Fewer bytes than one frame were available.
    Truncated,
    /// The payload is not valid UTF-8 or not a well-formed record.
    Malformed,
    /// The payload does not fit in one frame.
    TooLarge,
}

/// `n` zero bytes.
pub open spec fn zeros(n: nat) -> Seq<u8> {
    Seq::new(n, |i: int| 0u8)
}

/// No byte of `s` is zero.
pub open spec fn zero_free(s: Seq<u8>) -> bool {
    forall|i: int| 0 <= i < s.len() ==> s[i] != 0u8
}

/// `p` is the part of `f` before its first zero byte (all of `f` if it has none).
pub open spec fn is_payload(f: Seq<u8>, p: Seq<u8>) -> bool {
    &&& p.len() <= f.len()
    &&& p == f.take(p.len() as int)
    &&& zero_free(p)
    &&& (p.len() == f.len() || f[p.len() as int] == 0u8)
}

/// The frame that carries `p` in `size` bytes.
pub open spec fn padded(p: Seq<u8>, size: nat) -> Seq<u8> {
    p + zeros((size - p.len()) as nat)
}

/// Right-pads `payload` with zero bytes up to `frame_size`. A payload longer
/// than a frame is refused rather than cut, and one holding a zero byte is
/// refused because its end could not be found again.
pub fn pad_frame(payload: &[u8], frame_size: usize) -> (r: Result<Vec<u8>, FrameError>)
    ensures
        payload@.len() > frame_size <==> r == Err::<Vec<u8>, FrameError>(FrameError::TooLarge),
        payload@.len() <= frame_size && !zero_free(payload@) <==> r == Err::<Vec<u8>, FrameError>(
            FrameError::Malformed,
        ),
        r is Ok <==> payload@.len() <= frame_size && zero_free(payload@),
        r matches Ok(f) ==> f@ == padded(payload@, frame_size as nat),
{
    if payload.len() > frame_size {
        return Err(FrameError::TooLarge);
    }
    let mut j: usize = 0;
    while j < payload.len()
        invariant
            j <= payload@.len() <= frame_size,
            zero_free(payload@.take(j as int)),
        decreases payload@.len() - j,
    {
        if payload[j] == 0u8 {
            assert(payload@[j as int] == 0u8);
            return Err(FrameError::Malformed);
        }
        j = j + 1;
        assert(zero_free(payload@.take(j as int)));
    }
    assert(payload@.take(j as int) =~= payload@);
    let mut f: Vec<u8> = Vec::with_capacity(frame_size);
    let mut i: usize = 0;
    while i < payload.len()
        invariant
            i <= payload@.len() <= frame_size,
            f@ == payload@.take(i as int),
        decreases payload@.len() - i,
    {
        f.push(payload[i]);
        i = i + 1;
        assert(f@ =~= payload@.take(i as int));
    }
    while i < frame_size
        invariant
            payload@.len() <= i <= frame_size,
            f@ == padded(payload@, i as nat),
        decreases frame_size - i,
    {
        f.push(0u8);
        i = i + 1;
        assert(f@ =~= padded(payload@, i as nat));
    }
    assert(payload@.take(payload@.len() as int) =~= payload@);
    assert(f@ =~= padded(payload@, frame_size as nat));
    Ok(f)
}

/// Reads the payload out of the first `frame_size` bytes of `frame`.
pub fn strip_frame(frame: &[u8], frame_size: usize) -> (r: Result<Vec<u8>, FrameError>)
    ensures
        frame@.len() < frame_size <==> r == Err::<Vec<u8>, FrameError>(FrameError::Truncated),
        r is Err ==> r == Err::<Vec<u8>, FrameError>(FrameError::Truncated),
        r matches Ok(p) ==> is_payload(frame@.take(frame_size as int), p@),
{
    if frame.len() < frame_size {
        return Err(FrameError::Truncated);
    }
    let mut p: Vec<u8> = Vec::new();
    let mut i: usize = 0;
    while i < frame_size && frame[i] != 0u8
        invariant
            i <= frame_size <= frame@.len(),
            p@ == frame@.take(i as int),
            zero_free(p@),
        decreases frame_size - i,
    {
        p.push(frame[i]);
        i = i + 1;
        assert(p@ =~= frame@.take(i as int));
    }
    assert(p@ =~= frame@.take(frame_size as int).take(i as int));
    Ok(p)
}

/// A payload determines itself: `f` has exactly one payload.
pub proof fn lemma_payload_unique(f: Seq<u8>, p: Seq<u8>, q: Seq<u8>)
    requires
        is_payload(f, p),
        is_payload(f, q),
    ensures
        p == q,
{
    if p.len() < q.len() {
        assert(q[p.len() as int] == f[p.len() as int]);
    } else if q.len() < p.len() {
        assert(p[q.len() as int] == f[q.len() as int]);
    }
}

/// Padding a zero-free payload that fits and reading it back gives the payload.
pub proof fn lemma_frame_round_trip(p: Seq<u8>, size: nat)
    requires
        zero_free(p),
        p.len() <= size,
    ensures
        padded(p, size).len() == size,
        is_payload(padded(p, size), p),
        forall|q: Seq<u8>| is_payload(padded(p, size), q) ==> q == p,
{
    let f = padded(p, size);
    assert(f.take(p.len() as int) =~= p);
    assert forall|q: Seq<u8>| is_payload(f, q) implies q == p by {
        lemma_payload_unique(f, p, q);
    }
}

/// Zero bytes appended after a frame do not change its payload.
pub proof fn lemma_padding_invariance(f: Seq<u8>, p: Seq<u8>, extra: nat)
    requires
        is_payload(f, p),
    ensures
        is_payload(f + zeros(extra), p),
{
    let g = f + zeros(extra);
    assert(g.take(p.len() as int) =~= f.take(p.len() as int));
}

} // verus!
