//! Framing of the replay file: each record body is preceded by its length,
//! as eight bytes, least significant first.
use vstd::prelude::*;

verus! {

/// The number whose little-endian bytes are `s`.
pub open spec fn le_value(s: Seq<u8>) -> nat
    decreases s.len(),
{
    if s.len() == 0 {
        0
    } else {
        s[0] as nat + 256 * le_value(s.drop_first())
    }
}

/// The `k` little-endian bytes of `n`, dropping what does not fit.
pub open spec fn le_bytes(n: nat, k: nat) -> Seq<u8>
    decreases k,
{
    if k == 0 {
        Seq::empty()
    } else {
        seq![(n % 256) as u8] + le_bytes(n / 256, (k - 1) as nat)
    }
}

pub open spec fn pow256(k: nat) -> nat
    decreases k,
{
    if k == 0 {
        1
    } else {
        256 * pow256((k - 1) as nat)
    }
}

/// A body with its length in front.
pub open spec fn frame(body: Seq<u8>) -> Seq<u8> {
    le_bytes(body.len(), 8) + body
}

/// The framed bodies one after the other.
pub open spec fn frames(bodies: Seq<Seq<u8>>) -> Seq<u8>
    decreases bodies.len(),
{
    if bodies.len() == 0 {
        Seq::empty()
    } else {
        frame(bodies[0]) + frames(bodies.drop_first())
    }
}

/// The bodies of a sequence of frames; `None` where the bytes end inside a
/// frame.
pub open spec fn parse_frames(s: Seq<u8>) -> Option<Seq<Seq<u8>>>
    decreases s.len(),
{
    if s.len() == 0 {
        Some(Seq::empty())
    } else if s.len() < 8 {
        None
    } else {
        let n = le_value(s.take(8));
        if n > s.len() - 8 {
            None
        } else {
            match parse_frames(s.skip(8 + n as int)) {
                Some(rest) => Some(seq![s.subrange(8, 8 + n as int)] + rest),
                None => None,
            }
        }
    }
}

proof fn lemma_le_round_trip(n: nat, k: nat)
    requires
        n < pow256(k),
    ensures
        le_bytes(n, k).len() == k,
        le_value(le_bytes(n, k)) == n,
    decreases k,
{
    if k > 0 {
        assert(n / 256 < pow256((k - 1) as nat));
        lemma_le_round_trip(n / 256, (k - 1) as nat);
        assert(le_bytes(n, k).drop_first() == le_bytes(n / 256, (k - 1) as nat));
    }
}

proof fn lemma_le_value_bound(s: Seq<u8>)
    ensures
        le_value(s) < pow256(s.len()),
    decreases s.len(),
{
    if s.len() > 0 {
        lemma_le_value_bound(s.drop_first());
    }
}

proof fn lemma_pow256_8()
    ensures
        pow256(8) == 0x1_0000_0000_0000_0000,
{
    reveal_with_fuel(pow256, 9);
}

/// Reading back framed bodies gives the bodies.
pub proof fn lemma_parse_frames_round_trip(bodies: Seq<Seq<u8>>)
    requires
        forall|i: int| 0 <= i < bodies.len() ==> #[trigger] bodies[i].len() < 0x1_0000_0000_0000_0000,
    ensures
        parse_frames(frames(bodies)) == Some(bodies),
    decreases bodies.len(),
{
    if bodies.len() > 0 {
        let b = bodies[0];
        let rest = bodies.drop_first();
        lemma_pow256_8();
        lemma_le_round_trip(b.len(), 8);
        lemma_parse_frames_round_trip(rest);
        let s = frames(bodies);
        assert(s == le_bytes(b.len(), 8) + b + frames(rest));
        assert(s.take(8) == le_bytes(b.len(), 8));
        assert(s.skip(8 + b.len() as int) == frames(rest));
        assert(s.subrange(8, 8 + b.len() as int) == b);
        assert(seq![b] + rest == bodies);
    }
}

/// `body` with its length in front, as the replay file holds it.
pub fn frame_record(body: &[u8]) -> (r: Vec<u8>)
    ensures
        r@ == frame(body@),
{
    let mut out: Vec<u8> = Vec::new();
    let mut n: u64 = body.len() as u64;
    let mut i: usize = 0;
    assert(pow256(0) == 1);
    while i < 8
        invariant
            i <= 8,
            n as nat == body@.len() / pow256(i as nat),
            out@ + le_bytes(n as nat, (8 - i) as nat) == le_bytes(body@.len(), 8),
        decreases 8 - i,
    {
        let ghost before = out@;
        out.push((n % 256) as u8);
        proof {
            assert(le_bytes(n as nat, (8 - i) as nat) == seq![(n % 256) as u8] + le_bytes(
                n as nat / 256,
                (8 - i - 1) as nat,
            ));
            assert(out@ == before + seq![(n % 256) as u8]);
            lemma_pow256_monotone(0, i as nat);
            vstd::arithmetic::div_mod::lemma_div_denominator(body@.len() as int, pow256(i as nat) as int, 256);
            assert(pow256((i + 1) as nat) == pow256(i as nat) * 256) by (nonlinear_arith)
                requires pow256((i + 1) as nat) == 256 * pow256(i as nat);
        }
        n = n / 256;
        i = i + 1;
    }
    assert(le_bytes(n as nat, 0) == Seq::<u8>::empty());
    let mut j: usize = 0;
    while j < body.len()
        invariant
            j <= body.len(),
            out@ == le_bytes(body@.len(), 8) + body@.take(j as int),
        decreases body.len() - j,
    {
        out.push(body[j]);
        proof {
            assert(body@.take(j as int + 1) == body@.take(j as int).push(body@[j as int]));
        }
        j = j + 1;
    }
    assert(body@.take(body.len() as int) == body@);
    out
}

/// The length read from the eight bytes in front of a body.
pub fn read_frame_length(header: &[u8]) -> (n: u64)
    requires
        header.len() == 8,
    ensures
        n as nat == le_value(header@),
{
    proof {
        lemma_le_value_bound(header@);
        lemma_pow256_8();
    }
    let mut n: u64 = 0;
    let mut i: usize = 8;
    while i > 0
        invariant
            i <= 8,
            header.len() == 8,
            n as nat == le_value(header@.skip(i as int)),
        decreases i,
    {
        proof {
            lemma_le_value_bound(header@.skip(i as int - 1));
            assert(header@.skip(i as int - 1).drop_first() == header@.skip(i as int));
            lemma_pow256_8();
            assert(le_value(header@.skip(i as int - 1)) < 0x1_0000_0000_0000_0000) by {
                vstd::arithmetic::power::lemma_pow_increases(256, (9 - i) as nat, 8);
                lemma_pow256_monotone((9 - i) as nat, 8);
            }
        }
        n = n * 256 + header[i - 1] as u64;
        i = i - 1;
    }
    assert(header@.skip(0) == header@);
    n
}

proof fn lemma_pow256_monotone(a: nat, b: nat)
    requires
        a <= b,
    ensures
        pow256(a) <= pow256(b),
    decreases b,
{
    if a < b {
        lemma_pow256_monotone(a, (b - 1) as nat);
    }
}

} // verus!

verus! {

/// `done` in front of the bodies `rest` holds, if it holds any.
pub open spec fn prepended(done: Seq<Seq<u8>>, rest: Option<Seq<Seq<u8>>>) -> Option<Seq<Seq<u8>>> {
    match rest {
        Some(r) => Some(done + r),
        None => None,
    }
}

/// The bytes of `bytes` from `start` up to `end`.
fn copy_range(bytes: &[u8], start: usize, end: usize) -> (r: Vec<u8>)
    requires
        start <= end <= bytes.len(),
    ensures
        r@ == bytes@.subrange(start as int, end as int),
{
    let mut out: Vec<u8> = Vec::new();
    let mut i: usize = start;
    while i < end
        invariant
            start <= i <= end <= bytes.len(),
            out@ == bytes@.subrange(start as int, i as int),
        decreases end - i,
    {
        out.push(bytes[i]);
        proof {
            assert(bytes@.subrange(start as int, i as int + 1) == bytes@.subrange(start as int, i as int).push(bytes@[i as int]));
        }
        i = i + 1;
    }
    out
}

/// The bodies of the frames that make up `bytes`, in order; `None` when the
/// bytes end inside a frame.
pub fn split_frames(bytes: &[u8]) -> (r: Option<Vec<Vec<u8>>>)
    ensures
        match r {
            Some(bodies) => parse_frames(bytes@) == Some(bodies@.map_values(|b: Vec<u8>| b@)),
            None => parse_frames(bytes@) is None,
        },
{
    let mut out: Vec<Vec<u8>> = Vec::new();
    let mut pos: usize = 0;
    assert(bytes@.skip(0) == bytes@);
    assert(out@.map_values(|b: Vec<u8>| b@) == Seq::<Seq<u8>>::empty());
    assert(Seq::<Seq<u8>>::empty() + parse_frames(bytes@)->0 == parse_frames(bytes@)->0);
    while pos < bytes.len()
        invariant
            pos <= bytes.len(),
            parse_frames(bytes@) == prepended(out@.map_values(|b: Vec<u8>| b@), parse_frames(bytes@.skip(pos as int))),
        decreases bytes.len() - pos,
    {
        let ghost s = bytes@.skip(pos as int);
        if bytes.len() - pos < 8 {
            return None;
        }
        let header = copy_range(bytes, pos, pos + 8);
        assert(header@ == s.take(8));
        let n = read_frame_length(header.as_slice());
        if n > (bytes.len() - pos - 8) as u64 {
            return None;
        }
        let end = pos + 8 + n as usize;
        let body = copy_range(bytes, pos + 8, end);
        proof {
            assert(body@ == s.subrange(8, 8 + n as int));
            assert(s.skip(8 + n as int) == bytes@.skip(end as int));
        }
        let ghost done = out@.map_values(|b: Vec<u8>| b@);
        out.push(body);
        proof {
            assert(out@.map_values(|b: Vec<u8>| b@) == done + seq![body@]);
            match parse_frames(bytes@.skip(end as int)) {
                Some(rest) => {
                    assert(done + (seq![body@] + rest) == (done + seq![body@]) + rest);
                },
                None => {},
            }
        }
        pos = end;
    }
    proof {
        assert(bytes@.skip(pos as int) == Seq::<u8>::empty());
        let done = out@.map_values(|b: Vec<u8>| b@);
        assert(done + Seq::<Seq<u8>>::empty() == done);
    }
    Some(out)
}

} // verus!
