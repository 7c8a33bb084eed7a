//! Length-bounded readers and writers of big-endian integers and
//! length-prefixed octet strings.
use crate::error::ProtoError;
use vstd::prelude::*;

verus! {

/// The two octets of `v` in network byte order.
pub open spec fn be16(v: u16) -> Seq<u8> {
    seq![(v / 256) as u8, (v % 256) as u8]
}

/// The integer whose network-order octets are `hi`, `lo`.
pub open spec fn be16_value(hi: u8, lo: u8) -> u16 {
    (hi as int * 256 + lo as int) as u16
}

/// A character-string: one length octet, then that many octets.
pub open spec fn char_string(s: Seq<u8>) -> Seq<u8> {
    seq![s.len() as u8] + s
}

/// The octets of each item of `xs` under `f`, one after another.
pub open spec fn concat<T>(xs: Seq<T>, f: spec_fn(T) -> Seq<u8>) -> Seq<u8>
    decreases xs.len(),
{
    if xs.len() == 0 {
        Seq::empty()
    } else {
        concat(xs.drop_last(), f) + f(xs.last())
    }
}

pub proof fn lemma_concat_push<T>(xs: Seq<T>, x: T, f: spec_fn(T) -> Seq<u8>)
    ensures
        concat(xs.push(x), f) == concat(xs, f) + f(x),
{
    assert(xs.push(x).drop_last() =~= xs);
}

pub proof fn lemma_concat_cons<T>(x: T, xs: Seq<T>, f: spec_fn(T) -> Seq<u8>)
    ensures
        concat(seq![x] + xs, f) == f(x) + concat(xs, f),
    decreases xs.len(),
{
    if xs.len() == 0 {
        assert((seq![x] + xs).drop_last() =~= Seq::<T>::empty());
        assert((seq![x] + xs).last() == x);
        assert(concat(seq![x] + xs, f) == concat(Seq::<T>::empty(), f) + f(x));
        assert(concat(seq![x] + xs, f) =~= f(x) + concat(xs, f));
    } else {
        lemma_concat_cons(x, xs.drop_last(), f);
        assert((seq![x] + xs).drop_last() =~= seq![x] + xs.drop_last());
        assert((seq![x] + xs).last() == xs.last());
        assert(concat(seq![x] + xs, f) == concat(seq![x] + xs.drop_last(), f) + f(xs.last()));
        assert(concat(xs, f) == concat(xs.drop_last(), f) + f(xs.last()));
        assert(concat(seq![x] + xs, f) =~= f(x) + concat(xs, f));
    }
}

/// A prefix of a sequence is never longer in wire form than the sequence.
pub proof fn lemma_concat_prefix_len<T>(ls: Seq<T>, j: int, f: spec_fn(T) -> Seq<u8>)
    requires
        0 <= j <= ls.len(),
    ensures
        concat(ls.subrange(0, j), f).len() <= concat(ls, f).len(),
    decreases ls.len() - j,
{
    if j < ls.len() {
        lemma_concat_prefix_len(ls, j + 1, f);
        lemma_concat_push(ls.subrange(0, j), ls[j], f);
        assert(ls.subrange(0, j + 1) =~= ls.subrange(0, j).push(ls[j]));
    } else {
        assert(ls.subrange(0, j) =~= ls);
    }
}

/// Items of one width `w` stand one after another at multiples of `w`.
pub proof fn lemma_concat_fixed<T>(xs: Seq<T>, f: spec_fn(T) -> Seq<u8>, w: int)
    requires
        w >= 0,
        forall|i: int| 0 <= i < xs.len() ==> (#[trigger] f(xs[i])).len() == w,
    ensures
        concat(xs, f).len() == w * xs.len(),
        forall|i: int|
            0 <= i < xs.len() ==> concat(xs, f).subrange(w * i, w * i + w) == #[trigger] f(xs[i]),
    decreases xs.len(),
{
    if xs.len() > 0 {
        let ys = xs.drop_last();
        assert forall|i: int| 0 <= i < ys.len() implies (#[trigger] f(ys[i])).len() == w by {
            assert(ys[i] == xs[i]);
        }
        lemma_concat_fixed(ys, f, w);
        let c = concat(ys, f);
        let n = ys.len() as int;
        assert(w * (n + 1) == w * n + w) by (nonlinear_arith);
        assert(concat(xs, f) == c + f(xs.last()));
        assert forall|i: int| 0 <= i < xs.len() implies concat(xs, f).subrange(w * i, w * i + w)
            == #[trigger] f(xs[i]) by {
            if i < n {
                assert(ys[i] == xs[i]);
                assert(w * i + w <= w * n) by (nonlinear_arith)
                    requires
                        i < n,
                        w >= 0,
                ;
                assert(0 <= w * i) by (nonlinear_arith)
                    requires
                        0 <= i,
                        w >= 0,
                ;
                assert(concat(xs, f).subrange(w * i, w * i + w) =~= c.subrange(w * i, w * i + w));
            } else {
                assert(concat(xs, f).subrange(w * i, w * i + w) =~= f(xs.last()));
            }
        }
    }
}

pub proof fn lemma_be16_round_trip(v: u16)
    ensures
        be16(v).len() == 2,
        be16_value(be16(v)[0], be16(v)[1]) == v,
{
}

/// Reads a two-octet integer at `pos`; fails when fewer than two octets remain.
pub fn read_u16(buf: &[u8], pos: usize) -> (res: Result<(u16, usize), ProtoError>)
    ensures
        res is Ok <==> pos + 2 <= buf@.len(),
        res matches Ok((v, p)) ==> p == pos + 2 && v == be16_value(buf@[pos as int], buf@[pos + 1]),
        res matches Err(e) ==> e == ProtoError::UnexpectedEnd,
{
    if pos < buf.len() && buf.len() - pos >= 2 {
        let v: u16 = (buf[pos] as u16) * 256 + (buf[pos + 1] as u16);
        Ok((v, pos + 2))
    } else {
        Err(ProtoError::UnexpectedEnd)
    }
}

/// The integer whose network-order octets are `s[i..i + 4]`.
pub open spec fn be32_at(s: Seq<u8>, i: int) -> u32 {
    (be16_value(s[i], s[i + 1]) as int * 65536 + be16_value(s[i + 2], s[i + 3]) as int) as u32
}

/// The four octets of `v` in network byte order.
pub open spec fn be32(v: u32) -> Seq<u8> {
    be16((v / 65536) as u16) + be16((v % 65536) as u16)
}

/// Appends the four octets of `v` in network byte order.
pub fn emit_u32(out: &mut Vec<u8>, v: u32)
    ensures
        final(out)@ == old(out)@ + be32(v),
{
    emit_u16(out, (v / 65536) as u16);
    emit_u16(out, (v % 65536) as u16);
    assert(out@ =~= old(out)@ + be32(v));
}

/// Reads a four-octet integer at `pos`; fails when fewer than four octets remain.
pub fn read_u32(buf: &[u8], pos: usize) -> (res: Result<(u32, usize), ProtoError>)
    ensures
        res is Ok <==> pos + 4 <= buf@.len(),
        res matches Ok((v, p)) ==> p == pos + 4 && v == be32_at(buf@, pos as int),
{
    let (hi, p) = read_u16(buf, pos)?;
    let (lo, p2) = read_u16(buf, p)?;
    Ok(((hi as u32) * 65536 + lo as u32, p2))
}

/// Appends the two octets of `v` in network byte order.
pub fn emit_u16(out: &mut Vec<u8>, v: u16)
    ensures
        final(out)@ == old(out)@ + be16(v),
{
    out.push((v / 256) as u8);
    out.push((v % 256) as u8);
}

/// Appends `bytes` unchanged.
pub fn emit_bytes(out: &mut Vec<u8>, bytes: &[u8])
    ensures
        final(out)@ == old(out)@ + bytes@,
{
    let ghost start = out@;
    let mut i: usize = 0;
    while i < bytes.len()
        invariant
            i <= bytes@.len(),
            out@ == start + bytes@.subrange(0, i as int),
        decreases bytes@.len() - i,
    {
        out.push(bytes[i]);
        i = i + 1;
        assert(out@ =~= start + bytes@.subrange(0, i as int));
    }
    assert(bytes@.subrange(0, i as int) =~= bytes@);
}

/// Reserves a two-octet length field and returns its position.
pub fn place_u16(out: &mut Vec<u8>) -> (place: usize)
    ensures
        place == old(out)@.len(),
        final(out)@ == old(out)@ + seq![0u8, 0u8],
{
    let place = out.len();
    out.push(0);
    out.push(0);
    place
}

/// Writes into the field reserved at `place` the number of octets emitted
/// after it; fails when that number does not fit in two octets.
pub fn patch_len_since(out: &mut Vec<u8>, place: usize) -> (res: Result<(), ProtoError>)
    requires
        place + 2 <= old(out)@.len(),
    ensures
        res is Ok <==> old(out)@.len() - place - 2 <= u16::MAX,
        res is Ok ==> final(out)@ == old(out)@.subrange(0, place as int)
            + be16((old(out)@.len() - place - 2) as u16)
            + old(out)@.subrange(place + 2, old(out)@.len() as int),
        res is Err ==> res == Err::<(), ProtoError>(ProtoError::LengthOverflow) && final(out)@ == old(out)@,
{
    let len = out.len() - place - 2;
    if len > 65535 {
        return Err(ProtoError::LengthOverflow);
    }
    let v = len as u16;
    out.set(place, (v / 256) as u8);
    out.set(place + 1, (v % 256) as u8);
    assert(out@ =~= old(out)@.subrange(0, place as int) + be16(v) + old(out)@.subrange(
        place + 2,
        old(out)@.len() as int,
    ));
    Ok(())
}

} // verus!
