//! RRSIG record data, and the canonical data that an RRSIG signs over an
//! RRset: its own fields without the signature, then each record in
//! canonical form and order.
use crate::codec::{
    be16, be16_value, be32, be32_at, concat, emit_bytes, emit_u16, emit_u32, lemma_concat_push,
    read_u16, read_u32,
};
use crate::dnssec::{in_window, rrsig_in_window};
use crate::error::ProtoError;
use crate::name::{emit_name, lower_name, name_wire, parse_name, read_name, Name};
use crate::public_key::{
    algorithm_code, key_decoding, signature_valid, PublicKey, PublicKeyBuf,
};
use vstd::prelude::*;
use vstd::slice::{slice_subrange, slice_to_vec};

verus! {

/// An RRSIG record's data, as plain values.
pub struct RrsigView {
    pub type_covered: u16,
    pub algorithm: u8,
    pub labels: u8,
    pub original_ttl: u32,
    pub expiration: u32,
    pub inception: u32,
    pub key_tag: u16,
    pub signer: Seq<Seq<u8>>,
    pub signature: Seq<u8>,
}

/// RRSIG record data: fixed fields, the uncompressed signer name, then the
/// signature filling the rest.
pub open spec fn parse_rrsig(s: Seq<u8>) -> Option<RrsigView> {
    if s.len() < 18 {
        None
    } else {
        match parse_name(s, 18) {
            Some((signer, e)) => Some(
                RrsigView {
                    type_covered: be16_value(s[0], s[1]),
                    algorithm: s[2],
                    labels: s[3],
                    original_ttl: be32_at(s, 4),
                    expiration: be32_at(s, 8),
                    inception: be32_at(s, 12),
                    key_tag: be16_value(s[16], s[17]),
                    signer,
                    signature: s.subrange(e, s.len() as int),
                },
            ),
            None => None,
        }
    }
}

/// The RRSIG's fields in wire form, without the signature.
pub open spec fn rrsig_fields(r: RrsigView) -> Seq<u8> {
    be16(r.type_covered) + seq![r.algorithm, r.labels] + be32(r.original_ttl) + be32(r.expiration)
        + be32(r.inception) + be16(r.key_tag) + name_wire(r.signer)
}

/// A record of the RRset in canonical form: lower-case owner name, type,
/// class, the RRSIG's original TTL, data length, data.
pub open spec fn canonical_rr(owner: Seq<Seq<u8>>, rtype: u16, class: u16, ttl: u32) -> spec_fn(
    Seq<u8>,
) -> Seq<u8> {
    |d: Seq<u8>|
        name_wire(lower_name(owner)) + be16(rtype) + be16(class) + be32(ttl) + be16(d.len() as u16)
            + d
}

/// The data that an RRSIG signs over the RRset of `owner` and `class` whose
/// record data is `rdatas`.
pub open spec fn signed_data(r: RrsigView, owner: Seq<Seq<u8>>, class: u16, rdatas: Seq<Seq<u8>>) -> Seq<u8> {
    rrsig_fields(r) + concat(rdatas, canonical_rr(owner, r.type_covered, class, r.original_ttl))
}

/// Octet-wise order of record data from position `i` on: the canonical
/// order of an RRset.
pub open spec fn octets_lt_from(a: Seq<u8>, b: Seq<u8>, i: int) -> bool
    decreases a.len() - i,
{
    if i < 0 || i >= a.len() {
        i < b.len()
    } else if i >= b.len() {
        false
    } else if a[i] != b[i] {
        a[i] < b[i]
    } else {
        octets_lt_from(a, b, i + 1)
    }
}

/// Each record's data comes strictly after the one before it.
pub open spec fn canonical_order(rdatas: Seq<Seq<u8>>) -> bool {
    forall|i: int| 0 < i < rdatas.len() ==> octets_lt_from(#[trigger] rdatas[i - 1], rdatas[i], 0)
}

fn octets_lt(a: &[u8], b: &[u8]) -> (r: bool)
    ensures
        r == octets_lt_from(a@, b@, 0),
{
    let mut i: usize = 0;
    while i < a.len() && i < b.len()
        invariant
            i <= a@.len(),
            i <= b@.len(),
            octets_lt_from(a@, b@, 0) == octets_lt_from(a@, b@, i as int),
        decreases a@.len() - i,
    {
        if a[i] != b[i] {
            return a[i] < b[i];
        }
        i = i + 1;
    }
    i < b.len() && i >= a.len()
}

/// RRSIG record data.
#[derive(Debug, Clone, PartialEq, Eq)]
pub struct Rrsig {
    pub type_covered: u16,
    pub algorithm: u8,
    pub labels: u8,
    pub original_ttl: u32,
    pub expiration: u32,
    pub inception: u32,
    pub key_tag: u16,
    pub signer: Name,
    pub signature: Vec<u8>,
}

impl View for Rrsig {
    type V = RrsigView;

    open spec fn view(&self) -> RrsigView {
        RrsigView {
            type_covered: self.type_covered,
            algorithm: self.algorithm,
            labels: self.labels,
            original_ttl: self.original_ttl,
            expiration: self.expiration,
            inception: self.inception,
            key_tag: self.key_tag,
            signer: self.signer@,
            signature: self.signature@,
        }
    }
}

impl Rrsig {
    /// Reads RRSIG record data that fills `rdata`.
    pub fn read(rdata: &[u8]) -> (res: Result<Rrsig, ProtoError>)
        ensures
            match res {
                Ok(r) => parse_rrsig(rdata@) == Some(r@),
                Err(_) => parse_rrsig(rdata@) is None,
            },
    {
        if rdata.len() < 18 {
            return Err(ProtoError::UnexpectedEnd);
        }
        let (type_covered, _) = read_u16(rdata, 0)?;
        let (original_ttl, _) = read_u32(rdata, 4)?;
        let (expiration, _) = read_u32(rdata, 8)?;
        let (inception, _) = read_u32(rdata, 12)?;
        let (key_tag, _) = read_u16(rdata, 16)?;
        let (signer, e) = read_name(rdata, 18)?;
        proof {
            crate::name::lemma_parse_labels_sound(rdata@, 18);
        }
        let signature = slice_to_vec(slice_subrange(rdata, e, rdata.len()));
        Ok(Rrsig {
            type_covered,
            algorithm: rdata[2],
            labels: rdata[3],
            original_ttl,
            expiration,
            inception,
            key_tag,
            signer,
            signature,
        })
    }

    /// The data this RRSIG signs over the RRset of `owner` and `class` whose
    /// record data is `rdatas`. Fails unless the records are given in
    /// canonical order without repeats (they are never reordered here) and
    /// each fits a two-octet length.
    pub fn signed_data(&self, owner: &Name, class: u16, rdatas: &[Vec<u8>]) -> (res: Result<Vec<u8>, ProtoError>)
        ensures
            res is Ok <==> canonical_order(rdatas@.map_values(|d: Vec<u8>| d@)) && forall|i: int|
                0 <= i < rdatas@.len() ==> (#[trigger] rdatas@[i])@.len() <= u16::MAX,
            res is Err ==> res == Err::<Vec<u8>, ProtoError>(ProtoError::NotCanonical) || res == Err::<
                Vec<u8>,
                ProtoError,
            >(ProtoError::LengthOverflow),
            res matches Ok(b) ==> b@ == signed_data(
                self@,
                owner@,
                class,
                rdatas@.map_values(|d: Vec<u8>| d@),
            ),
    {
        let ghost ds = rdatas@.map_values(|d: Vec<u8>| d@);
        let ghost f = canonical_rr(owner@, self.type_covered, class, self.original_ttl);
        let mut i: usize = 0;
        while i < rdatas.len()
            invariant
                ds == rdatas@.map_values(|d: Vec<u8>| d@),
                i <= ds.len(),
                forall|k: int| 0 <= k < i ==> (#[trigger] ds[k]).len() <= u16::MAX,
                forall|k: int| 0 < k < i ==> octets_lt_from(#[trigger] ds[k - 1], ds[k], 0),
            decreases ds.len() - i,
        {
            assert(rdatas@[i as int]@ == ds[i as int]);
            if rdatas[i].len() > 65535 {
                return Err(ProtoError::LengthOverflow);
            }
            if i > 0 {
                assert(rdatas@[i - 1]@ == ds[i - 1]);
                if !octets_lt(rdatas[i - 1].as_slice(), rdatas[i].as_slice()) {
                    assert(!canonical_order(ds));
                    return Err(ProtoError::NotCanonical);
                }
            }
            i = i + 1;
        }
        assert forall|k: int| 0 <= k < rdatas@.len() implies (#[trigger] rdatas@[k])@.len() <= u16::MAX by {
            assert(ds[k] == rdatas@[k]@);
        }
        let mut out: Vec<u8> = Vec::new();
        emit_u16(&mut out, self.type_covered);
        out.push(self.algorithm);
        out.push(self.labels);
        emit_u32(&mut out, self.original_ttl);
        emit_u32(&mut out, self.expiration);
        emit_u32(&mut out, self.inception);
        emit_u16(&mut out, self.key_tag);
        emit_name(&mut out, &self.signer);
        let ghost head = out@;
        assert(head =~= rrsig_fields(self@));
        let lower = owner.to_lowercase();
        let mut i: usize = 0;
        while i < rdatas.len()
            invariant
                ds == rdatas@.map_values(|d: Vec<u8>| d@),
                f == canonical_rr(owner@, self.type_covered, class, self.original_ttl),
                lower@ == lower_name(owner@),
                head == rrsig_fields(self@),
                canonical_order(ds),
                forall|k: int| 0 <= k < ds.len() ==> (#[trigger] ds[k]).len() <= u16::MAX,
                forall|k: int| 0 <= k < rdatas@.len() ==> (#[trigger] rdatas@[k])@.len() <= u16::MAX,
                i <= ds.len(),
                out@ == head + concat(ds.subrange(0, i as int), f),
            decreases ds.len() - i,
        {
            let d = &rdatas[i];
            assert(d@ == ds[i as int]);
            emit_name(&mut out, &lower);
            emit_u16(&mut out, self.type_covered);
            emit_u16(&mut out, class);
            emit_u32(&mut out, self.original_ttl);
            emit_u16(&mut out, d.len() as u16);
            emit_bytes(&mut out, d.as_slice());
            proof {
                lemma_concat_push(ds.subrange(0, i as int), ds[i as int], f);
                assert(ds.subrange(0, i + 1) =~= ds.subrange(0, i as int).push(ds[i as int]));
                assert(out@ =~= head + concat(ds.subrange(0, i + 1), f));
            }
            i = i + 1;
        }
        assert(ds.subrange(0, i as int) =~= ds);
        Ok(out)
    }
}

/// The record data of `rdatas` can be signed: in canonical order, each
/// within a two-octet length.
pub open spec fn rdatas_signable(rdatas: Seq<Vec<u8>>) -> bool {
    canonical_order(rdatas.map_values(|d: Vec<u8>| d@)) && forall|i: int|
        0 <= i < rdatas.len() ==> (#[trigger] rdatas[i])@.len() <= u16::MAX
}

/// The checks made before a signature over an RRset is verified: `now` in
/// the validity window (else `OutsideValidity`), the RRSIG's algorithm that
/// of `key` (else `BadSignature`), the records signable (else
/// `NotCanonical` or `LengthOverflow`). Gives the signed data.
pub fn rrset_signed_data(
    key: &PublicKeyBuf,
    rrsig: &Rrsig,
    owner: &Name,
    class: u16,
    rdatas: &[Vec<u8>],
    now: u32,
) -> (res: Result<Vec<u8>, ProtoError>)
    ensures
        !in_window(rrsig.inception, rrsig.expiration, now) ==> res == Err::<Vec<u8>, ProtoError>(
            ProtoError::OutsideValidity,
        ),
        in_window(rrsig.inception, rrsig.expiration, now) && rrsig.algorithm != algorithm_code(
            key.key_algorithm(),
        ) ==> res == Err::<Vec<u8>, ProtoError>(ProtoError::BadSignature),
        in_window(rrsig.inception, rrsig.expiration, now) && rrsig.algorithm == algorithm_code(
            key.key_algorithm(),
        ) ==> (res is Ok <==> rdatas_signable(rdatas@)) && (res is Err ==> res == Err::<
            Vec<u8>,
            ProtoError,
        >(ProtoError::NotCanonical) || res == Err::<Vec<u8>, ProtoError>(ProtoError::LengthOverflow)),
        res matches Ok(b) ==> b@ == signed_data(
            rrsig@,
            owner@,
            class,
            rdatas@.map_values(|d: Vec<u8>| d@),
        ),
{
    if !rrsig_in_window(rrsig.inception, rrsig.expiration, now) {
        return Err(ProtoError::OutsideValidity);
    }
    if rrsig.algorithm != key.algorithm().to_u8() {
        return Err(ProtoError::BadSignature);
    }
    rrsig.signed_data(owner, class, rdatas)
}

/// Verifies that `rrsig`, made with `key`, signs the RRset of `owner` and
/// `class` whose record data is `rdatas` (in canonical order), at time `now`:
/// first the checks of `rrset_signed_data`, whose error is returned, then
/// the signature over the signed data, with the outcome of
/// `PublicKey::verify`.
pub fn verify_rrset(
    key: &PublicKeyBuf,
    rrsig: &Rrsig,
    owner: &Name,
    class: u16,
    rdatas: &[Vec<u8>],
    now: u32,
) -> (res: Result<(), ProtoError>)
    ensures
        ({
            let ok_before = in_window(rrsig.inception, rrsig.expiration, now) && rrsig.algorithm
                == algorithm_code(key.key_algorithm()) && rdatas_signable(rdatas@);
            let decoded = key_decoding(key.key_algorithm(), key.key_bytes());
            &&& (res == Err::<(), ProtoError>(ProtoError::OutsideValidity) <==> !in_window(
                rrsig.inception,
                rrsig.expiration,
                now,
            ))
            &&& (in_window(rrsig.inception, rrsig.expiration, now) && rrsig.algorithm
                != algorithm_code(key.key_algorithm()) ==> res == Err::<(), ProtoError>(
                ProtoError::BadSignature,
            ))
            &&& (in_window(rrsig.inception, rrsig.expiration, now) && rrsig.algorithm
                == algorithm_code(key.key_algorithm()) && !rdatas_signable(rdatas@) ==> (res
                == Err::<(), ProtoError>(ProtoError::NotCanonical) || res == Err::<(), ProtoError>(
                ProtoError::LengthOverflow,
            )))
            &&& (ok_before ==> (decoded is None <==> (res == Err::<(), ProtoError>(
                ProtoError::UnsupportedAlgorithm,
            ) || res == Err::<(), ProtoError>(ProtoError::MalformedKey))))
            &&& (ok_before && decoded is Some ==> (res is Ok || res == Err::<(), ProtoError>(
                ProtoError::BadSignature,
            )))
            &&& (res is Ok ==> {
                &&& ok_before
                &&& signature_valid(
                    key.key_algorithm(),
                    key.key_bytes(),
                    signed_data(rrsig@, owner@, class, rdatas@.map_values(|d: Vec<u8>| d@)),
                    rrsig.signature@,
                )
            })
        }),
{
    let data = rrset_signed_data(key, rrsig, owner, class, rdatas, now)?;
    key.verify(data.as_slice(), rrsig.signature.as_slice())
}

} // verus!
