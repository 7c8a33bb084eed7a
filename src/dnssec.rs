//! DNSSEC checks that tie a chain of trust together: the key tag that an
//! RRSIG or DS names a DNSKEY by, whether a DS record's digest matches a
//! DNSKEY, and whether the current time lies in an RRSIG's validity window.
use crate::codec::emit_bytes;
use crate::crypto::{digest_of, message_digest, Digest};
use crate::name::{emit_name, name_wire, Name};
use crate::resolver::ZoneLink;
use vstd::prelude::*;

verus! {

/// The weight of octet `i` in the key tag sum: high byte at even positions.
pub open spec fn tag_term(b: Seq<u8>, i: int) -> int {
    if i % 2 == 0 {
        b[i] as int * 256
    } else {
        b[i] as int
    }
}

/// The sum of the weighted octets of `b` before `n`.
pub open spec fn tag_sum(b: Seq<u8>, n: int) -> int
    decreases n,
{
    if n <= 0 {
        0
    } else {
        tag_sum(b, n - 1) + tag_term(b, n - 1)
    }
}

/// The key tag of DNSKEY record data (RFC 4034, appendix B): the weighted
/// sum, folded once with its own carry, modulo 65536.
pub open spec fn key_tag_of(rdata: Seq<u8>) -> u16 {
    let ac = tag_sum(rdata, rdata.len() as int);
    ((ac + (ac / 65536) % 65536) % 65536) as u16
}

proof fn lemma_tag_sum_bound(b: Seq<u8>, n: int)
    requires
        0 <= n <= b.len(),
    ensures
        0 <= tag_sum(b, n) <= n * 65280,
    decreases n,
{
    if n > 0 {
        lemma_tag_sum_bound(b, n - 1);
    }
}

/// The key tag of DNSKEY record data, by which RRSIG and DS records name the key.
pub fn key_tag(rdata: &[u8]) -> (r: u16)
    requires
        rdata@.len() <= 65535,
    ensures
        r == key_tag_of(rdata@),
{
    let mut ac: u64 = 0;
    let mut i: usize = 0;
    while i < rdata.len()
        invariant
            i <= rdata@.len(),
            rdata@.len() <= 65535,
            ac == tag_sum(rdata@, i as int),
        decreases rdata@.len() - i,
    {
        proof {
            lemma_tag_sum_bound(rdata@, i as int);
        }
        if i % 2 == 0 {
            ac = ac + (rdata[i] as u64) * 256;
        } else {
            ac = ac + rdata[i] as u64;
        }
        i = i + 1;
    }
    proof {
        lemma_tag_sum_bound(rdata@, i as int);
    }
    ((ac + (ac / 65536) % 65536) % 65536) as u16
}

/// The digest a DS record of digest type `t` uses: 1 SHA-1, 2 SHA-256, 4 SHA-384.
pub open spec fn ds_digest(t: u8) -> Option<Digest> {
    if t == 1 {
        Some(Digest::Sha1)
    } else if t == 2 {
        Some(Digest::Sha256)
    } else if t == 4 {
        Some(Digest::Sha384)
    } else {
        None
    }
}

/// Whether a DS record with digest type `t` and digest `digest` vouches for
/// the DNSKEY record data `rdata` of the zone `owner`: the digest of the
/// owner name in wire form followed by the record data.
pub open spec fn ds_vouches(owner: Seq<Seq<u8>>, rdata: Seq<u8>, t: u8, digest: Seq<u8>) -> bool {
    match ds_digest(t) {
        Some(d) => digest_of(d, name_wire(owner) + rdata) == digest,
        None => false,
    }
}

/// Whether the DS record (digest type `digest_type`, digest `digest`)
/// matches the zone's DNSKEY record data. Never true for an unknown digest
/// type; false too when the digest cannot be computed.
pub fn ds_matches_key(owner: &Name, dnskey_rdata: &[u8], digest_type: u8, digest: &[u8]) -> (r: bool)
    ensures
        r ==> ds_vouches(owner@, dnskey_rdata@, digest_type, digest@),
        ds_digest(digest_type) is None ==> !r,
{
    let d = if digest_type == 1 {
        Digest::Sha1
    } else if digest_type == 2 {
        Digest::Sha256
    } else if digest_type == 4 {
        Digest::Sha384
    } else {
        return false;
    };
    let mut data: Vec<u8> = Vec::new();
    emit_name(&mut data, owner);
    emit_bytes(&mut data, dnskey_rdata);
    assert(data@ =~= name_wire(owner@) + dnskey_rdata@);
    match message_digest(d, data.as_slice()) {
        Some(computed) => digest_matches(computed.as_slice(), digest),
        None => false,
    }
}

/// Whether a computed digest is the digest a DS record carries.
pub fn digest_matches(computed: &[u8], expected: &[u8]) -> (r: bool)
    ensures
        r == (computed@ == expected@),
{
    if computed.len() != expected.len() {
        return false;
    }
    let mut i: usize = 0;
    while i < computed.len()
        invariant
            computed@.len() == expected@.len(),
            i <= computed@.len(),
            forall|k: int| 0 <= k < i ==> computed@[k] == expected@[k],
        decreases computed@.len() - i,
    {
        if computed[i] != expected[i] {
            return false;
        }
        i = i + 1;
    }
    assert(computed@ =~= expected@);
    true
}

/// Serial number order (RFC 1982) on 32-bit times: `a` comes before `b`.
pub open spec fn serial_lt(a: u32, b: u32) -> bool {
    (a < b && b - a < 0x8000_0000) || (a > b && a - b > 0x8000_0000)
}

/// Whether `now` lies in the window from `inception` to `expiration`,
/// both included, in serial number order (RFC 4034, section 3.1.5).
pub open spec fn in_window(inception: u32, expiration: u32, now: u32) -> bool {
    (inception == now || serial_lt(inception, now)) && (now == expiration || serial_lt(
        now,
        expiration,
    ))
}

fn serial_before(a: u32, b: u32) -> (r: bool)
    ensures
        r == serial_lt(a, b),
{
    (a < b && b - a < 0x8000_0000) || (a > b && a - b > 0x8000_0000)
}

/// Whether an RRSIG with these inception and expiration times is valid at `now`.
pub fn rrsig_in_window(inception: u32, expiration: u32, now: u32) -> (r: bool)
    ensures
        r == in_window(inception, expiration, now),
{
    (inception == now || serial_before(inception, now)) && (now == expiration || serial_before(
        now,
        expiration,
    ))
}

/// A zone cut whose parent publishes a DS record: the key must match it,
/// and the signature must verify within its window.
pub fn signed_link(key_matches: bool, signature_verifies: bool, inception: u32, expiration: u32, now: u32) -> (r: ZoneLink)
    ensures
        r.delegation_signed,
        !r.proven_unsigned,
        r.key_matches == key_matches,
        r.signature_valid == (signature_verifies && in_window(inception, expiration, now)),
{
    ZoneLink {
        delegation_signed: true,
        proven_unsigned: false,
        key_matches,
        signature_valid: signature_verifies && rrsig_in_window(inception, expiration, now),
    }
}

/// A signature whose expiration lies before `now` is outside its window, so
/// the link it signs is not valid.
pub proof fn lemma_expired_signature_breaks_link(inception: u32, expiration: u32, now: u32)
    requires
        serial_lt(expiration, now),
    ensures
        !in_window(inception, expiration, now),
{
}

} // verus!
