//! SVCB and HTTPS record data: service parameter keys and values, their
//! wire forms, and the strictly increasing order of keys in a record.
use crate::codec::{
    be16, be16_value, char_string, concat, emit_bytes, emit_u16, lemma_concat_prefix_len,
    lemma_concat_push, patch_len_since, place_u16, read_u16,
};
use crate::error::ProtoError;
use crate::name::{
    emit_name, lemma_parse_labels_sound, name_text, name_valid, name_wire, parse_name, read_name,
    Name,
};
use vstd::prelude::*;
use vstd::utf8::{decode_utf8, encode_utf8, valid_utf8};
use vstd::slice::{slice_subrange, slice_to_vec};
use vstd::string::StringSliceAdditionalSpecFns;
use crate::text::{decimal_text, hex_text, push_char, push_decimal, push_hex, push_str};

verus! {

/// A service parameter key.
#[derive(Debug, Clone, Copy, PartialEq, Eq, Hash, Structural)]
pub enum SvcParamKey {
    /// Mandatory keys in this record (0).
    Mandatory,
    /// Additional supported protocols (1).
    Alpn,
    /// No support for the default protocol (2).
    NoDefaultAlpn,
    /// Port of the alternative endpoint (3).
    Port,
    /// IPv4 address hints (4).
    Ipv4Hint,
    /// Encrypted ClientHello configuration list (5).
    EchConfigList,
    /// IPv6 address hints (6).
    Ipv6Hint,
    /// Private use (65280 to 65534).
    Key(u16),
    /// Reserved, the invalid key (65535).
    Key65535,
    /// Any other value.
    Unknown(u16),
}

/// The number of a key.
pub open spec fn key_code(k: SvcParamKey) -> u16 {
    match k {
        SvcParamKey::Mandatory => 0,
        SvcParamKey::Alpn => 1,
        SvcParamKey::NoDefaultAlpn => 2,
        SvcParamKey::Port => 3,
        SvcParamKey::Ipv4Hint => 4,
        SvcParamKey::EchConfigList => 5,
        SvcParamKey::Ipv6Hint => 6,
        SvcParamKey::Key(v) => v,
        SvcParamKey::Key65535 => 65535,
        SvcParamKey::Unknown(v) => v,
    }
}

/// The key that a number names.
pub open spec fn key_of_code(v: u16) -> SvcParamKey {
    if v == 0 {
        SvcParamKey::Mandatory
    } else if v == 1 {
        SvcParamKey::Alpn
    } else if v == 2 {
        SvcParamKey::NoDefaultAlpn
    } else if v == 3 {
        SvcParamKey::Port
    } else if v == 4 {
        SvcParamKey::Ipv4Hint
    } else if v == 5 {
        SvcParamKey::EchConfigList
    } else if v == 6 {
        SvcParamKey::Ipv6Hint
    } else if 65280 <= v && v <= 65534 {
        SvcParamKey::Key(v)
    } else if v == 65535 {
        SvcParamKey::Key65535
    } else {
        SvcParamKey::Unknown(v)
    }
}

/// A key in the form that reading its number gives back.
pub open spec fn key_canonical(k: SvcParamKey) -> bool {
    key_of_code(key_code(k)) == k
}

impl From<u16> for SvcParamKey {
    fn from(val: u16) -> (r: SvcParamKey) {
        if val == 0 {
            SvcParamKey::Mandatory
        } else if val == 1 {
            SvcParamKey::Alpn
        } else if val == 2 {
            SvcParamKey::NoDefaultAlpn
        } else if val == 3 {
            SvcParamKey::Port
        } else if val == 4 {
            SvcParamKey::Ipv4Hint
        } else if val == 5 {
            SvcParamKey::EchConfigList
        } else if val == 6 {
            SvcParamKey::Ipv6Hint
        } else if 65280 <= val && val <= 65534 {
            SvcParamKey::Key(val)
        } else if val == 65535 {
            SvcParamKey::Key65535
        } else {
            SvcParamKey::Unknown(val)
        }
    }
}

impl vstd::std_specs::convert::FromSpecImpl<u16> for SvcParamKey {
    open spec fn obeys_from_spec() -> bool {
        true
    }

    open spec fn from_spec(v: u16) -> SvcParamKey {
        key_of_code(v)
    }
}

impl From<SvcParamKey> for u16 {
    fn from(val: SvcParamKey) -> (r: u16) {
        match val {
            SvcParamKey::Mandatory => 0,
            SvcParamKey::Alpn => 1,
            SvcParamKey::NoDefaultAlpn => 2,
            SvcParamKey::Port => 3,
            SvcParamKey::Ipv4Hint => 4,
            SvcParamKey::EchConfigList => 5,
            SvcParamKey::Ipv6Hint => 6,
            SvcParamKey::Key(v) => v,
            SvcParamKey::Key65535 => 65535,
            SvcParamKey::Unknown(v) => v,
        }
    }
}

impl vstd::std_specs::convert::FromSpecImpl<SvcParamKey> for u16 {
    open spec fn obeys_from_spec() -> bool {
        true
    }

    open spec fn from_spec(k: SvcParamKey) -> u16 {
        key_code(k)
    }
}

impl SvcParamKey {
    /// Reads a two-octet key at `pos`; every number is a key.
    pub fn read(buf: &[u8], pos: usize) -> (res: Result<(SvcParamKey, usize), ProtoError>)
        ensures
            res is Ok <==> pos + 2 <= buf@.len(),
            res matches Ok((k, p)) ==> p == pos + 2 && k == key_of_code(
                be16_value(buf@[pos as int], buf@[pos + 1]),
            ),
            res matches Err(e) ==> e == ProtoError::UnexpectedEnd,
    {
        let (v, p) = read_u16(buf, pos)?;
        Ok((SvcParamKey::from(v), p))
    }

    /// Appends the key's number in network byte order.
    pub fn emit(&self, out: &mut Vec<u8>)
        ensures
            final(out)@ == old(out)@ + be16(key_code(*self)),
    {
        emit_u16(out, u16::from(*self));
    }

    /// The key that presentation text names: `mandatory`, `alpn`,
    /// `no-default-alpn`, `port`, `ipv4hint`, `ech`, `ipv6hint`, or `key`
    /// followed by its number in decimal.
    pub fn from_str(text: &str) -> (res: Result<SvcParamKey, ProtoError>)
        ensures
            match res {
                Ok(k) => key_of_text(text.spec_bytes()) == Some(k),
                Err(_) => key_of_text(text.spec_bytes()) is None,
            },
    {
        let t = text.as_bytes();
        if bytes_eq(t, "mandatory".as_bytes()) {
            Ok(SvcParamKey::Mandatory)
        } else if bytes_eq(t, "alpn".as_bytes()) {
            Ok(SvcParamKey::Alpn)
        } else if bytes_eq(t, "no-default-alpn".as_bytes()) {
            Ok(SvcParamKey::NoDefaultAlpn)
        } else if bytes_eq(t, "port".as_bytes()) {
            Ok(SvcParamKey::Port)
        } else if bytes_eq(t, "ipv4hint".as_bytes()) {
            Ok(SvcParamKey::Ipv4Hint)
        } else if bytes_eq(t, "ech".as_bytes()) {
            Ok(SvcParamKey::EchConfigList)
        } else if bytes_eq(t, "ipv6hint".as_bytes()) {
            Ok(SvcParamKey::Ipv6Hint)
        } else if bytes_eq(t, "key65535".as_bytes()) {
            Ok(SvcParamKey::Key65535)
        } else if t.len() >= 3 && bytes_eq(slice_subrange(t, 0, 3), "key".as_bytes()) {
            match decimal_u16(slice_subrange(t, 3, t.len())) {
                Some(v) => Ok(SvcParamKey::Key(v)),
                None => Err(ProtoError::MalformedParam),
            }
        } else {
            Err(ProtoError::MalformedParam)
        }
    }

    /// The presentation text: the registered name, `key` and the number for
    /// a private-use key, `unknown` and the number for any other.
    pub fn to_text(&self) -> (r: String)
        ensures
            r@ == key_text(*self),
    {
        let mut s = String::new();
        match self {
            SvcParamKey::Mandatory => push_str(&mut s, "mandatory"),
            SvcParamKey::Alpn => push_str(&mut s, "alpn"),
            SvcParamKey::NoDefaultAlpn => push_str(&mut s, "no-default-alpn"),
            SvcParamKey::Port => push_str(&mut s, "port"),
            SvcParamKey::Ipv4Hint => push_str(&mut s, "ipv4hint"),
            SvcParamKey::EchConfigList => push_str(&mut s, "ech"),
            SvcParamKey::Ipv6Hint => push_str(&mut s, "ipv6hint"),
            SvcParamKey::Key(v) => {
                push_str(&mut s, "key");
                push_decimal(&mut s, *v);
            },
            SvcParamKey::Key65535 => push_str(&mut s, "key65535"),
            SvcParamKey::Unknown(v) => {
                push_str(&mut s, "unknown");
                push_decimal(&mut s, *v);
            },
        }
        s
    }
}

/// The value of the decimal digits `d`.
pub open spec fn decimal_value(d: Seq<u8>) -> int
    decreases d.len(),
{
    if d.len() == 0 {
        0
    } else {
        decimal_value(d.drop_last()) * 10 + (d.last() - 48)
    }
}

/// Whether every octet of `d` is an ASCII digit.
pub open spec fn all_digits(d: Seq<u8>) -> bool {
    forall|i: int| 0 <= i < d.len() ==> 48 <= #[trigger] d[i] <= 57
}

/// A 16-bit unsigned number in decimal: an optional `+`, then at least one
/// digit, with a value that fits.
pub open spec fn parse_decimal_u16(t: Seq<u8>) -> Option<u16> {
    let d = if t.len() > 0 && t[0] == 43 {
        t.drop_first()
    } else {
        t
    };
    if d.len() > 0 && all_digits(d) && decimal_value(d) <= u16::MAX {
        Some(decimal_value(d) as u16)
    } else {
        None
    }
}

/// The key that presentation text `t` names: a registered name, `key65535`,
/// or `key` followed by a decimal number.
pub open spec fn key_of_text(t: Seq<u8>) -> Option<SvcParamKey> {
    if t == "mandatory".spec_bytes() {
        Some(SvcParamKey::Mandatory)
    } else if t == "alpn".spec_bytes() {
        Some(SvcParamKey::Alpn)
    } else if t == "no-default-alpn".spec_bytes() {
        Some(SvcParamKey::NoDefaultAlpn)
    } else if t == "port".spec_bytes() {
        Some(SvcParamKey::Port)
    } else if t == "ipv4hint".spec_bytes() {
        Some(SvcParamKey::Ipv4Hint)
    } else if t == "ech".spec_bytes() {
        Some(SvcParamKey::EchConfigList)
    } else if t == "ipv6hint".spec_bytes() {
        Some(SvcParamKey::Ipv6Hint)
    } else if t == "key65535".spec_bytes() {
        Some(SvcParamKey::Key65535)
    } else if t.len() >= 3 && t.subrange(0, 3) == "key".spec_bytes() {
        match parse_decimal_u16(t.subrange(3, t.len() as int)) {
            Some(v) => Some(SvcParamKey::Key(v)),
            None => None,
        }
    } else {
        None
    }
}

/// The presentation text of a key.
pub open spec fn key_text(k: SvcParamKey) -> Seq<char> {
    match k {
        SvcParamKey::Mandatory => "mandatory"@,
        SvcParamKey::Alpn => "alpn"@,
        SvcParamKey::NoDefaultAlpn => "no-default-alpn"@,
        SvcParamKey::Port => "port"@,
        SvcParamKey::Ipv4Hint => "ipv4hint"@,
        SvcParamKey::EchConfigList => "ech"@,
        SvcParamKey::Ipv6Hint => "ipv6hint"@,
        SvcParamKey::Key(v) => "key"@ + decimal_text(v as nat),
        SvcParamKey::Key65535 => "key65535"@,
        SvcParamKey::Unknown(v) => "unknown"@ + decimal_text(v as nat),
    }
}

/// The presentation text of a list of mandatory keys: each key followed by a comma.
pub open spec fn mandatory_text(ks: Seq<SvcParamKey>) -> Seq<char>
    decreases ks.len(),
{
    if ks.len() == 0 {
        Seq::empty()
    } else {
        mandatory_text(ks.drop_last()) + key_text(ks.last()) + seq![',']
    }
}

fn bytes_eq(a: &[u8], b: &[u8]) -> (r: bool)
    ensures
        r == (a@ == b@),
{
    if a.len() != b.len() {
        return false;
    }
    let mut i: usize = 0;
    while i < a.len()
        invariant
            a@.len() == b@.len(),
            i <= a@.len(),
            forall|k: int| 0 <= k < i ==> a@[k] == b@[k],
        decreases a@.len() - i,
    {
        if a[i] != b[i] {
            return false;
        }
        i = i + 1;
    }
    assert(a@ =~= b@);
    true
}

/// Parses a decimal number as `u16::from_str` does.
fn decimal_u16(t: &[u8]) -> (r: Option<u16>)
    ensures
        r == parse_decimal_u16(t@),
{
    let start: usize = if t.len() > 0 && t[0] == 43 { 1 } else { 0 };
    let ghost d = if t@.len() > 0 && t@[0] == 43 { t@.drop_first() } else { t@ };
    assert(d =~= t@.subrange(start as int, t@.len() as int));
    if start >= t.len() {
        return None;
    }
    let mut v: u32 = 0;
    let mut i: usize = start;
    while i < t.len()
        invariant
            start <= i <= t@.len(),
            d == t@.subrange(start as int, t@.len() as int),
            d == (if t@.len() > 0 && t@[0] == 43 {
                t@.drop_first()
            } else {
                t@
            }),
            all_digits(t@.subrange(start as int, i as int)),
            v == decimal_value(t@.subrange(start as int, i as int)),
            v <= u16::MAX,
        decreases t@.len() - i,
    {
        let c = t[i];
        let ghost pre = t@.subrange(start as int, i as int);
        assert(t@.subrange(start as int, i + 1) =~= pre.push(c));
        assert(t@.subrange(start as int, i + 1).drop_last() =~= pre);
        if c < 48 || c > 57 {
            proof {
                assert(d[i - start] == c);
                assert(!all_digits(d));
            }
            return None;
        }
        let next = v * 10 + (c - 48) as u32;
        if next > 65535 {
            proof {
                assert(decimal_value(pre.push(c)) == decimal_value(pre) * 10 + (c - 48));
                if all_digits(d) {
                    lemma_decimal_value_grows(d, (i - start + 1) as int);
                    assert(d.subrange(0, i - start + 1) =~= t@.subrange(start as int, i + 1));
                }
            }
            return None;
        }
        proof {
            assert(decimal_value(pre.push(c)) == decimal_value(pre) * 10 + (c - 48));
            assert forall|k: int| 0 <= k < pre.len() + 1 implies 48 <= #[trigger] pre.push(c)[k] <= 57 by {
                if k < pre.len() {
                    assert(pre.push(c)[k] == pre[k]);
                }
            }
        }
        v = next;
        i = i + 1;
    }
    assert(t@.subrange(start as int, i as int) =~= d);
    Some(v as u16)
}

proof fn lemma_decimal_value_nonneg(d: Seq<u8>)
    requires
        all_digits(d),
    ensures
        decimal_value(d) >= 0,
    decreases d.len(),
{
    if d.len() > 0 {
        assert(all_digits(d.drop_last())) by {
            assert forall|i: int| 0 <= i < d.drop_last().len() implies 48 <= #[trigger] d.drop_last()[i] <= 57 by {
                assert(d.drop_last()[i] == d[i]);
            }
        }
        lemma_decimal_value_nonneg(d.drop_last());
        assert(48 <= d[d.len() - 1] <= 57);
    }
}

/// The value of a prefix of digits is at most the value of the whole.
proof fn lemma_decimal_value_grows(d: Seq<u8>, n: int)
    requires
        0 <= n <= d.len(),
        all_digits(d),
    ensures
        decimal_value(d.subrange(0, n)) <= decimal_value(d),
    decreases d.len() - n,
{
    if n < d.len() {
        lemma_decimal_value_grows(d, n + 1);
        let p = d.subrange(0, n);
        let q = d.subrange(0, n + 1);
        assert(q.drop_last() =~= p);
        assert(q.last() == d[n]);
        assert(48 <= d[n] <= 57);
        assert(all_digits(p)) by {
            assert forall|i: int| 0 <= i < p.len() implies 48 <= #[trigger] p[i] <= 57 by {
                assert(p[i] == d[i]);
            }
        }
        lemma_decimal_value_nonneg(p);
        assert(decimal_value(q) == decimal_value(p) * 10 + (d[n] - 48));
    } else {
        assert(d.subrange(0, n) =~= d);
    }
}

/// What a parameter value holds, as plain values.
pub enum ParamValueView {
    Mandatory(Seq<SvcParamKey>),
    Alpn(Seq<Seq<char>>),
    NoDefaultAlpn,
    Port(u16),
    Ipv4Hint(Seq<Seq<u8>>),
    EchConfigList(Seq<u8>),
    Ipv6Hint(Seq<Seq<u8>>),
    Unknown(Seq<u8>),
}

/// A key in wire form.
pub open spec fn key_wire() -> spec_fn(SvcParamKey) -> Seq<u8> {
    |k: SvcParamKey| be16(key_code(k))
}

/// A protocol identifier in wire form: its UTF-8 octets as a character-string.
pub open spec fn alpn_wire() -> spec_fn(Seq<char>) -> Seq<u8> {
    |a: Seq<char>| char_string(encode_utf8(a))
}

/// An address in wire form: its octets.
pub open spec fn addr_wire() -> spec_fn(Seq<u8>) -> Seq<u8> {
    |a: Seq<u8>| a
}

/// The wire form of a parameter value, without its length field.
pub open spec fn value_wire(v: ParamValueView) -> Seq<u8> {
    match v {
        ParamValueView::Mandatory(ks) => concat(ks, key_wire()),
        ParamValueView::Alpn(ids) => concat(ids, alpn_wire()),
        ParamValueView::NoDefaultAlpn => Seq::empty(),
        ParamValueView::Port(p) => be16(p),
        ParamValueView::Ipv4Hint(hs) => concat(hs, addr_wire()),
        ParamValueView::EchConfigList(b) => b,
        ParamValueView::Ipv6Hint(hs) => concat(hs, addr_wire()),
        ParamValueView::Unknown(b) => b,
    }
}

/// The shape that each kind of value must have to be written: mandatory
/// keys, protocol identifiers and address hints are non-empty lists, and
/// each identifier fits its one-octet length.
pub open spec fn value_ok(v: ParamValueView) -> bool {
    match v {
        ParamValueView::Mandatory(ks) => ks.len() > 0,
        ParamValueView::Alpn(ids) => ids.len() > 0 && forall|i: int|
            0 <= i < ids.len() ==> (#[trigger] encode_utf8(ids[i])).len() <= 255,
        ParamValueView::Ipv4Hint(hs) => hs.len() > 0 && forall|i: int|
            0 <= i < hs.len() ==> (#[trigger] hs[i]).len() == 4,
        ParamValueView::Ipv6Hint(hs) => hs.len() > 0 && forall|i: int|
            0 <= i < hs.len() ==> (#[trigger] hs[i]).len() == 16,
        _ => true,
    }
}

/// A value that reads back as itself: mandatory keys in canonical form.
pub open spec fn value_canonical(v: ParamValueView) -> bool {
    v matches ParamValueView::Mandatory(ks) ==> forall|i: int|
        0 <= i < ks.len() ==> key_canonical(#[trigger] ks[i])
}

/// Whether a value is of the kind that its key calls for.
pub open spec fn kind_matches(k: SvcParamKey, v: ParamValueView) -> bool {
    match k {
        SvcParamKey::Mandatory => v is Mandatory,
        SvcParamKey::Alpn => v is Alpn,
        SvcParamKey::NoDefaultAlpn => v is NoDefaultAlpn,
        SvcParamKey::Port => v is Port,
        SvcParamKey::Ipv4Hint => v is Ipv4Hint,
        SvcParamKey::EchConfigList => v is EchConfigList,
        SvcParamKey::Ipv6Hint => v is Ipv6Hint,
        _ => v is Unknown,
    }
}

/// The keys of a mandatory list: two octets each, at least one.
pub open spec fn parse_mandatory(v: Seq<u8>) -> Option<Seq<SvcParamKey>> {
    if v.len() > 0 && v.len() % 2 == 0 {
        Some(Seq::new((v.len() / 2) as nat, |i: int| key_of_code(be16_value(v[2 * i], v[2 * i + 1]))))
    } else {
        None
    }
}

/// Protocol identifiers from `i` to the end of `v`: character-strings that
/// must exactly fill the value and hold UTF-8.
pub open spec fn parse_alpn_ids(v: Seq<u8>, i: int) -> Option<Seq<Seq<char>>>
    decreases v.len() - i,
{
    if i < 0 || i > v.len() {
        None
    } else if i == v.len() {
        Some(Seq::empty())
    } else if i + 1 + v[i] > v.len() {
        None
    } else {
        let b = v.subrange(i + 1, i + 1 + v[i]);
        if !valid_utf8(b) {
            None
        } else {
            match parse_alpn_ids(v, i + 1 + v[i]) {
                Some(rest) => Some(seq![decode_utf8(b)] + rest),
                None => None,
            }
        }
    }
}

/// Addresses of `w` octets each, at least one, exactly filling `v`.
pub open spec fn parse_addrs(v: Seq<u8>, w: nat) -> Option<Seq<Seq<u8>>> {
    if v.len() > 0 && v.len() % w == 0 {
        Some(Seq::new((v.len() / w) as nat, |i: int| v.subrange(w * i, w * i + w)))
    } else {
        None
    }
}

/// The value that the octets `v` of a parameter with key `k` hold.
pub open spec fn parse_value(k: SvcParamKey, v: Seq<u8>) -> Option<ParamValueView> {
    match k {
        SvcParamKey::Mandatory => match parse_mandatory(v) {
            Some(ks) => Some(ParamValueView::Mandatory(ks)),
            None => None,
        },
        SvcParamKey::Alpn => if v.len() > 0 {
            match parse_alpn_ids(v, 0) {
                Some(ids) => Some(ParamValueView::Alpn(ids)),
                None => None,
            }
        } else {
            None
        },
        SvcParamKey::NoDefaultAlpn => if v.len() == 0 {
            Some(ParamValueView::NoDefaultAlpn)
        } else {
            None
        },
        SvcParamKey::Port => if v.len() == 2 {
            Some(ParamValueView::Port(be16_value(v[0], v[1])))
        } else {
            None
        },
        SvcParamKey::Ipv4Hint => match parse_addrs(v, 4) {
            Some(hs) => Some(ParamValueView::Ipv4Hint(hs)),
            None => None,
        },
        SvcParamKey::EchConfigList => Some(ParamValueView::EchConfigList(v)),
        SvcParamKey::Ipv6Hint => match parse_addrs(v, 16) {
            Some(hs) => Some(ParamValueView::Ipv6Hint(hs)),
            None => None,
        },
        _ => Some(ParamValueView::Unknown(v)),
    }
}

/// Keys that a record's service must understand.
#[derive(Debug, PartialEq, Eq, Hash, Clone)]
pub struct Mandatory(pub Vec<SvcParamKey>);

impl Mandatory {
    /// Reads the keys that fill `data`; at least one is required.
    pub fn read(data: &[u8]) -> (res: Result<Mandatory, ProtoError>)
        ensures
            match res {
                Ok(m) => parse_mandatory(data@) == Some(m.0@),
                Err(_) => parse_mandatory(data@) is None,
            },
            res matches Err(e) ==> e != ProtoError::ParamsOutOfOrder,
    {
        let mut keys: Vec<SvcParamKey> = Vec::new();
        let mut i: usize = 0;
        while i < data.len()
            invariant
                i <= data@.len(),
                i == 2 * keys@.len(),
                forall|j: int|
                    0 <= j < keys@.len() ==> #[trigger] keys@[j] == key_of_code(
                        be16_value(data@[2 * j], data@[2 * j + 1]),
                    ),
            decreases data@.len() - i,
        {
            let (k, p) = SvcParamKey::read(data, i)?;
            keys.push(k);
            i = p;
        }
        if keys.len() == 0 {
            return Err(ProtoError::MalformedParam);
        }
        let ghost n = keys@.len();
        assert(data@.len() == 2 * n && data@.len() / 2 == n);
        assert(keys@ =~= parse_mandatory(data@)->0);
        Ok(Mandatory(keys))
    }

    /// The presentation text: each key followed by a comma.
    pub fn to_text(&self) -> (r: String)
        ensures
            r@ == mandatory_text(self.0@),
    {
        let ghost ks = self.0@;
        let mut s = String::new();
        let mut i: usize = 0;
        while i < self.0.len()
            invariant
                ks == self.0@,
                i <= ks.len(),
                s@ == mandatory_text(ks.subrange(0, i as int)),
            decreases ks.len() - i,
        {
            let t = self.0[i].to_text();
            push_str(&mut s, t.as_str());
            push_char(&mut s, ',');
            assert(ks.subrange(0, i + 1).drop_last() =~= ks.subrange(0, i as int));
            i = i + 1;
        }
        assert(ks.subrange(0, i as int) =~= ks);
        s
    }

    /// Appends each key's number; fails on an empty list.
    pub fn emit(&self, out: &mut Vec<u8>) -> (res: Result<(), ProtoError>)
        ensures
            res is Ok <==> value_ok(ParamValueView::Mandatory(self.0@)),
            res is Err ==> res == Err::<(), ProtoError>(ProtoError::MalformedParam),
            res is Ok ==> final(out)@ == old(out)@ + concat(self.0@, key_wire()),
            res is Err ==> final(out)@ == old(out)@,
    {
        let ghost ks = self.0@;
        if self.0.len() == 0 {
            return Err(ProtoError::MalformedParam);
        }
        let ghost start = out@;
        let mut i: usize = 0;
        while i < self.0.len()
            invariant
                ks == self.0@,
                i <= ks.len(),
                out@ == start + concat(ks.subrange(0, i as int), key_wire()),
            decreases ks.len() - i,
        {
            self.0[i].emit(out);
            proof {
                lemma_concat_push(ks.subrange(0, i as int), ks[i as int], key_wire());
                assert(ks.subrange(0, i + 1) =~= ks.subrange(0, i as int).push(ks[i as int]));
            }
            i = i + 1;
        }
        assert(ks.subrange(0, i as int) =~= ks);
        Ok(())
    }
}

/// Relies on `String::from_utf8`: it succeeds exactly when the octets are
/// valid UTF-8, and the string then holds the characters they encode.
#[verifier::external_body]
fn string_from_utf8(bytes: Vec<u8>) -> (r: Option<String>)
    ensures
        r is Some <==> valid_utf8(bytes@),
        r matches Some(s) ==> s@ == decode_utf8(bytes@),
{
    String::from_utf8(bytes).ok()
}

pub open spec fn prepend_ids(acc: Seq<Seq<char>>, o: Option<Seq<Seq<char>>>) -> Option<Seq<Seq<char>>> {
    match o {
        Some(r) => Some(acc + r),
        None => None,
    }
}

/// Application protocol identifiers that the service supports.
#[derive(Debug, PartialEq, Eq, Hash, Clone)]
pub struct Alpn(pub Vec<String>);

impl Alpn {
    pub open spec fn ids(&self) -> Seq<Seq<char>> {
        self.0@.map_values(|a: String| a@)
    }

    /// Reads the character-strings that exactly fill `data`; at least one.
    pub fn read(data: &[u8]) -> (res: Result<Alpn, ProtoError>)
        ensures
            match res {
                Ok(a) => data@.len() > 0 && parse_alpn_ids(data@, 0) == Some(a.ids()),
                Err(_) => data@.len() == 0 || parse_alpn_ids(data@, 0) is None,
            },
            res matches Err(e) ==> e != ProtoError::ParamsOutOfOrder,
    {
        let ghost v = data@;
        let mut ids: Vec<String> = Vec::new();
        let mut i: usize = 0;
        while i < data.len()
            invariant
                v == data@,
                i <= v.len(),
                parse_alpn_ids(v, 0) == prepend_ids(
                    ids@.map_values(|a: String| a@),
                    parse_alpn_ids(v, i as int),
                ),
            decreases v.len() - i,
        {
            let n = data[i] as usize;
            if data.len() - (i + 1) < n {
                return Err(ProtoError::UnexpectedEnd);
            }
            let bytes = slice_to_vec(slice_subrange(data, i + 1, i + 1 + n));
            let id = match string_from_utf8(bytes) {
                Some(id) => id,
                None => return Err(ProtoError::NotUtf8),
            };
            let ghost before = ids@.map_values(|a: String| a@);
            ids.push(id);
            proof {
                assert(ids@.map_values(|a: String| a@) =~= before.push(id@));
                match parse_alpn_ids(v, i + 1 + n) {
                    Some(r) => {
                        assert(before + (seq![id@] + r) =~= before.push(id@) + r);
                    },
                    None => {},
                }
            }
            i = i + 1 + n;
        }
        if ids.len() == 0 {
            return Err(ProtoError::MalformedParam);
        }
        let ghost acc = ids@.map_values(|a: String| a@);
        assert(acc + Seq::<Seq<char>>::empty() =~= acc);
        Ok(Alpn(ids))
    }

    /// Appends each identifier as a character-string; fails on an empty list
    /// or an identifier longer than 255 octets.
    pub fn emit(&self, out: &mut Vec<u8>) -> (res: Result<(), ProtoError>)
        ensures
            res is Ok <==> value_ok(ParamValueView::Alpn(self.ids())),
            res is Err ==> res == Err::<(), ProtoError>(ProtoError::MalformedParam),
            res is Ok ==> final(out)@ == old(out)@ + concat(self.ids(), alpn_wire()),
            res is Err ==> final(out)@ == old(out)@,
    {
        let ghost ids = self.ids();
        if self.0.len() == 0 {
            return Err(ProtoError::MalformedParam);
        }
        let mut i: usize = 0;
        while i < self.0.len()
            invariant
                ids == self.ids(),
                i <= ids.len(),
                forall|j: int| 0 <= j < i ==> (#[trigger] encode_utf8(ids[j])).len() <= 255,
            decreases ids.len() - i,
        {
            let b = self.0[i].as_str().as_bytes();
            assert(self.0@[i as int]@ == ids[i as int]);
            if b.len() > 255 {
                return Err(ProtoError::MalformedParam);
            }
            i = i + 1;
        }
        let ghost start = out@;
        let mut i: usize = 0;
        while i < self.0.len()
            invariant
                ids == self.ids(),
                i <= ids.len(),
                forall|j: int| 0 <= j < ids.len() ==> (#[trigger] encode_utf8(ids[j])).len() <= 255,
                out@ == start + concat(ids.subrange(0, i as int), alpn_wire()),
            decreases ids.len() - i,
        {
            let b = self.0[i].as_str().as_bytes();
            assert(self.0@[i as int]@ == ids[i as int]);
            assert(b@.len() <= 255);
            out.push(b.len() as u8);
            emit_bytes(out, b);
            proof {
                lemma_concat_push(ids.subrange(0, i as int), ids[i as int], alpn_wire());
                assert(ids.subrange(0, i + 1) =~= ids.subrange(0, i as int).push(ids[i as int]));
                assert(out@ =~= start + concat(ids.subrange(0, i + 1), alpn_wire()));
            }
            i = i + 1;
        }
        assert(ids.subrange(0, i as int) =~= ids);
        Ok(())
    }
}

/// The padded standard Base64 encoding of `b`.
pub uninterp spec fn base64_of(b: Seq<u8>) -> Seq<char>;

/// Relies on `data_encoding::BASE64.encode`: padded standard Base64, four
/// characters for each started group of three octets. `encode_len` panics
/// on inputs over `usize::MAX / 512` octets.
#[verifier::external_body]
fn base64_encode(b: &[u8]) -> (r: String)
    requires
        b@.len() <= usize::MAX / 512,
    ensures
        r@ == base64_of(b@),
        r@.len() == 4 * ((b@.len() + 2) / 3),
{
    data_encoding::BASE64.encode(b)
}

/// An Encrypted ClientHello configuration list, kept as its octets.
#[derive(Debug, PartialEq, Eq, Hash, Clone)]
pub struct EchConfigList(pub Vec<u8>);

impl EchConfigList {
    /// Takes all of `data`.
    pub fn read(data: &[u8]) -> (r: EchConfigList)
        ensures
            r.0@ == data@,
    {
        EchConfigList(slice_to_vec(data))
    }

    /// Appends the octets unchanged.
    pub fn emit(&self, out: &mut Vec<u8>)
        ensures
            final(out)@ == old(out)@ + self.0@,
    {
        emit_bytes(out, self.0.as_slice());
    }

    /// The presentation form: the octets in Base64.
    pub fn to_base64(&self) -> (r: String)
        requires
            self.0@.len() <= usize::MAX / 512,
        ensures
            r@ == base64_of(self.0@),
    {
        base64_encode(self.0.as_slice())
    }
}

/// The value of a parameter whose key this library does not interpret.
#[derive(Debug, PartialEq, Eq, Hash, Clone)]
pub struct Unknown(pub Vec<u8>);

impl Unknown {
    /// Takes all of `data`.
    pub fn read(data: &[u8]) -> (r: Unknown)
        ensures
            r.0@ == data@,
    {
        Unknown(slice_to_vec(data))
    }

    /// Appends the octets unchanged.
    pub fn emit(&self, out: &mut Vec<u8>)
        ensures
            final(out)@ == old(out)@ + self.0@,
    {
        emit_bytes(out, self.0.as_slice());
    }
}

/// An IPv4 address, as its four octets in network order.
#[derive(Debug, Clone, Copy, PartialEq, Eq, Hash)]
pub struct A(pub [u8; 4]);

/// An IPv6 address, as its sixteen octets in network order.
#[derive(Debug, Clone, Copy, PartialEq, Eq, Hash)]
pub struct AAAA(pub [u8; 16]);

/// Addresses that clients may use to reach the service.
#[derive(Debug, PartialEq, Eq, Hash, Clone)]
pub struct IpHint<T>(pub Vec<T>);

impl IpHint<A> {
    pub open spec fn addrs(&self) -> Seq<Seq<u8>> {
        self.0@.map_values(|a: A| a.0@)
    }

    /// Reads the addresses of 4 octets that exactly fill `data`; at least one.
    pub fn read(data: &[u8]) -> (res: Result<IpHint<A>, ProtoError>)
        ensures
            match res {
                Ok(h) => parse_addrs(data@, 4) == Some(h.addrs()),
                Err(_) => parse_addrs(data@, 4) is None,
            },
            res matches Err(e) ==> e != ProtoError::ParamsOutOfOrder,
    {
        if data.len() == 0 || data.len() % 4 != 0 {
            return Err(ProtoError::MalformedParam);
        }
        let mut hs: Vec<A> = Vec::new();
        let mut i: usize = 0;
        while i < data.len()
            invariant
                i <= data@.len(),
                data@.len() % 4 == 0,
                i == 4 * hs@.len(),
                forall|j: int|
                    0 <= j < hs@.len() ==> (#[trigger] hs@[j]).0@ == data@.subrange(4 * j, 4 * j + 4),
            decreases data@.len() - i,
        {
            let a = A([data[i], data[i + 1], data[i + 2], data[i + 3]]);
            assert(a.0@ =~= data@.subrange(i as int, i + 4));
            hs.push(a);
            i = i + 4;
        }
        let h = IpHint(hs);
        assert(data@.len() / 4 == hs@.len());
        assert(h.addrs() =~= parse_addrs(data@, 4)->0);
        Ok(h)
    }

    /// Appends the octets of each address; fails on an empty list.
    pub fn emit(&self, out: &mut Vec<u8>) -> (res: Result<(), ProtoError>)
        ensures
            res is Ok <==> value_ok(ParamValueView::Ipv4Hint(self.addrs())),
            res is Err ==> res == Err::<(), ProtoError>(ProtoError::MalformedParam),
            res is Ok ==> final(out)@ == old(out)@ + concat(self.addrs(), addr_wire()),
            res is Err ==> final(out)@ == old(out)@,
    {
        let ghost hs = self.addrs();
        if self.0.len() == 0 {
            return Err(ProtoError::MalformedParam);
        }
        let ghost start = out@;
        let mut i: usize = 0;
        while i < self.0.len()
            invariant
                hs == self.addrs(),
                i <= hs.len(),
                out@ == start + concat(hs.subrange(0, i as int), addr_wire()),
            decreases hs.len() - i,
        {
            emit_bytes(out, self.0[i].0.as_slice());
            proof {
                lemma_concat_push(hs.subrange(0, i as int), hs[i as int], addr_wire());
                assert(hs.subrange(0, i + 1) =~= hs.subrange(0, i as int).push(hs[i as int]));
            }
            i = i + 1;
        }
        assert(hs.subrange(0, i as int) =~= hs);
        Ok(())
    }
}

impl IpHint<AAAA> {
    pub open spec fn addrs(&self) -> Seq<Seq<u8>> {
        self.0@.map_values(|a: AAAA| a.0@)
    }

    /// Reads the addresses of 16 octets that exactly fill `data`; at least one.
    pub fn read(data: &[u8]) -> (res: Result<IpHint<AAAA>, ProtoError>)
        ensures
            match res {
                Ok(h) => parse_addrs(data@, 16) == Some(h.addrs()),
                Err(_) => parse_addrs(data@, 16) is None,
            },
            res matches Err(e) ==> e != ProtoError::ParamsOutOfOrder,
    {
        if data.len() == 0 || data.len() % 16 != 0 {
            return Err(ProtoError::MalformedParam);
        }
        let mut hs: Vec<AAAA> = Vec::new();
        let mut i: usize = 0;
        while i < data.len()
            invariant
                i <= data@.len(),
                data@.len() % 16 == 0,
                i == 16 * hs@.len(),
                forall|j: int|
                    0 <= j < hs@.len() ==> (#[trigger] hs@[j]).0@ == data@.subrange(16 * j, 16 * j + 16),
            decreases data@.len() - i,
        {
            let a = AAAA([data[i], data[i + 1], data[i + 2], data[i + 3], data[i + 4], data[i + 5], data[i + 6], data[i + 7], data[i + 8], data[i + 9], data[i + 10], data[i + 11], data[i + 12], data[i + 13], data[i + 14], data[i + 15]]);
            assert(a.0@ =~= data@.subrange(i as int, i + 16));
            hs.push(a);
            i = i + 16;
        }
        let h = IpHint(hs);
        assert(data@.len() / 16 == hs@.len());
        assert(h.addrs() =~= parse_addrs(data@, 16)->0);
        Ok(h)
    }

    /// Appends the octets of each address; fails on an empty list.
    pub fn emit(&self, out: &mut Vec<u8>) -> (res: Result<(), ProtoError>)
        ensures
            res is Ok <==> value_ok(ParamValueView::Ipv6Hint(self.addrs())),
            res is Err ==> res == Err::<(), ProtoError>(ProtoError::MalformedParam),
            res is Ok ==> final(out)@ == old(out)@ + concat(self.addrs(), addr_wire()),
            res is Err ==> final(out)@ == old(out)@,
    {
        let ghost hs = self.addrs();
        if self.0.len() == 0 {
            return Err(ProtoError::MalformedParam);
        }
        let ghost start = out@;
        let mut i: usize = 0;
        while i < self.0.len()
            invariant
                hs == self.addrs(),
                i <= hs.len(),
                out@ == start + concat(hs.subrange(0, i as int), addr_wire()),
            decreases hs.len() - i,
        {
            emit_bytes(out, self.0[i].0.as_slice());
            proof {
                lemma_concat_push(hs.subrange(0, i as int), hs[i as int], addr_wire());
                assert(hs.subrange(0, i + 1) =~= hs.subrange(0, i as int).push(hs[i as int]));
            }
            i = i + 1;
        }
        assert(hs.subrange(0, i as int) =~= hs);
        Ok(())
    }
}

/// A service parameter value, one kind for each kind of key.
#[derive(Debug, PartialEq, Eq, Hash, Clone)]
pub enum SvcParamValue {
    /// Keys that the service requires clients to understand.
    Mandatory(Mandatory),
    /// Supported application protocols.
    Alpn(Alpn),
    /// The default protocol is not supported; empty on the wire.
    NoDefaultAlpn,
    /// Port of the alternative endpoint.
    Port(u16),
    /// IPv4 address hints.
    Ipv4Hint(IpHint<A>),
    /// Encrypted ClientHello configuration.
    EchConfigList(EchConfigList),
    /// IPv6 address hints.
    Ipv6Hint(IpHint<AAAA>),
    /// Uninterpreted octets.
    Unknown(Unknown),
}

impl View for SvcParamValue {
    type V = ParamValueView;

    open spec fn view(&self) -> ParamValueView {
        match self {
            SvcParamValue::Mandatory(m) => ParamValueView::Mandatory(m.0@),
            SvcParamValue::Alpn(a) => ParamValueView::Alpn(a.ids()),
            SvcParamValue::NoDefaultAlpn => ParamValueView::NoDefaultAlpn,
            SvcParamValue::Port(p) => ParamValueView::Port(*p),
            SvcParamValue::Ipv4Hint(h) => ParamValueView::Ipv4Hint(h.addrs()),
            SvcParamValue::EchConfigList(e) => ParamValueView::EchConfigList(e.0@),
            SvcParamValue::Ipv6Hint(h) => ParamValueView::Ipv6Hint(h.addrs()),
            SvcParamValue::Unknown(u) => ParamValueView::Unknown(u.0@),
        }
    }
}

impl SvcParamValue {
    /// Reads the value of a parameter with key `key` from its octets `data`,
    /// which it must have the shape of.
    pub fn read(key: SvcParamKey, data: &[u8]) -> (res: Result<SvcParamValue, ProtoError>)
        ensures
            match res {
                Ok(v) => parse_value(key, data@) == Some(v@),
                Err(_) => parse_value(key, data@) is None,
            },
            res matches Err(e) ==> e != ProtoError::ParamsOutOfOrder,
    {
        match key {
            SvcParamKey::Mandatory => Ok(SvcParamValue::Mandatory(Mandatory::read(data)?)),
            SvcParamKey::Alpn => {
                if data.len() == 0 {
                    return Err(ProtoError::MalformedParam);
                }
                Ok(SvcParamValue::Alpn(Alpn::read(data)?))
            },
            SvcParamKey::NoDefaultAlpn => {
                if data.len() > 0 {
                    return Err(ProtoError::MalformedParam);
                }
                Ok(SvcParamValue::NoDefaultAlpn)
            },
            SvcParamKey::Port => {
                if data.len() != 2 {
                    return Err(ProtoError::MalformedParam);
                }
                let (port, _) = read_u16(data, 0)?;
                Ok(SvcParamValue::Port(port))
            },
            SvcParamKey::Ipv4Hint => Ok(SvcParamValue::Ipv4Hint(IpHint::<A>::read(data)?)),
            SvcParamKey::EchConfigList => Ok(SvcParamValue::EchConfigList(EchConfigList::read(data))),
            SvcParamKey::Ipv6Hint => Ok(SvcParamValue::Ipv6Hint(IpHint::<AAAA>::read(data)?)),
            _ => Ok(SvcParamValue::Unknown(Unknown::read(data))),
        }
    }

    /// Appends a two-octet length and then the value. Fails when the value
    /// does not have the shape of its kind or is longer than 65535 octets.
    pub fn emit(&self, out: &mut Vec<u8>) -> (res: Result<(), ProtoError>)
        ensures
            res is Ok <==> value_ok(self@) && value_wire(self@).len() <= u16::MAX,
            res matches Err(e) ==> e == ProtoError::MalformedParam || e == ProtoError::LengthOverflow,
            res is Ok ==> final(out)@ == old(out)@ + be16(value_wire(self@).len() as u16)
                + value_wire(self@),
            res is Err ==> final(out)@ == old(out)@,
    {
        let ghost start = out@;
        let place = place_u16(out);
        let ghost mid = out@;
        match self {
            SvcParamValue::Mandatory(m) => {
                if let Err(e) = m.emit(out) {
                    out.truncate(place);
                    assert(out@ =~= start);
                    return Err(e);
                }
            },
            SvcParamValue::Alpn(a) => {
                if let Err(e) = a.emit(out) {
                    out.truncate(place);
                    assert(out@ =~= start);
                    return Err(e);
                }
            },
            SvcParamValue::NoDefaultAlpn => {},
            SvcParamValue::Port(p) => emit_u16(out, *p),
            SvcParamValue::Ipv4Hint(h) => {
                if let Err(e) = h.emit(out) {
                    out.truncate(place);
                    assert(out@ =~= start);
                    return Err(e);
                }
            },
            SvcParamValue::EchConfigList(e) => e.emit(out),
            SvcParamValue::Ipv6Hint(h) => {
                if let Err(e) = h.emit(out) {
                    out.truncate(place);
                    assert(out@ =~= start);
                    return Err(e);
                }
            },
            SvcParamValue::Unknown(u) => u.emit(out),
        }
        assert(out@ =~= mid + value_wire(self@));
        let ghost full = out@;
        match patch_len_since(out, place) {
            Ok(()) => {
                assert(out@ =~= start + be16(value_wire(self@).len() as u16) + value_wire(self@));
                Ok(())
            },
            Err(e) => {
                out.truncate(place);
                assert(out@ =~= start);
                Err(e)
            },
        }
    }
}

/// What an SVCB or HTTPS record holds, as plain values.
pub struct SvcbView {
    pub priority: u16,
    pub target: Seq<Seq<u8>>,
    pub params: Seq<(SvcParamKey, ParamValueView)>,
}

/// A parameter in wire form: key, two-octet length, value.
pub open spec fn param_wire() -> spec_fn((SvcParamKey, ParamValueView)) -> Seq<u8> {
    |p: (SvcParamKey, ParamValueView)|
        be16(key_code(p.0)) + be16(value_wire(p.1).len() as u16) + value_wire(p.1)
}

/// The record data in wire form: priority, uncompressed target name, parameters.
pub open spec fn svcb_wire(r: SvcbView) -> Seq<u8> {
    be16(r.priority) + name_wire(r.target) + concat(r.params, param_wire())
}

/// A parameter that can be written: a value of its kind's shape whose
/// length fits its field.
pub open spec fn param_encodable(p: (SvcParamKey, ParamValueView)) -> bool {
    value_ok(p.1) && value_wire(p.1).len() <= u16::MAX
}

/// A parameter that can be written and reads back as itself: besides,
/// a canonical key, a value of the key's kind, canonical mandatory keys.
pub open spec fn param_ok(p: (SvcParamKey, ParamValueView)) -> bool {
    &&& key_canonical(p.0)
    &&& kind_matches(p.0, p.1)
    &&& value_canonical(p.1)
    &&& param_encodable(p)
}

/// Each key is numerically greater than the one before it.
pub open spec fn keys_increasing(ps: Seq<(SvcParamKey, ParamValueView)>) -> bool {
    forall|i: int| 0 < i < ps.len() ==> key_code(#[trigger] ps[i - 1].0) < key_code(ps[i].0)
}

/// A record that can be written: parameters that can each be written, in
/// strictly increasing key order, and record data that fits a two-octet
/// length. Whether a key matches its value is the caller's concern.
pub open spec fn svcb_encodable(r: SvcbView) -> bool {
    &&& name_valid(r.target)
    &&& forall|i: int| 0 <= i < r.params.len() ==> param_encodable(#[trigger] r.params[i])
    &&& keys_increasing(r.params)
    &&& svcb_wire(r).len() <= u16::MAX
}

/// A record that can be written and reads back as itself: besides, each
/// key canonical and matching its value's kind.
pub open spec fn svcb_valid(r: SvcbView) -> bool {
    &&& svcb_encodable(r)
    &&& forall|i: int| 0 <= i < r.params.len() ==> param_ok(#[trigger] r.params[i])
}

/// The parameters from `i` to the end of `s`, each key greater than `last`
/// and than the key before it; trailing octets are refused.
pub open spec fn parse_params(s: Seq<u8>, i: int, last: Option<u16>) -> Option<
    Seq<(SvcParamKey, ParamValueView)>,
>
    decreases s.len() - i,
{
    if i < 0 || i > s.len() {
        None
    } else if i == s.len() {
        Some(Seq::empty())
    } else if i + 4 > s.len() {
        None
    } else {
        let code = be16_value(s[i], s[i + 1]);
        let len = be16_value(s[i + 2], s[i + 3]) as int;
        if i + 4 + len > s.len() {
            None
        } else if last is Some && code <= last->0 {
            None
        } else {
            match parse_value(key_of_code(code), s.subrange(i + 4, i + 4 + len)) {
                None => None,
                Some(v) => match parse_params(s, i + 4 + len, Some(code)) {
                    Some(rest) => Some(seq![(key_of_code(code), v)] + rest),
                    None => None,
                },
            }
        }
    }
}

/// Whether reading parameters from `i` on first fails on a key that is not
/// greater than the one before it (or than `last`).
pub open spec fn params_order_error(s: Seq<u8>, i: int, last: Option<u16>) -> bool
    decreases s.len() - i,
{
    if i < 0 || i >= s.len() || i + 4 > s.len() {
        false
    } else {
        let code = be16_value(s[i], s[i + 1]);
        let len = be16_value(s[i + 2], s[i + 3]) as int;
        if i + 4 + len > s.len() {
            false
        } else if last is Some && code <= last->0 {
            true
        } else {
            match parse_value(key_of_code(code), s.subrange(i + 4, i + 4 + len)) {
                Some(_) => params_order_error(s, i + 4 + len, Some(code)),
                None => false,
            }
        }
    }
}

/// Whether reading record data `s` first fails on a key out of order.
pub open spec fn svcb_order_error(s: Seq<u8>) -> bool {
    &&& s.len() >= 2
    &&& parse_name(s, 2) matches Some((_, e))
    &&& params_order_error(s, e, None)
}

/// The record that the octets `s` of record data hold, if any.
pub open spec fn parse_svcb(s: Seq<u8>) -> Option<SvcbView> {
    if s.len() < 2 {
        None
    } else {
        match parse_name(s, 2) {
            Some((t, e)) => match parse_params(s, e, None) {
                Some(ps) => Some(SvcbView { priority: be16_value(s[0], s[1]), target: t, params: ps }),
                None => None,
            },
            None => None,
        }
    }
}

pub open spec fn prepend_params(
    acc: Seq<(SvcParamKey, ParamValueView)>,
    o: Option<Seq<(SvcParamKey, ParamValueView)>>,
) -> Option<Seq<(SvcParamKey, ParamValueView)>> {
    match o {
        Some(r) => Some(acc + r),
        None => None,
    }
}

pub open spec fn params_view(ps: Seq<(SvcParamKey, SvcParamValue)>) -> Seq<(SvcParamKey, ParamValueView)> {
    ps.map_values(|p: (SvcParamKey, SvcParamValue)| (p.0, p.1@))
}

/// SVCB record data (the HTTPS record has the same form): a priority, a
/// target name and service parameters in strictly increasing key order.
#[derive(Debug, Clone, PartialEq, Eq, Hash)]
pub struct SVCB {
    svc_priority: u16,
    target_name: Name,
    svc_params: Vec<(SvcParamKey, SvcParamValue)>,
}

impl View for SVCB {
    type V = SvcbView;

    closed spec fn view(&self) -> SvcbView {
        SvcbView {
            priority: self.svc_priority,
            target: self.target_name@,
            params: params_view(self.svc_params@),
        }
    }
}

impl SVCB {
    /// A record from its parts; whether they are valid is checked on `emit`.
    pub fn new(svc_priority: u16, target_name: Name, svc_params: Vec<(SvcParamKey, SvcParamValue)>) -> (r: SVCB)
        ensures
            r@.priority == svc_priority,
            r@.target == target_name@,
            r@.params == params_view(svc_params@),
    {
        SVCB { svc_priority, target_name, svc_params }
    }

    /// The priority; 0 means alias mode.
    pub fn svc_priority(&self) -> (r: u16)
        ensures
            r == self@.priority,
    {
        self.svc_priority
    }

    /// The target name.
    pub fn target_name(&self) -> (r: &Name)
        ensures
            r@ == self@.target,
    {
        &self.target_name
    }

    /// The parameters, in the order they were given or read.
    pub fn svc_params(&self) -> (r: &[(SvcParamKey, SvcParamValue)])
        ensures
            params_view(r@) == self@.params,
    {
        self.svc_params.as_slice()
    }

    /// Reads record data that fills `rdata` exactly: a priority, an
    /// uncompressed target name, then parameters whose keys strictly increase.
    pub fn read_data(rdata: &[u8]) -> (res: Result<SVCB, ProtoError>)
        ensures
            match res {
                Ok(r) => parse_svcb(rdata@) == Some(r@),
                Err(_) => parse_svcb(rdata@) is None,
            },
            res == Err::<SVCB, ProtoError>(ProtoError::ParamsOutOfOrder) <==> svcb_order_error(rdata@),
    {
        let ghost s = rdata@;
        let (svc_priority, p) = read_u16(rdata, 0)?;
        let (target_name, start) = read_name(rdata, p)?;
        proof {
            lemma_parse_labels_sound(s, p as int);
        }
        let mut params: Vec<(SvcParamKey, SvcParamValue)> = Vec::new();
        let mut last: Option<u16> = None;
        let mut i: usize = start;
        while i < rdata.len()
            invariant
                s == rdata@,
                s.len() >= 2,
                parse_name(s, 2) == Some((target_name@, start as int)),
                start <= i <= s.len(),
                parse_params(s, start as int, None) == prepend_params(
                    params_view(params@),
                    parse_params(s, i as int, last),
                ),
                svcb_order_error(s) == params_order_error(s, i as int, last),
            decreases s.len() - i,
        {
            if rdata.len() - i < 4 {
                return Err(ProtoError::UnexpectedEnd);
            }
            let (code, p1) = read_u16(rdata, i)?;
            let (len, p2) = read_u16(rdata, p1)?;
            if rdata.len() - p2 < len as usize {
                return Err(ProtoError::UnexpectedEnd);
            }
            if let Some(l) = last {
                if code <= l {
                    return Err(ProtoError::ParamsOutOfOrder);
                }
            }
            let key = SvcParamKey::from(code);
            let value = SvcParamValue::read(key, slice_subrange(rdata, p2, p2 + len as usize))?;
            let ghost before = params_view(params@);
            let ghost pv = (key, value@);
            params.push((key, value));
            proof {
                assert(params_view(params@) =~= before.push(pv));
                match parse_params(s, p2 + len, Some(code)) {
                    Some(r) => {
                        assert(before + (seq![pv] + r) =~= before.push(pv) + r);
                    },
                    None => {},
                }
            }
            last = Some(code);
            i = p2 + len as usize;
        }
        proof {
            let acc = params_view(params@);
            assert(acc + Seq::<(SvcParamKey, ParamValueView)>::empty() =~= acc);
        }
        Ok(SVCB { svc_priority, target_name, svc_params: params })
    }

    /// Appends the record data in wire form. Fails, leaving `out` as it was,
    /// unless keys strictly increase (they are never reordered; an
    /// out-of-order key fails with `ParamsOutOfOrder`), each value has its
    /// kind's shape and fits its length field, and the whole fits 65535
    /// octets. Whether keys match their values is the caller's concern.
    pub fn emit(&self, out: &mut Vec<u8>) -> (res: Result<(), ProtoError>)
        ensures
            res is Ok <==> svcb_encodable(self@),
            res is Ok ==> final(out)@ == old(out)@ + svcb_wire(self@),
            res is Err ==> final(out)@ == old(out)@,
            res == Err::<(), ProtoError>(ProtoError::ParamsOutOfOrder) ==> !keys_increasing(
                self@.params,
            ),
            !keys_increasing(self@.params) && (forall|i: int|
                0 <= i < self@.params.len() ==> param_encodable(#[trigger] self@.params[i]))
                && svcb_wire(self@).len() <= u16::MAX ==> res == Err::<(), ProtoError>(
                ProtoError::ParamsOutOfOrder,
            ),
    {
        let ghost r = self@;
        let ghost ps = r.params;
        let mut buf: Vec<u8> = Vec::new();
        emit_u16(&mut buf, self.svc_priority);
        emit_name(&mut buf, &self.target_name);
        let ghost head = buf@;
        assert(head =~= be16(r.priority) + name_wire(r.target));
        let mut i: usize = 0;
        while i < self.svc_params.len()
            invariant
                r == self@,
                ps == r.params,
                ps == params_view(self.svc_params@),
                head == be16(r.priority) + name_wire(r.target),
                name_valid(r.target),
                i <= ps.len(),
                buf@ == head + concat(ps.subrange(0, i as int), param_wire()),
                buf@.len() <= u16::MAX,
                forall|j: int| 0 <= j < i ==> param_encodable(#[trigger] ps[j]),
                forall|j: int| 0 < j < i ==> key_code(#[trigger] ps[j - 1].0) < key_code(ps[j].0),
            decreases ps.len() - i,
        {
            let key = &self.svc_params[i].0;
            let value = &self.svc_params[i].1;
            assert(ps[i as int] == (*key, value@));
            if i > 0 {
                let prev = self.svc_params[i - 1].0;
                assert(ps[i - 1].0 == prev);
                if u16::from(*key) <= u16::from(prev) {
                    assert(!keys_increasing(ps));
                    return Err(ProtoError::ParamsOutOfOrder);
                }
            }
            key.emit(&mut buf);
            if let Err(e) = value.emit(&mut buf) {
                assert(!param_encodable(ps[i as int]));
                return Err(e);
            }
            proof {
                lemma_concat_push(ps.subrange(0, i as int), ps[i as int], param_wire());
                assert(ps.subrange(0, i + 1) =~= ps.subrange(0, i as int).push(ps[i as int]));
                assert(buf@ =~= head + concat(ps.subrange(0, i + 1), param_wire()));
            }
            if buf.len() > 65535 {
                proof {
                    lemma_concat_prefix_len(ps, i + 1, param_wire());
                }
                return Err(ProtoError::LengthOverflow);
            }
            i = i + 1;
        }
        assert(ps.subrange(0, i as int) =~= ps);
        emit_bytes(out, buf.as_slice());
        Ok(())
    }

    /// The record data in wire form, or why it cannot be written (see `emit`).
    pub fn to_bytes(&self) -> (res: Result<Vec<u8>, ProtoError>)
        ensures
            res is Ok <==> svcb_encodable(self@),
            res matches Ok(b) ==> b@ == svcb_wire(self@),
    {
        let mut out: Vec<u8> = Vec::new();
        self.emit(&mut out)?;
        assert(out@ =~= svcb_wire(self@));
        Ok(out)
    }
}

/// The characters `from_utf8_lossy` gives for `b`.
pub uninterp spec fn lossy_of(b: Seq<u8>) -> Seq<char>;

/// Relies on `String::from_utf8_lossy`: valid UTF-8 is decoded unchanged,
/// each invalid sequence becomes U+FFFD.
#[verifier::external_body]
fn utf8_lossy(b: &[u8]) -> (r: String)
    ensures
        r@ == lossy_of(b@),
        valid_utf8(b@) ==> r@ == decode_utf8(b@),
{
    String::from_utf8_lossy(b).into_owned()
}

/// Protocol identifiers, each followed by a comma.
pub open spec fn ids_text(ids: Seq<Seq<char>>) -> Seq<char>
    decreases ids.len(),
{
    if ids.len() == 0 {
        Seq::empty()
    } else {
        ids_text(ids.drop_last()) + ids.last() + seq![',']
    }
}

/// An IPv4 address in dotted decimal.
pub open spec fn ipv4_text(a: Seq<u8>) -> Seq<char> {
    decimal_text(a[0] as nat) + seq!['.'] + decimal_text(a[1] as nat) + seq!['.'] + decimal_text(
        a[2] as nat,
    ) + seq!['.'] + decimal_text(a[3] as nat)
}

/// Group `k` of an IPv6 address: two octets in network order.
pub open spec fn ipv6_group(a: Seq<u8>, k: int) -> nat {
    (a[2 * k] as nat) * 256 + a[2 * k + 1] as nat
}

/// The text of the first `n` groups of an IPv6 address, separated by colons.
pub open spec fn ipv6_groups_text(a: Seq<u8>, n: int) -> Seq<char>
    decreases n,
{
    if n <= 0 {
        Seq::empty()
    } else if n == 1 {
        hex_text(ipv6_group(a, 0))
    } else {
        ipv6_groups_text(a, n - 1) + seq![':'] + hex_text(ipv6_group(a, n - 1))
    }
}

/// An IPv6 address in full form: eight groups in hexadecimal without
/// leading zeros, separated by colons (RFC 4291, section 2.2). Runs of zero
/// groups are written out, not compressed to `::` as in the RFC 5952 form
/// (`2001:db8:0:0:0:0:0:1` rather than `2001:db8::1`); both denote the same
/// address.
pub open spec fn ipv6_text(a: Seq<u8>) -> Seq<char> {
    ipv6_groups_text(a, 8)
}

/// Addresses, each in the text that `f` gives and followed by a comma.
pub open spec fn addrs_text(hs: Seq<Seq<u8>>, f: spec_fn(Seq<u8>) -> Seq<char>) -> Seq<char>
    decreases hs.len(),
{
    if hs.len() == 0 {
        Seq::empty()
    } else {
        addrs_text(hs.drop_last(), f) + f(hs.last()) + seq![',']
    }
}

pub open spec fn ipv4_text_fn() -> spec_fn(Seq<u8>) -> Seq<char> {
    |a: Seq<u8>| ipv4_text(a)
}

pub open spec fn ipv6_text_fn() -> spec_fn(Seq<u8>) -> Seq<char> {
    |a: Seq<u8>| ipv6_text(a)
}

/// The presentation text of a parameter value.
pub open spec fn value_text(v: ParamValueView) -> Seq<char> {
    match v {
        ParamValueView::Mandatory(ks) => mandatory_text(ks),
        ParamValueView::Alpn(ids) => ids_text(ids),
        ParamValueView::NoDefaultAlpn => Seq::empty(),
        ParamValueView::Port(p) => decimal_text(p as nat),
        ParamValueView::Ipv4Hint(hs) => addrs_text(hs, ipv4_text_fn()),
        ParamValueView::EchConfigList(b) => seq!['"'] + base64_of(b) + seq!['"'],
        ParamValueView::Ipv6Hint(hs) => addrs_text(hs, ipv6_text_fn()),
        ParamValueView::Unknown(b) => seq!['"'] + lossy_of(b) + seq!['"', ','],
    }
}

/// A value whose text can be made: an ECH list within Base64's length limit.
pub open spec fn value_printable(v: ParamValueView) -> bool {
    v matches ParamValueView::EchConfigList(b) ==> b.len() <= usize::MAX / 512
}

/// Each parameter as a space, its key, `=` and its value.
pub open spec fn params_text(ps: Seq<(SvcParamKey, ParamValueView)>) -> Seq<char>
    decreases ps.len(),
{
    if ps.len() == 0 {
        Seq::empty()
    } else {
        params_text(ps.drop_last()) + seq![' '] + key_text(ps.last().0) + seq!['='] + value_text(
            ps.last().1,
        )
    }
}

/// The presentation text of a record: priority, target name, parameters.
pub open spec fn svcb_text(r: SvcbView) -> Seq<char> {
    decimal_text(r.priority as nat) + seq![' '] + name_text(r.target) + params_text(r.params)
}

impl Alpn {
    /// The presentation text: each identifier followed by a comma.
    pub fn to_text(&self) -> (r: String)
        ensures
            r@ == ids_text(self.ids()),
    {
        let ghost ids = self.ids();
        let mut s = String::new();
        let mut i: usize = 0;
        while i < self.0.len()
            invariant
                ids == self.ids(),
                i <= ids.len(),
                s@ == ids_text(ids.subrange(0, i as int)),
            decreases ids.len() - i,
        {
            assert(self.0@[i as int]@ == ids[i as int]);
            push_str(&mut s, self.0[i].as_str());
            push_char(&mut s, ',');
            assert(ids.subrange(0, i + 1).drop_last() =~= ids.subrange(0, i as int));
            assert(s@ =~= ids_text(ids.subrange(0, i + 1)));
            i = i + 1;
        }
        assert(ids.subrange(0, i as int) =~= ids);
        s
    }
}

impl IpHint<A> {
    /// The presentation text: each address in dotted decimal, followed by a comma.
    pub fn to_text(&self) -> (r: String)
        ensures
            r@ == addrs_text(self.addrs(), ipv4_text_fn()),
    {
        let ghost hs = self.addrs();
        let mut s = String::new();
        let mut i: usize = 0;
        while i < self.0.len()
            invariant
                hs == self.addrs(),
                i <= hs.len(),
                s@ == addrs_text(hs.subrange(0, i as int), ipv4_text_fn()),
            decreases hs.len() - i,
        {
            let a = self.0[i].0;
            assert(a@ == hs[i as int]);
            let ghost before = s@;
            push_decimal(&mut s, a[0] as u16);
            push_char(&mut s, '.');
            push_decimal(&mut s, a[1] as u16);
            push_char(&mut s, '.');
            push_decimal(&mut s, a[2] as u16);
            push_char(&mut s, '.');
            push_decimal(&mut s, a[3] as u16);
            assert(s@ =~= before + ipv4_text(a@));
            push_char(&mut s, ',');
            assert(hs.subrange(0, i + 1).drop_last() =~= hs.subrange(0, i as int));
            assert(s@ =~= addrs_text(hs.subrange(0, i + 1), ipv4_text_fn()));
            i = i + 1;
        }
        assert(hs.subrange(0, i as int) =~= hs);
        s
    }
}

impl IpHint<AAAA> {
    /// The presentation text: each address in full IPv6 form (zero groups
    /// written out, see `ipv6_text`), followed by a comma.
    pub fn to_text(&self) -> (r: String)
        ensures
            r@ == addrs_text(self.addrs(), ipv6_text_fn()),
    {
        let ghost hs = self.addrs();
        let mut s = String::new();
        let mut i: usize = 0;
        while i < self.0.len()
            invariant
                hs == self.addrs(),
                i <= hs.len(),
                s@ == addrs_text(hs.subrange(0, i as int), ipv6_text_fn()),
            decreases hs.len() - i,
        {
            let a = self.0[i].0;
            assert(a@ == hs[i as int]);
            let ghost before = s@;
            let mut k: usize = 0;
            while k < 8
                invariant
                    a@.len() == 16,
                    k <= 8,
                    s@ == before + ipv6_groups_text(a@, k as int),
                decreases 8 - k,
            {
                if k > 0 {
                    push_char(&mut s, ':');
                }
                let g: u16 = (a[2 * k] as u16) * 256 + a[2 * k + 1] as u16;
                push_hex(&mut s, g);
                assert(s@ =~= before + ipv6_groups_text(a@, k + 1));
                k = k + 1;
            }
            push_char(&mut s, ',');
            assert(hs.subrange(0, i + 1).drop_last() =~= hs.subrange(0, i as int));
            assert(s@ =~= addrs_text(hs.subrange(0, i + 1), ipv6_text_fn()));
            i = i + 1;
        }
        assert(hs.subrange(0, i as int) =~= hs);
        s
    }
}

impl SvcParamValue {
    /// The presentation text of the value: keys and identifiers each followed
    /// by a comma, the port in decimal, addresses each followed by a comma,
    /// the ECH list in quoted Base64, other values quoted.
    pub fn to_text(&self) -> (r: String)
        requires
            value_printable(self@),
        ensures
            r@ == value_text(self@),
    {
        match self {
            SvcParamValue::Mandatory(m) => m.to_text(),
            SvcParamValue::Alpn(a) => a.to_text(),
            SvcParamValue::NoDefaultAlpn => String::new(),
            SvcParamValue::Port(p) => {
                let mut s = String::new();
                push_decimal(&mut s, *p);
                assert(s@ =~= decimal_text(*p as nat));
                s
            },
            SvcParamValue::Ipv4Hint(h) => h.to_text(),
            SvcParamValue::EchConfigList(e) => {
                let mut s = String::new();
                push_char(&mut s, '"');
                let b = e.to_base64();
                push_str(&mut s, b.as_str());
                push_char(&mut s, '"');
                assert(s@ =~= seq!['"'] + base64_of(e.0@) + seq!['"']);
                s
            },
            SvcParamValue::Ipv6Hint(h) => h.to_text(),
            SvcParamValue::Unknown(u) => {
                let mut s = String::new();
                push_char(&mut s, '"');
                let t = utf8_lossy(u.0.as_slice());
                push_str(&mut s, t.as_str());
                push_char(&mut s, '"');
                push_char(&mut s, ',');
                assert(s@ =~= seq!['"'] + lossy_of(u.0@) + seq!['"', ',']);
                s
            },
        }
    }
}

impl SVCB {
    /// The presentation text: priority, target name, then each parameter as
    /// a space, its key, `=` and its value.
    pub fn to_text(&self) -> (r: String)
        requires
            forall|i: int| 0 <= i < self@.params.len() ==> value_printable(#[trigger] self@.params[i].1),
        ensures
            r@ == svcb_text(self@),
    {
        let ghost ps = self@.params;
        let mut s = String::new();
        push_decimal(&mut s, self.svc_priority);
        push_char(&mut s, ' ');
        let t = self.target_name.to_text();
        push_str(&mut s, t.as_str());
        let ghost head = s@;
        assert(head =~= decimal_text(self.svc_priority as nat) + seq![' '] + name_text(self@.target));
        let mut i: usize = 0;
        while i < self.svc_params.len()
            invariant
                ps == self@.params,
                ps == params_view(self.svc_params@),
                forall|k: int| 0 <= k < ps.len() ==> value_printable(#[trigger] ps[k].1),
                i <= ps.len(),
                s@ == head + params_text(ps.subrange(0, i as int)),
            decreases ps.len() - i,
        {
            let key = &self.svc_params[i].0;
            let value = &self.svc_params[i].1;
            assert(ps[i as int] == (*key, value@));
            assert(value_printable(ps[i as int].1));
            push_char(&mut s, ' ');
            let kt = key.to_text();
            push_str(&mut s, kt.as_str());
            push_char(&mut s, '=');
            let vt = value.to_text();
            push_str(&mut s, vt.as_str());
            assert(ps.subrange(0, i + 1).drop_last() =~= ps.subrange(0, i as int));
            assert(ps.subrange(0, i + 1).last() == ps[i as int]);
            assert(s@ =~= head + params_text(ps.subrange(0, i + 1)));
            i = i + 1;
        }
        assert(ps.subrange(0, i as int) =~= ps);
        s
    }
}

} // verus!
