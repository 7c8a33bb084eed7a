//! Laws of the SVCB wire form: what is written reads back unchanged, keys
//! out of order are refused both ways, and a record cut short never reads.
use crate::codec::{
    be16, be16_value, char_string, concat, lemma_be16_round_trip, lemma_concat_cons,
    lemma_concat_fixed,
};
use crate::name::{
    lemma_parse_labels_complete, name_valid, name_wire, parse_labels, parse_name,
};
use crate::svcb::{
    addr_wire, alpn_wire, key_canonical, key_code, key_of_code, key_wire, keys_increasing,
    kind_matches, param_encodable, param_ok, param_wire, params_order_error, parse_addrs,
    parse_alpn_ids, parse_mandatory, parse_params, parse_svcb, parse_value, svcb_encodable,
    svcb_order_error, svcb_valid, svcb_wire, value_canonical, value_ok, value_wire, ParamValueView,
    SvcParamKey, SvcbView,
};
use vstd::prelude::*;
use vstd::utf8::{encode_utf8, encode_utf8_decode_utf8, encode_utf8_valid_utf8};

verus! {

proof fn lemma_alpn_ids_complete(ids: Seq<Seq<char>>, s: Seq<u8>, i: int)
    requires
        forall|j: int| 0 <= j < ids.len() ==> (#[trigger] encode_utf8(ids[j])).len() <= 255,
        0 <= i <= s.len(),
        s.subrange(i, s.len() as int) == concat(ids, alpn_wire()),
    ensures
        parse_alpn_ids(s, i) == Some(ids),
    decreases ids.len(),
{
    if ids.len() == 0 {
        assert(s.subrange(i, s.len() as int).len() == 0);
    } else {
        let a = ids[0];
        let rest = ids.drop_first();
        assert(ids =~= seq![a] + rest);
        lemma_concat_cons(a, rest, alpn_wire());
        let b = encode_utf8(a);
        let n = b.len() as int;
        let t = s.subrange(i, s.len() as int);
        assert(t =~= char_string(b) + concat(rest, alpn_wire()));
        assert(s[i] == t[0]);
        assert(s[i] == n);
        assert(s.subrange(i + 1, i + 1 + n) =~= t.subrange(1, 1 + n));
        assert(s.subrange(i + 1, i + 1 + n) =~= b);
        encode_utf8_valid_utf8(a);
        encode_utf8_decode_utf8(a);
        assert(s.subrange(i + 1 + n, s.len() as int) =~= t.subrange(1 + n, t.len() as int));
        assert(t.subrange(1 + n, t.len() as int) =~= concat(rest, alpn_wire()));
        assert forall|j: int| 0 <= j < rest.len() implies (#[trigger] encode_utf8(rest[j])).len()
            <= 255 by {
            assert(rest[j] == ids[j + 1]);
        }
        lemma_alpn_ids_complete(rest, s, i + 1 + n);
        assert(seq![a] + rest =~= ids);
    }
}

proof fn lemma_addrs_complete(hs: Seq<Seq<u8>>, w: nat)
    requires
        w > 0,
        hs.len() > 0,
        forall|i: int| 0 <= i < hs.len() ==> (#[trigger] hs[i]).len() == w,
    ensures
        parse_addrs(concat(hs, addr_wire()), w) == Some(hs),
{
    let c = concat(hs, addr_wire());
    assert forall|i: int| 0 <= i < hs.len() implies (#[trigger] addr_wire()(hs[i])).len() == w by {}
    lemma_concat_fixed(hs, addr_wire(), w as int);
    let n = hs.len() as int;
    assert(c.len() == w * n);
    assert(c.len() % w == 0 && c.len() / w == n) by (nonlinear_arith)
        requires
            c.len() == w * n,
            w > 0,
    ;
    assert(w * n > 0) by (nonlinear_arith)
        requires
            w > 0,
            n > 0,
    ;
    let r = parse_addrs(c, w)->0;
    assert forall|i: int| 0 <= i < hs.len() implies r[i] == hs[i] by {
        assert(c.subrange(w * i, w * i + w) == addr_wire()(hs[i]));
    }
    assert(r =~= hs);
}

proof fn lemma_mandatory_complete(ks: Seq<SvcParamKey>)
    requires
        ks.len() > 0,
        forall|i: int| 0 <= i < ks.len() ==> key_canonical(#[trigger] ks[i]),
    ensures
        parse_mandatory(concat(ks, key_wire())) == Some(ks),
{
    let c = concat(ks, key_wire());
    lemma_concat_fixed(ks, key_wire(), 2);
    let r = parse_mandatory(c)->0;
    assert forall|i: int| 0 <= i < ks.len() implies r[i] == ks[i] by {
        let piece = c.subrange(2 * i, 2 * i + 2);
        assert(piece == key_wire()(ks[i]));
        assert(piece == be16(key_code(ks[i])));
        assert(c[2 * i] == piece[0] && c[2 * i + 1] == piece[1]);
        lemma_be16_round_trip(key_code(ks[i]));
    }
    assert(r =~= ks);
}

/// A value of its key's kind and shape reads back from its wire form.
pub proof fn lemma_value_round_trip(k: SvcParamKey, v: ParamValueView)
    requires
        key_canonical(k),
        kind_matches(k, v),
        value_ok(v),
        value_canonical(v),
    ensures
        parse_value(k, value_wire(v)) == Some(v),
{
    match v {
        ParamValueView::Mandatory(ks) => {
            lemma_mandatory_complete(ks);
        },
        ParamValueView::Alpn(ids) => {
            let c = concat(ids, alpn_wire());
            assert(c.subrange(0, c.len() as int) =~= c);
            lemma_alpn_ids_complete(ids, c, 0);
            let a = ids[0];
            assert(ids =~= seq![a] + ids.drop_first());
            lemma_concat_cons(a, ids.drop_first(), alpn_wire());
        },
        ParamValueView::Port(p) => {
            lemma_be16_round_trip(p);
        },
        ParamValueView::Ipv4Hint(hs) => {
            lemma_addrs_complete(hs, 4);
        },
        ParamValueView::Ipv6Hint(hs) => {
            lemma_addrs_complete(hs, 16);
        },
        _ => {},
    }
}

proof fn lemma_params_complete(
    ps: Seq<(SvcParamKey, ParamValueView)>,
    s: Seq<u8>,
    i: int,
    last: Option<u16>,
)
    requires
        forall|j: int| 0 <= j < ps.len() ==> param_ok(#[trigger] ps[j]),
        keys_increasing(ps),
        last is Some && ps.len() > 0 ==> last->0 < key_code(ps[0].0),
        0 <= i <= s.len(),
        s.subrange(i, s.len() as int) == concat(ps, param_wire()),
    ensures
        parse_params(s, i, last) == Some(ps),
    decreases ps.len(),
{
    if ps.len() == 0 {
        assert(s.subrange(i, s.len() as int).len() == 0);
    } else {
        let p = ps[0];
        let rest = ps.drop_first();
        assert(ps =~= seq![p] + rest);
        lemma_concat_cons(p, rest, param_wire());
        let vw = value_wire(p.1);
        let n = vw.len() as int;
        let code = key_code(p.0);
        assert(param_ok(p));
        let t = s.subrange(i, s.len() as int);
        assert(t =~= be16(code) + be16(n as u16) + vw + concat(rest, param_wire()));
        lemma_be16_round_trip(code);
        lemma_be16_round_trip(n as u16);
        assert(s[i] == t[0] && s[i + 1] == t[1] && s[i + 2] == t[2] && s[i + 3] == t[3]);
        assert(be16_value(s[i], s[i + 1]) == code);
        assert(be16_value(s[i + 2], s[i + 3]) == n);
        assert(s.subrange(i + 4, i + 4 + n) =~= t.subrange(4, 4 + n));
        assert(s.subrange(i + 4, i + 4 + n) =~= vw);
        lemma_value_round_trip(p.0, p.1);
        assert(key_of_code(code) == p.0);
        assert(s.subrange(i + 4 + n, s.len() as int) =~= t.subrange(4 + n, t.len() as int));
        assert(t.subrange(4 + n, t.len() as int) =~= concat(rest, param_wire()));
        assert forall|j: int| 0 <= j < rest.len() implies param_ok(#[trigger] rest[j]) by {
            assert(rest[j] == ps[j + 1]);
        }
        assert forall|j: int| 0 < j < rest.len() implies key_code(#[trigger] rest[j - 1].0)
            < key_code(rest[j].0) by {
            assert(rest[j - 1] == ps[j] && rest[j] == ps[j + 1]);
        }
        if rest.len() > 0 {
            assert(rest[0] == ps[1]);
            assert(key_code(ps[0].0) < key_code(ps[1].0));
        }
        lemma_params_complete(rest, s, i + 4 + n, Some(code));
    }
}

/// Round trip: a record that can be written (strictly increasing keys, each
/// value of its shape) and whose keys are canonical and match their values'
/// kinds reads back from its wire form as the same record.
pub proof fn lemma_svcb_round_trip(r: SvcbView)
    requires
        svcb_valid(r),
    ensures
        parse_svcb(svcb_wire(r)) == Some(r),
{
    let w = svcb_wire(r);
    let nw = name_wire(r.target);
    let pw = concat(r.params, param_wire());
    lemma_be16_round_trip(r.priority);
    assert(w.subrange(2, 2 + nw.len() as int) =~= nw);
    lemma_parse_labels_complete(r.target, w, 2);
    assert(parse_name(w, 2) == Some((r.target, 2 + nw.len() as int)));
    assert(w.subrange(2 + nw.len() as int, w.len() as int) =~= pw);
    lemma_params_complete(r.params, w, 2 + nw.len() as int, None);
}

proof fn lemma_parsed_params_increasing(s: Seq<u8>, i: int, last: Option<u16>)
    requires
        parse_params(s, i, last) is Some,
    ensures
        keys_increasing(parse_params(s, i, last)->0),
        last is Some && parse_params(s, i, last)->0.len() > 0 ==> last->0 < key_code(
            parse_params(s, i, last)->0[0].0,
        ),
    decreases s.len() - i,
{
    if i < s.len() {
        let code = be16_value(s[i], s[i + 1]);
        let len = be16_value(s[i + 2], s[i + 3]) as int;
        lemma_parsed_params_increasing(s, i + 4 + len, Some(code));
        let rest = parse_params(s, i + 4 + len, Some(code))->0;
        let ps = parse_params(s, i, last)->0;
        lemma_key_code_of(code);
        assert forall|j: int| 0 < j < ps.len() implies key_code(#[trigger] ps[j - 1].0) < key_code(
            ps[j].0,
        ) by {
            if j > 1 {
                assert(ps[j - 1] == rest[j - 2] && ps[j] == rest[j - 1]);
            } else {
                assert(ps[1] == rest[0]);
            }
        }
    }
}

proof fn lemma_key_code_of(v: u16)
    ensures
        key_code(key_of_code(v)) == v,
{
}

/// Order rejection: a record whose keys are not strictly increasing is not
/// valid, so it is never written, and no octets read as it.
pub proof fn lemma_svcb_order_rejected(r: SvcbView, s: Seq<u8>)
    requires
        !keys_increasing(r.params),
    ensures
        !svcb_encodable(r),
        !svcb_valid(r),
        parse_svcb(s) != Some(r),
{
    if s.len() >= 2 {
        match parse_name(s, 2) {
            Some((t, e)) => {
                if parse_params(s, e, None) is Some {
                    lemma_parsed_params_increasing(s, e, None);
                }
            },
            None => {},
        }
    }
}

proof fn lemma_cut_labels(ls: Seq<Seq<u8>>, s: Seq<u8>, i: int)
    requires
        forall|k: int| 0 <= k < ls.len() ==> 1 <= (#[trigger] ls[k]).len() <= 63,
        0 <= i <= s.len(),
        s.subrange(i, s.len() as int) == name_wire(ls).drop_last(),
    ensures
        parse_labels(s, i) is None,
    decreases ls.len(),
{
    let t = s.subrange(i, s.len() as int);
    if ls.len() == 0 {
        assert(name_wire(ls) =~= seq![0u8]);
        assert(t.len() == 0);
    } else {
        let l = ls[0];
        let rest = ls.drop_first();
        assert(ls =~= seq![l] + rest);
        lemma_concat_cons(l, rest, crate::name::label_wire());
        assert(name_wire(ls) =~= char_string(l) + name_wire(rest));
        let n = l.len() as int;
        assert(t =~= char_string(l) + name_wire(rest).drop_last());
        assert(t[0] == char_string(l)[0]);
        assert(s[i] == t[0] && s[i] == n);
        assert(s.subrange(i + 1 + n, s.len() as int) =~= t.subrange(1 + n, t.len() as int));
        assert(t.subrange(1 + n, t.len() as int) =~= name_wire(rest).drop_last());
        assert forall|k: int| 0 <= k < rest.len() implies 1 <= (#[trigger] rest[k]).len() <= 63 by {
            assert(rest[k] == ls[k + 1]);
        }
        lemma_cut_labels(rest, s, i + 1 + n);
    }
}

proof fn lemma_cut_params(
    ps: Seq<(SvcParamKey, ParamValueView)>,
    s: Seq<u8>,
    i: int,
    last: Option<u16>,
)
    requires
        ps.len() > 0,
        forall|j: int| 0 <= j < ps.len() ==> param_encodable(#[trigger] ps[j]),
        0 <= i <= s.len(),
        s.subrange(i, s.len() as int) == concat(ps, param_wire()).drop_last(),
    ensures
        parse_params(s, i, last) is None,
    decreases ps.len(),
{
    let p = ps[0];
    let rest = ps.drop_first();
    assert(ps =~= seq![p] + rest);
    lemma_concat_cons(p, rest, param_wire());
    let vw = value_wire(p.1);
    let n = vw.len() as int;
    let code = key_code(p.0);
    assert(param_encodable(p));
    let t = s.subrange(i, s.len() as int);
    lemma_be16_round_trip(n as u16);
    if rest.len() == 0 {
        assert(concat(rest, param_wire()).len() == 0);
        assert(t =~= (be16(code) + be16(n as u16) + vw).drop_last());
        assert(t.len() == 3 + n);
        if n > 0 {
            assert(s[i + 2] == t[2] && s[i + 3] == t[3]);
            assert(be16_value(s[i + 2], s[i + 3]) == n);
        }
    } else {
        lemma_concat_cons(rest[0], rest.drop_first(), param_wire());
        assert(rest =~= seq![rest[0]] + rest.drop_first());
        assert(t =~= be16(code) + be16(n as u16) + vw + concat(rest, param_wire()).drop_last());
        assert(s[i + 2] == t[2] && s[i + 3] == t[3]);
        assert(be16_value(s[i + 2], s[i + 3]) == n);
        assert(s.subrange(i + 4 + n, s.len() as int) =~= t.subrange(4 + n, t.len() as int));
        assert(t.subrange(4 + n, t.len() as int) =~= concat(rest, param_wire()).drop_last());
        assert forall|j: int| 0 <= j < rest.len() implies param_encodable(#[trigger] rest[j]) by {
            assert(rest[j] == ps[j + 1]);
        }
        lemma_cut_params(rest, s, i + 4 + n, Some(be16_value(s[i], s[i + 1])));
    }
}

/// Length exactness: the wire form of a record that can be written, cut
/// short by one octet, does not read as any record.
pub proof fn lemma_svcb_truncated_rejected(r: SvcbView)
    requires
        svcb_encodable(r),
    ensures
        parse_svcb(svcb_wire(r).drop_last()) is None,
{
    let w = svcb_wire(r);
    let s = w.drop_last();
    let nw = name_wire(r.target);
    let pw = concat(r.params, param_wire());
    if s.len() >= 2 {
        if r.params.len() == 0 {
            assert(pw.len() == 0);
            assert(s.subrange(2, s.len() as int) =~= nw.drop_last());
            lemma_cut_labels(r.target, s, 2);
        } else {
            lemma_concat_cons(r.params[0], r.params.drop_first(), param_wire());
            assert(r.params =~= seq![r.params[0]] + r.params.drop_first());
            assert(pw.len() > 0);
            assert(s.subrange(2, 2 + nw.len() as int) =~= nw);
            lemma_parse_labels_complete(r.target, s, 2);
            assert(s.subrange(2 + nw.len() as int, s.len() as int) =~= pw.drop_last());
            lemma_cut_params(r.params, s, 2 + nw.len() as int, None);
        }
    }
}

proof fn lemma_params_disorder(
    ps: Seq<(SvcParamKey, ParamValueView)>,
    s: Seq<u8>,
    i: int,
    last: Option<u16>,
)
    requires
        forall|j: int| 0 <= j < ps.len() ==> param_ok(#[trigger] ps[j]),
        !keys_increasing(ps) || (last is Some && ps.len() > 0 && key_code(ps[0].0) <= last->0),
        0 <= i <= s.len(),
        s.subrange(i, s.len() as int) == concat(ps, param_wire()),
    ensures
        parse_params(s, i, last) is None,
        params_order_error(s, i, last),
    decreases ps.len(),
{
    let p = ps[0];
    let rest = ps.drop_first();
    assert(ps =~= seq![p] + rest);
    lemma_concat_cons(p, rest, param_wire());
    let vw = value_wire(p.1);
    let n = vw.len() as int;
    let code = key_code(p.0);
    assert(param_ok(p));
    let t = s.subrange(i, s.len() as int);
    assert(t =~= be16(code) + be16(n as u16) + vw + concat(rest, param_wire()));
    lemma_be16_round_trip(code);
    lemma_be16_round_trip(n as u16);
    assert(s[i] == t[0] && s[i + 1] == t[1] && s[i + 2] == t[2] && s[i + 3] == t[3]);
    assert(be16_value(s[i], s[i + 1]) == code);
    assert(be16_value(s[i + 2], s[i + 3]) == n);
    if last is Some && code <= last->0 {
    } else {
        assert(s.subrange(i + 4, i + 4 + n) =~= t.subrange(4, 4 + n));
        assert(s.subrange(i + 4, i + 4 + n) =~= vw);
        lemma_value_round_trip(p.0, p.1);
        assert(key_of_code(code) == p.0);
        assert(s.subrange(i + 4 + n, s.len() as int) =~= t.subrange(4 + n, t.len() as int));
        assert(t.subrange(4 + n, t.len() as int) =~= concat(rest, param_wire()));
        assert forall|j: int| 0 <= j < rest.len() implies param_ok(#[trigger] rest[j]) by {
            assert(rest[j] == ps[j + 1]);
        }
        assert(!keys_increasing(ps));
        let k = choose|k: int| 0 < k < ps.len() && !(key_code(#[trigger] ps[k - 1].0) < key_code(ps[k].0));
        if k == 1 {
            assert(rest[0] == ps[1]);
        } else {
            assert(rest[k - 2] == ps[k - 1] && rest[k - 1] == ps[k]);
            assert(!(key_code(rest[k - 2].0) < key_code(rest[k - 1].0)));
            assert(!keys_increasing(rest));
        }
        lemma_params_disorder(rest, s, i + 4 + n, Some(code));
    }
}

/// Order rejection on the wire: the wire form of a record whose parameters
/// are each valid but whose keys are not strictly increasing does not read
/// as any record: decoding fails, on the out-of-order key, rather than
/// reorder.
pub proof fn lemma_svcb_disorder_wire_rejected(r: SvcbView)
    requires
        name_valid(r.target),
        forall|i: int| 0 <= i < r.params.len() ==> param_ok(#[trigger] r.params[i]),
        !keys_increasing(r.params),
    ensures
        parse_svcb(svcb_wire(r)) is None,
        svcb_order_error(svcb_wire(r)),
{
    let w = svcb_wire(r);
    let nw = name_wire(r.target);
    let pw = concat(r.params, param_wire());
    assert(w.subrange(2, 2 + nw.len() as int) =~= nw);
    lemma_parse_labels_complete(r.target, w, 2);
    assert(parse_name(w, 2) == Some((r.target, 2 + nw.len() as int)));
    assert(w.subrange(2 + nw.len() as int, w.len() as int) =~= pw);
    lemma_params_disorder(r.params, w, 2 + nw.len() as int, None);
}

} // verus!
