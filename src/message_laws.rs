//! Laws of the message wire form: an encoded message decodes to itself.
use crate::codec::{
    be16, be16_value, be32, be32_at, char_string, concat, lemma_be16_round_trip, lemma_concat_cons,
};
use crate::message::{
    holds_name, message_encodable, message_wire, parse_cname, parse_message, parse_message_name,
    parse_queries, parse_query, parse_record, parse_records, query_wire, record_wire, MessageView,
    QueryView, RecordView,
};
use crate::name::{label_ok, label_wire, name_valid, name_wire};
use vstd::prelude::*;

verus! {

proof fn lemma_cname_complete(ls: Seq<Seq<u8>>, s: Seq<u8>, seg: int, i: int)
    requires
        forall|k: int| 0 <= k < ls.len() ==> label_ok(#[trigger] ls[k]),
        0 <= seg,
        0 <= i,
        i + name_wire(ls).len() <= s.len(),
        s.subrange(i, i + name_wire(ls).len()) == name_wire(ls),
    ensures
        parse_cname(s, seg, i) == Some((ls, i + name_wire(ls).len())),
    decreases ls.len(),
{
    let w = name_wire(ls);
    assert(s[i] == s.subrange(i, i + w.len())[0]);
    if ls.len() == 0 {
        assert(w =~= seq![0u8]);
    } else {
        let l = ls[0];
        let rest = ls.drop_first();
        assert(ls =~= seq![l] + rest);
        lemma_concat_cons(l, rest, label_wire());
        assert(w =~= char_string(l) + name_wire(rest));
        assert(s[i] == l.len());
        let j = i + 1 + l.len();
        assert(s.subrange(i + 1, j) =~= w.subrange(1, 1 + l.len() as int));
        assert(s.subrange(i + 1, j) =~= l);
        assert(s.subrange(j, j + name_wire(rest).len()) =~= w.subrange(
            1 + l.len() as int,
            w.len() as int,
        ));
        assert(w.subrange(1 + l.len() as int, w.len() as int) =~= name_wire(rest));
        assert forall|k: int| 0 <= k < rest.len() implies label_ok(#[trigger] rest[k]) by {
            assert(rest[k] == ls[k + 1]);
        }
        lemma_cname_complete(rest, s, seg, j);
    }
}

proof fn lemma_name_complete(ls: Seq<Seq<u8>>, s: Seq<u8>, i: int)
    requires
        name_valid(ls),
        0 <= i,
        i + name_wire(ls).len() <= s.len(),
        s.subrange(i, i + name_wire(ls).len()) == name_wire(ls),
    ensures
        parse_message_name(s, i) == Some((ls, i + name_wire(ls).len())),
{
    lemma_cname_complete(ls, s, i, i);
}

proof fn lemma_be32_round_trip(s: Seq<u8>, i: int, v: u32)
    requires
        0 <= i,
        i + 4 <= s.len(),
        s.subrange(i, i + 4) == be32(v),
    ensures
        be32_at(s, i) == v,
{
    let hi = (v / 65536) as u16;
    let lo = (v % 65536) as u16;
    lemma_be16_round_trip(hi);
    lemma_be16_round_trip(lo);
    assert(s[i] == be32(v)[0] && s[i + 1] == be32(v)[1] && s[i + 2] == be32(v)[2] && s[i + 3] == be32(v)[3]);
    assert(be16_value(s[i], s[i + 1]) == hi);
    assert(be16_value(s[i + 2], s[i + 3]) == lo);
}

proof fn lemma_query_complete(q: QueryView, s: Seq<u8>, i: int)
    requires
        name_valid(q.name),
        0 <= i,
        i + query_wire()(q).len() <= s.len(),
        s.subrange(i, i + query_wire()(q).len()) == query_wire()(q),
    ensures
        parse_query(s, i) == Some((q, i + query_wire()(q).len())),
{
    let w = query_wire()(q);
    let n = name_wire(q.name).len() as int;
    assert(s.subrange(i, i + n) =~= w.subrange(0, n));
    assert(w.subrange(0, n) =~= name_wire(q.name));
    lemma_name_complete(q.name, s, i);
    let j = i + n;
    lemma_be16_round_trip(q.query_type);
    lemma_be16_round_trip(q.query_class);
    assert(s[j] == w[n] && s[j + 1] == w[n + 1] && s[j + 2] == w[n + 2] && s[j + 3] == w[n + 3]);
}

/// NS and CNAME data hold one uncompressed, valid name.
pub open spec fn rdata_well_formed(r: RecordView) -> bool {
    holds_name(r.record_type) ==> exists|n: Seq<Seq<u8>>| name_valid(n) && r.rdata == name_wire(n)
}

proof fn lemma_record_complete(r: RecordView, s: Seq<u8>, i: int)
    requires
        name_valid(r.name),
        rdata_well_formed(r),
        r.rdata.len() <= u16::MAX,
        0 <= i,
        i + record_wire()(r).len() <= s.len(),
        s.subrange(i, i + record_wire()(r).len()) == record_wire()(r),
    ensures
        parse_record(s, i) == Some((r, i + record_wire()(r).len())),
{
    let w = record_wire()(r);
    let nw = name_wire(r.name);
    let n = nw.len() as int;
    let f = be16(r.record_type) + be16(r.dns_class) + be32(r.ttl) + be16(r.rdata.len() as u16);
    let t = f + r.rdata;
    assert(w =~= nw + t);
    assert(s.subrange(i, i + n) =~= nw);
    lemma_name_complete(r.name, s, i);
    let j = i + n;
    let tail = s.subrange(j, i + w.len());
    assert(tail =~= s.subrange(i, i + w.len()).subrange(n, w.len() as int));
    assert(w.subrange(n, w.len() as int) =~= t);
    assert(tail =~= t);
    lemma_be16_round_trip(r.record_type);
    lemma_be16_round_trip(r.dns_class);
    lemma_be16_round_trip(r.rdata.len() as u16);
    assert(f.len() == 10);
    assert(s[j] == t[0] && s[j + 1] == t[1] && s[j + 2] == t[2] && s[j + 3] == t[3]);
    assert(s[j + 8] == t[8] && s[j + 9] == t[9]);
    assert(s.subrange(j + 4, j + 8) =~= t.subrange(4, 8));
    assert(t.subrange(4, 8) =~= be32(r.ttl));
    lemma_be32_round_trip(s, j + 4, r.ttl);
    assert(s.subrange(j + 10, j + 10 + r.rdata.len()) =~= t.subrange(10, t.len() as int));
    assert(t.subrange(10, t.len() as int) =~= r.rdata);
    if holds_name(r.record_type) {
        let n = choose|n: Seq<Seq<u8>>| name_valid(n) && r.rdata == name_wire(n);
        lemma_name_complete(n, s, j + 10);
    }
}

proof fn lemma_queries_complete(qs: Seq<QueryView>, s: Seq<u8>, i: int)
    requires
        forall|k: int| 0 <= k < qs.len() ==> name_valid(#[trigger] qs[k].name),
        0 <= i,
        i + concat(qs, query_wire()).len() <= s.len(),
        s.subrange(i, i + concat(qs, query_wire()).len()) == concat(qs, query_wire()),
    ensures
        parse_queries(s, i, qs.len()) == Some((qs, i + concat(qs, query_wire()).len())),
    decreases qs.len(),
{
    if qs.len() > 0 {
        let q = qs[0];
        let rest = qs.drop_first();
        assert(qs =~= seq![q] + rest);
        lemma_concat_cons(q, rest, query_wire());
        let c = concat(qs, query_wire());
        let n = query_wire()(q).len() as int;
        assert(s.subrange(i, i + n) =~= c.subrange(0, n));
        assert(c.subrange(0, n) =~= query_wire()(q));
        lemma_query_complete(q, s, i);
        assert(s.subrange(i + n, i + c.len()) =~= c.subrange(n, c.len() as int));
        assert(c.subrange(n, c.len() as int) =~= concat(rest, query_wire()));
        assert forall|k: int| 0 <= k < rest.len() implies name_valid(#[trigger] rest[k].name) by {
            assert(rest[k] == qs[k + 1]);
        }
        lemma_queries_complete(rest, s, i + n);
        assert((qs.len() - 1) as nat == rest.len());
    } else {
        assert(concat(qs, query_wire()).len() == 0);
    }
}

proof fn lemma_records_complete(rs: Seq<RecordView>, s: Seq<u8>, i: int)
    requires
        forall|k: int|
            0 <= k < rs.len() ==> name_valid(#[trigger] rs[k].name) && rs[k].rdata.len() <= u16::MAX
                && rdata_well_formed(rs[k]),
        0 <= i,
        i + concat(rs, record_wire()).len() <= s.len(),
        s.subrange(i, i + concat(rs, record_wire()).len()) == concat(rs, record_wire()),
    ensures
        parse_records(s, i, rs.len()) == Some((rs, i + concat(rs, record_wire()).len())),
    decreases rs.len(),
{
    if rs.len() > 0 {
        let r = rs[0];
        let rest = rs.drop_first();
        assert(rs =~= seq![r] + rest);
        lemma_concat_cons(r, rest, record_wire());
        let c = concat(rs, record_wire());
        let n = record_wire()(r).len() as int;
        assert(s.subrange(i, i + n) =~= c.subrange(0, n));
        assert(c.subrange(0, n) =~= record_wire()(r));
        lemma_record_complete(r, s, i);
        assert(s.subrange(i + n, i + c.len()) =~= c.subrange(n, c.len() as int));
        assert(c.subrange(n, c.len() as int) =~= concat(rest, record_wire()));
        assert forall|k: int|
            0 <= k < rest.len() implies name_valid(#[trigger] rest[k].name) && rest[k].rdata.len()
                <= u16::MAX && rdata_well_formed(rest[k]) by {
            assert(rest[k] == rs[k + 1]);
        }
        lemma_records_complete(rest, s, i + n);
        assert((rs.len() - 1) as nat == rest.len());
    } else {
        assert(concat(rs, record_wire()).len() == 0);
    }
}

/// The records of a section have valid owner names and well-formed data.
pub open spec fn records_well_formed(rs: Seq<RecordView>) -> bool {
    forall|k: int|
        0 <= k < rs.len() ==> name_valid(#[trigger] rs[k].name) && rdata_well_formed(rs[k])
}

/// A message view whose names are names (labels of 1 to 63 octets, at most
/// 255 in all) and whose NS and CNAME data each hold one such name.
pub open spec fn message_well_formed(m: MessageView) -> bool {
    &&& forall|k: int| 0 <= k < m.queries.len() ==> name_valid(#[trigger] m.queries[k].name)
    &&& records_well_formed(m.answers)
    &&& records_well_formed(m.name_servers)
    &&& records_well_formed(m.additionals)
}

/// Round trip: a message that can be encoded decodes from its wire form
/// to the same message.
pub proof fn lemma_message_round_trip(m: MessageView)
    requires
        message_encodable(m),
        message_well_formed(m),
    ensures
        parse_message(message_wire(m)) == Some(m),
{
    let s = message_wire(m);
    let cq = concat(m.queries, query_wire());
    let ca = concat(m.answers, record_wire());
    let cn = concat(m.name_servers, record_wire());
    let cr = concat(m.additionals, record_wire());
    lemma_be16_round_trip(m.id);
    lemma_be16_round_trip(m.flags);
    lemma_be16_round_trip(m.queries.len() as u16);
    lemma_be16_round_trip(m.answers.len() as u16);
    lemma_be16_round_trip(m.name_servers.len() as u16);
    lemma_be16_round_trip(m.additionals.len() as u16);
    assert(s =~= be16(m.id) + be16(m.flags) + be16(m.queries.len() as u16) + be16(
        m.answers.len() as u16,
    ) + be16(m.name_servers.len() as u16) + be16(m.additionals.len() as u16) + cq + ca + cn + cr);
    let i1 = 12 + cq.len();
    let i2 = i1 + ca.len();
    let i3 = i2 + cn.len();
    assert(s.subrange(12, i1 as int) =~= cq);
    assert(s.subrange(i1 as int, i2 as int) =~= ca);
    assert(s.subrange(i2 as int, i3 as int) =~= cn);
    assert(s.subrange(i3 as int, s.len() as int) =~= cr);
    lemma_queries_complete(m.queries, s, 12);
    lemma_records_complete(m.answers, s, i1 as int);
    lemma_records_complete(m.name_servers, s, i2 as int);
    lemma_records_complete(m.additionals, s, i3 as int);
}

} // verus!
