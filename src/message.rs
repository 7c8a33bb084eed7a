//! DNS messages: a 12-octet header and four sections. Decoding is length
//! bounded, follows only name compression pointers that point strictly
//! backwards, and fails unless the records match the header's counts and
//! fill the message exactly.
use crate::codec::{
    be16, be16_value, be32, be32_at, concat, emit_bytes, emit_u16, emit_u32, lemma_concat_push,
    read_u16, read_u32,
};
use crate::error::ProtoError;
use crate::name::{emit_name, name_wire, parse_name, read_name, Name};
use crate::resolver::ResponseCode;
use crate::svcb::{parse_svcb, SVCB};
use vstd::prelude::*;
use vstd::slice::{slice_subrange, slice_to_vec};

verus! {

/// The labels of a possibly compressed name read at `i`, and the position
/// after its last octet in this stretch (after the first pointer, if any).
/// A pointer must point before `seg`, where the current stretch began, so
/// no chain of pointers can loop.
pub open spec fn parse_cname(s: Seq<u8>, seg: int, i: int) -> Option<(Seq<Seq<u8>>, int)>
    decreases seg, s.len() - i,
{
    if i < 0 || i >= s.len() || seg < 0 {
        None
    } else if s[i] == 0 {
        Some((Seq::empty(), i + 1))
    } else if s[i] >= 192 {
        if i + 1 >= s.len() {
            None
        } else {
            let target = (s[i] - 192) * 256 + s[i + 1];
            if target >= seg {
                None
            } else {
                match parse_cname(s, target, target) {
                    Some((ls, _)) => Some((ls, i + 2)),
                    None => None,
                }
            }
        }
    } else if s[i] > 63 || i + 1 + s[i] > s.len() {
        None
    } else {
        match parse_cname(s, seg, i + 1 + s[i]) {
            Some((rest, e)) => Some((seq![s.subrange(i + 1, i + 1 + s[i])] + rest, e)),
            None => None,
        }
    }
}

/// A possibly compressed name at `i`; refused when longer than 255 octets uncompressed.
pub open spec fn parse_message_name(s: Seq<u8>, i: int) -> Option<(Seq<Seq<u8>>, int)> {
    match parse_cname(s, i, i) {
        Some((ls, e)) => if name_wire(ls).len() <= 255 {
            Some((ls, e))
        } else {
            None
        },
        None => None,
    }
}

pub open spec fn top_of(
    acc: Seq<Seq<u8>>,
    o: Option<(Seq<Seq<u8>>, int)>,
    end: Option<usize>,
) -> Option<(Seq<Seq<u8>>, int)> {
    match o {
        Some((r, e)) => Some((
            acc + r,
            match end {
                Some(x) => x as int,
                None => e,
            },
        )),
        None => None,
    }
}

proof fn lemma_cname_labels_ok(s: Seq<u8>, seg: int, i: int)
    requires
        parse_cname(s, seg, i) is Some,
    ensures
        forall|k: int|
            0 <= k < (parse_cname(s, seg, i)->0).0.len() ==> crate::name::label_ok(
                #[trigger] (parse_cname(s, seg, i)->0).0[k],
            ),
    decreases seg, s.len() - i,
{
    if s[i] == 0 {
    } else if s[i] >= 192 {
        let target = (s[i] - 192) * 256 + s[i + 1];
        lemma_cname_labels_ok(s, target, target);
    } else {
        lemma_cname_labels_ok(s, seg, i + 1 + s[i]);
        let ls = (parse_cname(s, seg, i)->0).0;
        let rest = (parse_cname(s, seg, i + 1 + s[i])->0).0;
        assert forall|k: int| 0 <= k < ls.len() implies crate::name::label_ok(#[trigger] ls[k]) by {
            if k > 0 {
                assert(ls[k] == rest[k - 1]);
            }
        }
    }
}

/// Reads a possibly compressed name at `pos` of a whole message.
pub fn read_message_name(buf: &[u8], pos: usize) -> (res: Result<(Name, usize), ProtoError>)
    ensures
        match res {
            Ok((n, p)) => parse_message_name(buf@, pos as int) == Some((n@, p as int)),
            Err(_) => parse_message_name(buf@, pos as int) is None,
        },
{
    let ghost s = buf@;
    let mut labels: Vec<Vec<u8>> = Vec::new();
    let mut seg: usize = pos;
    let mut i: usize = pos;
    let mut end: Option<usize> = None;
    loop
        invariant_except_break
            s == buf@,
            parse_cname(s, pos as int, pos as int) == top_of(
                labels@.map_values(|l: Vec<u8>| l@),
                parse_cname(s, seg as int, i as int),
                end,
            ),
        ensures
            s == buf@,
            parse_cname(s, pos as int, pos as int) == Some((
                labels@.map_values(|l: Vec<u8>| l@),
                match end {
                    Some(x) => x as int,
                    None => 0,
                },
            )),
            end is Some,
        decreases seg, s.len() - i,
    {
        if i >= buf.len() {
            return Err(ProtoError::UnexpectedEnd);
        }
        let b = buf[i];
        if b == 0 {
            let ghost acc = labels@.map_values(|l: Vec<u8>| l@);
            assert(acc + Seq::<Seq<u8>>::empty() =~= acc);
            if end.is_none() {
                end = Some(i + 1);
            }
            break;
        } else if b >= 192 {
            if i + 1 >= buf.len() {
                return Err(ProtoError::UnexpectedEnd);
            }
            let target: usize = ((b - 192) as usize) * 256 + buf[i + 1] as usize;
            if target >= seg {
                return Err(ProtoError::BadPointer);
            }
            if end.is_none() {
                end = Some(i + 2);
            }
            seg = target;
            i = target;
        } else {
            if b > 63 {
                return Err(ProtoError::BadLabelType);
            }
            if buf.len() - (i + 1) < b as usize {
                return Err(ProtoError::UnexpectedEnd);
            }
            let label = slice_to_vec(slice_subrange(buf, i + 1, i + 1 + b as usize));
            let ghost before = labels@.map_values(|l: Vec<u8>| l@);
            labels.push(label);
            proof {
                assert(labels@.map_values(|l: Vec<u8>| l@) =~= before.push(label@));
                assert(label@ == s.subrange(i + 1, i + 1 + b));
                match parse_cname(s, seg as int, i + 1 + b) {
                    Some((r, e)) => {
                        assert(before + (seq![label@] + r) =~= before.push(label@) + r);
                    },
                    None => {},
                }
            }
            i = i + 1 + b as usize;
        }
    }
    let ghost ls = labels@.map_values(|l: Vec<u8>| l@);
    let p = match end {
        Some(x) => x,
        None => 0,
    };
    let name = Name::from_labels(labels);
    match name {
        Ok(n) => Ok((n, p)),
        Err(e) => {
            proof {
                lemma_cname_labels_ok(s, pos as int, pos as int);
            }
            Err(ProtoError::NameTooLong)
        },
    }
}

/// A question, as plain values.
pub struct QueryView {
    pub name: Seq<Seq<u8>>,
    pub query_type: u16,
    pub query_class: u16,
}

/// Record types whose data is one domain name: NS (2) and CNAME (5).
pub open spec fn holds_name(record_type: u16) -> bool {
    record_type == 2 || record_type == 5
}

/// A resource record, as plain values; its data stays in wire form, with
/// the name that NS and CNAME data hold written out uncompressed.
pub struct RecordView {
    pub name: Seq<Seq<u8>>,
    pub record_type: u16,
    pub dns_class: u16,
    pub ttl: u32,
    pub rdata: Seq<u8>,
}

/// A message, as plain values.
pub struct MessageView {
    pub id: u16,
    pub flags: u16,
    pub queries: Seq<QueryView>,
    pub answers: Seq<RecordView>,
    pub name_servers: Seq<RecordView>,
    pub additionals: Seq<RecordView>,
}

pub open spec fn parse_query(s: Seq<u8>, i: int) -> Option<(QueryView, int)> {
    match parse_message_name(s, i) {
        Some((n, j)) => if j + 4 <= s.len() {
            Some((
                QueryView {
                    name: n,
                    query_type: be16_value(s[j], s[j + 1]),
                    query_class: be16_value(s[j + 2], s[j + 3]),
                },
                j + 4,
            ))
        } else {
            None
        },
        None => None,
    }
}

pub open spec fn parse_record(s: Seq<u8>, i: int) -> Option<(RecordView, int)> {
    match parse_message_name(s, i) {
        Some((n, j)) => if j + 10 <= s.len() {
            let len = be16_value(s[j + 8], s[j + 9]) as int;
            let rt = be16_value(s[j], s[j + 1]);
            if j + 10 + len > s.len() {
                None
            } else {
                let rdata = if holds_name(rt) {
                    match parse_message_name(s, j + 10) {
                        Some((target, e)) => if e == j + 10 + len {
                            Some(name_wire(target))
                        } else {
                            None
                        },
                        None => None,
                    }
                } else {
                    Some(s.subrange(j + 10, j + 10 + len))
                };
                match rdata {
                    Some(d) => Some((
                        RecordView {
                            name: n,
                            record_type: rt,
                            dns_class: be16_value(s[j + 2], s[j + 3]),
                            ttl: be32_at(s, j + 4),
                            rdata: d,
                        },
                        j + 10 + len,
                    )),
                    None => None,
                }
            }
        } else {
            None
        },
        None => None,
    }
}

pub open spec fn parse_queries(s: Seq<u8>, i: int, n: nat) -> Option<(Seq<QueryView>, int)>
    decreases n,
{
    if n == 0 {
        Some((Seq::empty(), i))
    } else {
        match parse_query(s, i) {
            Some((q, j)) => match parse_queries(s, j, (n - 1) as nat) {
                Some((qs, k)) => Some((seq![q] + qs, k)),
                None => None,
            },
            None => None,
        }
    }
}

pub open spec fn parse_records(s: Seq<u8>, i: int, n: nat) -> Option<(Seq<RecordView>, int)>
    decreases n,
{
    if n == 0 {
        Some((Seq::empty(), i))
    } else {
        match parse_record(s, i) {
            Some((r, j)) => match parse_records(s, j, (n - 1) as nat) {
                Some((rs, k)) => Some((seq![r] + rs, k)),
                None => None,
            },
            None => None,
        }
    }
}

/// The message that `s` holds: each section has exactly the header's count
/// of entries, and together they end where `s` ends.
pub open spec fn parse_message(s: Seq<u8>) -> Option<MessageView> {
    if s.len() < 12 {
        None
    } else {
        let qd = be16_value(s[4], s[5]) as nat;
        let an = be16_value(s[6], s[7]) as nat;
        let ns = be16_value(s[8], s[9]) as nat;
        let ar = be16_value(s[10], s[11]) as nat;
        match parse_queries(s, 12, qd) {
            Some((qs, i1)) => match parse_records(s, i1, an) {
                Some((ans, i2)) => match parse_records(s, i2, ns) {
                    Some((nss, i3)) => match parse_records(s, i3, ar) {
                        Some((ars, i4)) => if i4 == s.len() {
                            Some(
                                MessageView {
                                    id: be16_value(s[0], s[1]),
                                    flags: be16_value(s[2], s[3]),
                                    queries: qs,
                                    answers: ans,
                                    name_servers: nss,
                                    additionals: ars,
                                },
                            )
                        } else {
                            None
                        },
                        None => None,
                    },
                    None => None,
                },
                None => None,
            },
            None => None,
        }
    }
}

/// A question: the name, type and class asked for.
#[derive(Debug, PartialEq, Eq, Hash)]
pub struct Query {
    pub name: Name,
    pub query_type: u16,
    pub query_class: u16,
}

impl Clone for Query {
    fn clone(&self) -> (r: Query)
        ensures
            r@ == self@,
    {
        Query { name: self.name.clone(), query_type: self.query_type, query_class: self.query_class }
    }
}

impl View for Query {
    type V = QueryView;

    open spec fn view(&self) -> QueryView {
        QueryView { name: self.name@, query_type: self.query_type, query_class: self.query_class }
    }
}

/// A resource record whose data is kept in wire form.
#[derive(Debug, Clone, PartialEq, Eq, Hash)]
pub struct Record {
    pub name: Name,
    pub record_type: u16,
    pub dns_class: u16,
    pub ttl: u32,
    pub rdata: Vec<u8>,
}

impl View for Record {
    type V = RecordView;

    open spec fn view(&self) -> RecordView {
        RecordView {
            name: self.name@,
            record_type: self.record_type,
            dns_class: self.dns_class,
            ttl: self.ttl,
            rdata: self.rdata@,
        }
    }
}

pub open spec fn queries_view(qs: Seq<Query>) -> Seq<QueryView> {
    qs.map_values(|q: Query| q@)
}

pub open spec fn records_view(rs: Seq<Record>) -> Seq<RecordView> {
    rs.map_values(|r: Record| r@)
}

fn read_query(buf: &[u8], pos: usize) -> (res: Result<(Query, usize), ProtoError>)
    ensures
        match res {
            Ok((q, p)) => parse_query(buf@, pos as int) == Some((q@, p as int)),
            Err(_) => parse_query(buf@, pos as int) is None,
        },
{
    let (name, j) = read_message_name(buf, pos)?;
    let (query_type, j1) = read_u16(buf, j)?;
    let (query_class, j2) = read_u16(buf, j1)?;
    Ok((Query { name, query_type, query_class }, j2))
}

fn read_record(buf: &[u8], pos: usize) -> (res: Result<(Record, usize), ProtoError>)
    ensures
        match res {
            Ok((r, p)) => parse_record(buf@, pos as int) == Some((r@, p as int)),
            Err(_) => parse_record(buf@, pos as int) is None,
        },
{
    let (name, j) = read_message_name(buf, pos)?;
    if j >= buf.len() || buf.len() - j < 10 {
        return Err(ProtoError::UnexpectedEnd);
    }
    let (record_type, j1) = read_u16(buf, j)?;
    let (dns_class, j2) = read_u16(buf, j1)?;
    let (ttl, j3) = read_u32(buf, j2)?;
    let (len, j4) = read_u16(buf, j3)?;
    if buf.len() - j4 < len as usize {
        return Err(ProtoError::UnexpectedEnd);
    }
    let end = j4 + len as usize;
    let rdata = if record_type == 2 || record_type == 5 {
        let (target, e) = read_message_name(buf, j4)?;
        if e != end {
            return Err(ProtoError::TrailingBytes);
        }
        let mut d: Vec<u8> = Vec::new();
        emit_name(&mut d, &target);
        assert(d@ =~= name_wire(target@));
        d
    } else {
        slice_to_vec(slice_subrange(buf, j4, end))
    };
    Ok((Record { name, record_type, dns_class, ttl, rdata }, end))
}

fn read_queries(buf: &[u8], pos: usize, count: u16) -> (res: Result<(Vec<Query>, usize), ProtoError>)
    ensures
        match res {
            Ok((qs, p)) => parse_queries(buf@, pos as int, count as nat) == Some((queries_view(qs@), p as int)),
            Err(_) => parse_queries(buf@, pos as int, count as nat) is None,
        },
{
    let mut qs: Vec<Query> = Vec::new();
    let mut i: usize = pos;
    let mut k: u16 = 0;
    while k < count
        invariant
            k <= count,
            parse_queries(buf@, pos as int, count as nat) == match parse_queries(buf@, i as int, (count - k) as nat) {
                Some((rest, e)) => Some((queries_view(qs@) + rest, e)),
                None => None,
            },
        decreases count - k,
    {
        let (q, j) = read_query(buf, i)?;
        let ghost before = queries_view(qs@);
        qs.push(q);
        proof {
            assert(queries_view(qs@) =~= before.push(q@));
            match parse_queries(buf@, j as int, (count - k - 1) as nat) {
                Some((rest, e)) => {
                    assert(before + (seq![q@] + rest) =~= before.push(q@) + rest);
                },
                None => {},
            }
        }
        i = j;
        k = k + 1;
    }
    assert(queries_view(qs@) + Seq::<QueryView>::empty() =~= queries_view(qs@));
    Ok((qs, i))
}

fn read_records(buf: &[u8], pos: usize, count: u16) -> (res: Result<(Vec<Record>, usize), ProtoError>)
    ensures
        match res {
            Ok((rs, p)) => parse_records(buf@, pos as int, count as nat) == Some((records_view(rs@), p as int)),
            Err(_) => parse_records(buf@, pos as int, count as nat) is None,
        },
{
    let mut rs: Vec<Record> = Vec::new();
    let mut i: usize = pos;
    let mut k: u16 = 0;
    while k < count
        invariant
            k <= count,
            parse_records(buf@, pos as int, count as nat) == match parse_records(buf@, i as int, (count - k) as nat) {
                Some((rest, e)) => Some((records_view(rs@) + rest, e)),
                None => None,
            },
        decreases count - k,
    {
        let (r, j) = read_record(buf, i)?;
        let ghost before = records_view(rs@);
        rs.push(r);
        proof {
            assert(records_view(rs@) =~= before.push(r@));
            match parse_records(buf@, j as int, (count - k - 1) as nat) {
                Some((rest, e)) => {
                    assert(before + (seq![r@] + rest) =~= before.push(r@) + rest);
                },
                None => {},
            }
        }
        i = j;
        k = k + 1;
    }
    assert(records_view(rs@) + Seq::<RecordView>::empty() =~= records_view(rs@));
    Ok((rs, i))
}

/// A DNS message.
#[derive(Debug, Clone, PartialEq, Eq, Hash)]
pub struct Message {
    id: u16,
    flags: u16,
    queries: Vec<Query>,
    answers: Vec<Record>,
    name_servers: Vec<Record>,
    additionals: Vec<Record>,
}

impl View for Message {
    type V = MessageView;

    closed spec fn view(&self) -> MessageView {
        MessageView {
            id: self.id,
            flags: self.flags,
            queries: queries_view(self.queries@),
            answers: records_view(self.answers@),
            name_servers: records_view(self.name_servers@),
            additionals: records_view(self.additionals@),
        }
    }
}

impl Message {
    /// A query message with identifier `id`, recursion desired or not, and one question.
    pub fn query(id: u16, query: Query, recursion_desired: bool) -> (r: Message)
        ensures
            r@.id == id,
            r@.flags == (if recursion_desired { 0x0100u16 } else { 0u16 }),
            r@.queries == seq![query@],
            r@.answers.len() == 0 && r@.name_servers.len() == 0 && r@.additionals.len() == 0,
    {
        let mut queries: Vec<Query> = Vec::new();
        queries.push(query);
        let r = Message {
            id,
            flags: if recursion_desired { 0x0100 } else { 0 },
            queries,
            answers: Vec::new(),
            name_servers: Vec::new(),
            additionals: Vec::new(),
        };
        assert(r@.queries =~= seq![query@]);
        assert(r@.answers =~= Seq::<RecordView>::empty());
        r
    }

    /// Decodes a whole message. Fails unless each section holds exactly
    /// the number of entries its header count gives and the sections end
    /// where the bytes end.
    pub fn from_vec(bytes: &[u8]) -> (res: Result<Message, ProtoError>)
        ensures
            match res {
                Ok(m) => parse_message(bytes@) == Some(m@),
                Err(_) => parse_message(bytes@) is None,
            },
    {
        if bytes.len() < 12 {
            return Err(ProtoError::UnexpectedEnd);
        }
        let (id, _) = read_u16(bytes, 0)?;
        let (flags, _) = read_u16(bytes, 2)?;
        let (qd, _) = read_u16(bytes, 4)?;
        let (an, _) = read_u16(bytes, 6)?;
        let (ns, _) = read_u16(bytes, 8)?;
        let (ar, _) = read_u16(bytes, 10)?;
        let (queries, i1) = read_queries(bytes, 12, qd)?;
        let (answers, i2) = read_records(bytes, i1, an)?;
        let (name_servers, i3) = read_records(bytes, i2, ns)?;
        let (additionals, i4) = read_records(bytes, i3, ar)?;
        if i4 != bytes.len() {
            return Err(ProtoError::CountMismatch);
        }
        Ok(Message { id, flags, queries, answers, name_servers, additionals })
    }

    /// The same message with its first question replaced by `query`; a
    /// message without questions is returned unchanged.
    pub fn with_first_query(self, query: Query) -> (r: Message)
        ensures
            self@.queries.len() > 0 ==> r@ == (MessageView {
                queries: self@.queries.update(0, query@),
                ..self@
            }),
            self@.queries.len() == 0 ==> r@ == self@,
    {
        let mut m = self;
        if m.queries.len() > 0 {
            let ghost before = m.queries@;
            m.queries.set(0, query);
            assert(queries_view(m.queries@) =~= queries_view(before).update(0, query@));
        }
        m
    }

    /// The identifier.
    pub fn id(&self) -> (r: u16)
        ensures
            r == self@.id,
    {
        self.id
    }

    /// The response code, from the low four bits of the flags.
    pub fn response_code(&self) -> (r: ResponseCode)
        ensures
            r == response_code_of(self@.flags),
    {
        match self.flags % 16 {
            0 => ResponseCode::NoError,
            1 => ResponseCode::FormErr,
            2 => ResponseCode::ServFail,
            3 => ResponseCode::NXDomain,
            4 => ResponseCode::NotImp,
            5 => ResponseCode::Refused,
            v => ResponseCode::Other(v as u8),
        }
    }

    /// Whether the authenticated-data flag is set.
    pub fn authenticated_data(&self) -> (r: bool)
        ensures
            r == ((self@.flags / 32) % 2 == 1),
    {
        (self.flags / 32) % 2 == 1
    }

    /// Whether the recursion-desired flag is set.
    pub fn recursion_desired(&self) -> (r: bool)
        ensures
            r == ((self@.flags / 256) % 2 == 1),
    {
        (self.flags / 256) % 2 == 1
    }

    /// The questions.
    pub fn queries(&self) -> (r: &Vec<Query>)
        ensures
            queries_view(r@) == self@.queries,
    {
        &self.queries
    }

    /// The answer section.
    pub fn answers(&self) -> (r: &Vec<Record>)
        ensures
            records_view(r@) == self@.answers,
    {
        &self.answers
    }

    /// The authority section.
    pub fn name_servers(&self) -> (r: &Vec<Record>)
        ensures
            records_view(r@) == self@.name_servers,
    {
        &self.name_servers
    }

    /// The additional section.
    pub fn additionals(&self) -> (r: &Vec<Record>)
        ensures
            records_view(r@) == self@.additionals,
    {
        &self.additionals
    }
}

pub open spec fn response_code_of(flags: u16) -> ResponseCode {
    let v = flags % 16;
    if v == 0 {
        ResponseCode::NoError
    } else if v == 1 {
        ResponseCode::FormErr
    } else if v == 2 {
        ResponseCode::ServFail
    } else if v == 3 {
        ResponseCode::NXDomain
    } else if v == 4 {
        ResponseCode::NotImp
    } else if v == 5 {
        ResponseCode::Refused
    } else {
        ResponseCode::Other(v as u8)
    }
}

/// A question in wire form, its name uncompressed.
pub open spec fn query_wire() -> spec_fn(QueryView) -> Seq<u8> {
    |q: QueryView| name_wire(q.name) + be16(q.query_type) + be16(q.query_class)
}

/// A record in wire form, its owner name uncompressed.
pub open spec fn record_wire() -> spec_fn(RecordView) -> Seq<u8> {
    |r: RecordView|
        name_wire(r.name) + be16(r.record_type) + be16(r.dns_class) + be32(r.ttl) + be16(
            r.rdata.len() as u16,
        ) + r.rdata
}

/// A message in wire form, names uncompressed.
pub open spec fn message_wire(m: MessageView) -> Seq<u8> {
    be16(m.id) + be16(m.flags) + be16(m.queries.len() as u16) + be16(m.answers.len() as u16) + be16(
        m.name_servers.len() as u16,
    ) + be16(m.additionals.len() as u16) + concat(m.queries, query_wire()) + concat(
        m.answers,
        record_wire(),
    ) + concat(m.name_servers, record_wire()) + concat(m.additionals, record_wire())
}

/// A message that can be written: each section count and each record's
/// data length fit their two-octet fields.
pub open spec fn message_encodable(m: MessageView) -> bool {
    &&& m.queries.len() <= u16::MAX
    &&& m.answers.len() <= u16::MAX
    &&& m.name_servers.len() <= u16::MAX
    &&& m.additionals.len() <= u16::MAX
    &&& forall|i: int| 0 <= i < m.answers.len() ==> (#[trigger] m.answers[i]).rdata.len() <= u16::MAX
    &&& forall|i: int|
        0 <= i < m.name_servers.len() ==> (#[trigger] m.name_servers[i]).rdata.len() <= u16::MAX
    &&& forall|i: int|
        0 <= i < m.additionals.len() ==> (#[trigger] m.additionals[i]).rdata.len() <= u16::MAX
}

fn emit_records(out: &mut Vec<u8>, rs: &Vec<Record>) -> (res: Result<(), ProtoError>)
    ensures
        res is Ok <==> forall|i: int|
            0 <= i < rs@.len() ==> (#[trigger] records_view(rs@)[i]).rdata.len() <= u16::MAX,
        res is Ok ==> final(out)@ == old(out)@ + concat(records_view(rs@), record_wire()),
{
    let ghost start = out@;
    let ghost v = records_view(rs@);
    let mut i: usize = 0;
    while i < rs.len()
        invariant
            v == records_view(rs@),
            i <= rs@.len(),
            out@ == start + concat(v.subrange(0, i as int), record_wire()),
            forall|k: int| 0 <= k < i ==> (#[trigger] v[k]).rdata.len() <= u16::MAX,
        decreases rs@.len() - i,
    {
        let r = &rs[i];
        assert(v[i as int] == r@);
        if r.rdata.len() > 65535 {
            return Err(ProtoError::LengthOverflow);
        }
        emit_name(out, &r.name);
        emit_u16(out, r.record_type);
        emit_u16(out, r.dns_class);
        emit_u32(out, r.ttl);
        emit_u16(out, r.rdata.len() as u16);
        emit_bytes(out, r.rdata.as_slice());
        proof {
            assert(v[i as int] == r@);
            lemma_concat_push(v.subrange(0, i as int), v[i as int], record_wire());
            assert(v.subrange(0, i + 1) =~= v.subrange(0, i as int).push(v[i as int]));
            assert(out@ =~= start + concat(v.subrange(0, i + 1), record_wire()));
        }
        i = i + 1;
    }
    assert(v.subrange(0, i as int) =~= v);
    Ok(())
}

impl Message {
    /// Encodes the message, names uncompressed. Fails when a section holds
    /// more than 65535 entries or a record's data more than 65535 octets.
    pub fn to_vec(&self) -> (res: Result<Vec<u8>, ProtoError>)
        ensures
            res is Ok <==> message_encodable(self@),
            res matches Ok(b) ==> b@ == message_wire(self@),
    {
        let ghost m = self@;
        if self.queries.len() > 65535 || self.answers.len() > 65535 || self.name_servers.len() > 65535
            || self.additionals.len() > 65535 {
            return Err(ProtoError::LengthOverflow);
        }
        let mut out: Vec<u8> = Vec::new();
        emit_u16(&mut out, self.id);
        emit_u16(&mut out, self.flags);
        emit_u16(&mut out, self.queries.len() as u16);
        emit_u16(&mut out, self.answers.len() as u16);
        emit_u16(&mut out, self.name_servers.len() as u16);
        emit_u16(&mut out, self.additionals.len() as u16);
        let ghost head = out@;
        let ghost qv = m.queries;
        let mut i: usize = 0;
        while i < self.queries.len()
            invariant
                qv == queries_view(self.queries@),
                i <= qv.len(),
                out@ == head + concat(qv.subrange(0, i as int), query_wire()),
            decreases qv.len() - i,
        {
            let q = &self.queries[i];
            emit_name(&mut out, &q.name);
            emit_u16(&mut out, q.query_type);
            emit_u16(&mut out, q.query_class);
            proof {
                assert(qv[i as int] == q@);
                lemma_concat_push(qv.subrange(0, i as int), qv[i as int], query_wire());
                assert(qv.subrange(0, i + 1) =~= qv.subrange(0, i as int).push(qv[i as int]));
                assert(out@ =~= head + concat(qv.subrange(0, i + 1), query_wire()));
            }
            i = i + 1;
        }
        assert(qv.subrange(0, i as int) =~= qv);
        emit_records(&mut out, &self.answers)?;
        emit_records(&mut out, &self.name_servers)?;
        emit_records(&mut out, &self.additionals)?;
        assert(out@ =~= message_wire(m));
        Ok(out)
    }
}

impl Record {
    /// The name that NS or CNAME record data holds.
    pub fn name_target(&self) -> (res: Result<Name, ProtoError>)
        ensures
            match res {
                Ok(n) => holds_name(self.record_type) && parse_name(self.rdata@, 0) == Some(
                    (n@, self.rdata@.len() as int),
                ),
                Err(_) => !holds_name(self.record_type) || !(parse_name(self.rdata@, 0) matches Some(
                    (_, e),
                ) && e == self.rdata@.len()),
            },
    {
        if self.record_type != 2 && self.record_type != 5 {
            return Err(ProtoError::MalformedParam);
        }
        let (n, e) = read_name(self.rdata.as_slice(), 0)?;
        if e != self.rdata.len() {
            return Err(ProtoError::TrailingBytes);
        }
        Ok(n)
    }

    /// The record data as SVCB (type 64) or HTTPS (type 65) data; fails for
    /// other types and for data that does not read as such.
    pub fn svcb_data(&self) -> (res: Result<SVCB, ProtoError>)
        ensures
            match res {
                Ok(r) => (self.record_type == 64 || self.record_type == 65) && parse_svcb(self.rdata@)
                    == Some(r@),
                Err(_) => !(self.record_type == 64 || self.record_type == 65) || parse_svcb(
                    self.rdata@,
                ) is None,
            },
    {
        if self.record_type != 64 && self.record_type != 65 {
            return Err(ProtoError::MalformedParam);
        }
        SVCB::read_data(self.rdata.as_slice())
    }
}

} // verus!
