//! Decisions of an iterative resolver: the status of a chain of trust, the
//! outcome of a resolution, the check of an echoed query name, the hop
//! budget and visited zone cuts that bound a resolution, and the record
//! cache. Sending and receiving are left to the caller, which hands each
//! event to these functions and performs the action they return.
use crate::message::{response_code_of, Message, RecordView};
use crate::name::{in_zone, names_eq_ignore_case, parse_name, Name};
use vstd::prelude::*;

verus! {

/// Response codes the resolver acts on.
#[derive(Debug, Clone, Copy, PartialEq, Eq, Hash, Structural)]
pub enum ResponseCode {
    NoError,
    FormErr,
    ServFail,
    NXDomain,
    NotImp,
    Refused,
    Other(u8),
}

/// How far an RRset is authenticated.
#[derive(Debug, Clone, Copy, PartialEq, Eq, Hash, Structural)]
pub enum ValidationStatus {
    /// Every link from the trust anchor down verifies.
    Secure,
    /// A parent proves that the zone is unsigned.
    Insecure,
    /// A link that must verify does not.
    Bogus,
    /// Neither a signed delegation nor a proof of an unsigned one.
    Indeterminate,
}

/// One zone cut of a chain of trust, from the trust anchor downwards, as
/// checked against the records of the parent and of the zone itself.
#[derive(Debug, Clone, Copy, PartialEq, Eq, Hash, Structural)]
pub struct ZoneLink {
    /// The parent publishes a DS record for the zone (for the root: a trust anchor is configured).
    pub delegation_signed: bool,
    /// The parent proves that no DS record exists for the zone.
    pub proven_unsigned: bool,
    /// A DNSKEY of the zone hashes to that DS record (or anchor).
    pub key_matches: bool,
    /// The RRSIG over the zone's records verifies with that key within its validity window.
    pub signature_valid: bool,
}

/// The status of a chain of zone cuts from index `i` downwards.
pub open spec fn chain_status_from(links: Seq<ZoneLink>, i: int) -> ValidationStatus
    decreases links.len() - i,
{
    if i < 0 || i >= links.len() {
        ValidationStatus::Secure
    } else if links[i].delegation_signed {
        if links[i].key_matches && links[i].signature_valid {
            chain_status_from(links, i + 1)
        } else {
            ValidationStatus::Bogus
        }
    } else if links[i].proven_unsigned {
        ValidationStatus::Insecure
    } else {
        ValidationStatus::Indeterminate
    }
}

/// Walks a chain of zone cuts from the trust anchor downwards: a signed
/// delegation must verify (else Bogus); a proven unsigned one ends the walk
/// as Insecure; any other ends it as Indeterminate.
pub fn chain_status(links: &[ZoneLink]) -> (r: ValidationStatus)
    ensures
        r == chain_status_from(links@, 0),
{
    let mut i: usize = 0;
    while i < links.len()
        invariant
            i <= links@.len(),
            chain_status_from(links@, 0) == chain_status_from(links@, i as int),
        decreases links@.len() - i,
    {
        let link = links[i];
        if link.delegation_signed {
            if !(link.key_matches && link.signature_valid) {
                return ValidationStatus::Bogus;
            }
        } else if link.proven_unsigned {
            return ValidationStatus::Insecure;
        } else {
            return ValidationStatus::Indeterminate;
        }
        i = i + 1;
    }
    ValidationStatus::Secure
}

/// What a resolution ends in.
#[derive(Debug, Clone, Copy, PartialEq, Eq, Hash, Structural)]
pub enum Resolution {
    /// An answer, possibly empty; `authenticated` is the AD flag.
    Answer { authenticated: bool },
    /// The name does not exist.
    NxDomain { authenticated: bool },
    /// Validation failed, the budget ran out, or no server could answer.
    ServFail,
    /// No server answered in time.
    Timeout,
}

pub open spec fn outcome(rcode: ResponseCode, status: ValidationStatus, validate: bool) -> Resolution {
    if validate && (status == ValidationStatus::Bogus || status == ValidationStatus::Indeterminate) {
        Resolution::ServFail
    } else {
        let ad = validate && status == ValidationStatus::Secure;
        match rcode {
            ResponseCode::NoError => Resolution::Answer { authenticated: ad },
            ResponseCode::NXDomain => Resolution::NxDomain { authenticated: ad },
            _ => Resolution::ServFail,
        }
    }
}

/// The outcome of a final response with code `rcode` whose RRsets have
/// `status`. When validating, a Bogus or Indeterminate status is a
/// failure whatever the server said; a Secure one sets the AD flag.
pub fn finish(rcode: ResponseCode, status: ValidationStatus, validate: bool) -> (r: Resolution)
    ensures
        r == outcome(rcode, status, validate),
{
    if validate && (status == ValidationStatus::Bogus || status == ValidationStatus::Indeterminate) {
        return Resolution::ServFail;
    }
    let ad = validate && status == ValidationStatus::Secure;
    match rcode {
        ResponseCode::NoError => Resolution::Answer { authenticated: ad },
        ResponseCode::NXDomain => Resolution::NxDomain { authenticated: ad },
        _ => Resolution::ServFail,
    }
}

pub open spec fn echo_accepted(sent: Seq<Seq<u8>>, echoed: Seq<Seq<u8>>, case_randomization: bool) -> bool {
    if case_randomization {
        sent == echoed
    } else {
        names_eq_ignore_case(sent, echoed)
    }
}

/// Whether a response's echoed question name answers the query sent. With
/// case randomization the echo must match octet for octet, case included.
pub fn accept_echo(sent: &Name, echoed: &Name, case_randomization: bool) -> (r: bool)
    ensures
        r == echo_accepted(sent@, echoed@, case_randomization),
{
    if case_randomization {
        sent.eq_case_sensitive(echoed)
    } else {
        sent.eq_ignore_case(echoed)
    }
}

/// The hop budget of a resolution when none is configured.
pub const DEFAULT_MAX_HOPS: usize = 26;

/// Whether `response` answers a request with identifier `id` whose question
/// name was sent as `sent`: the identifiers agree, and the first echoed
/// question name passes `accept_echo`.
pub fn response_answers(id: u16, sent: &Name, response: &Message, case_randomization: bool) -> (r: bool)
    ensures
        r == (response@.id == id && response@.queries.len() > 0 && echo_accepted(
            sent@,
            response@.queries[0].name,
            case_randomization,
        )),
{
    if response.id() != id {
        return false;
    }
    let qs = response.queries();
    if qs.len() == 0 {
        return false;
    }
    assert(qs@[0]@ == response@.queries[0]);
    accept_echo(sent, &qs[0].name, case_randomization)
}

/// What happened since the last action, as plain values.
pub enum EventView {
    Begin,
    Referral { zone: Seq<Seq<u8>>, glue: bool, ns_in_zone: bool },
    Timeout { alternate: bool },
    Final,
}

/// What happened since the last action.
pub enum Event {
    /// The resolution starts; the first query goes to the root hints.
    Begin,
    /// A server referred the query to the servers of `zone`. `glue` tells
    /// whether the referral carried their addresses; `ns_in_zone` whether
    /// every name server's name lies inside `zone` itself.
    Referral { zone: Name, glue: bool, ns_in_zone: bool },
    /// A query timed out; `alternate` tells whether another server address is left.
    Timeout { alternate: bool },
    /// A final answer arrived (an answer, NODATA or NXDOMAIN).
    Final,
}

impl View for Event {
    type V = EventView;

    open spec fn view(&self) -> EventView {
        match self {
            Event::Begin => EventView::Begin,
            Event::Referral { zone, glue, ns_in_zone } => EventView::Referral {
                zone: zone@,
                glue: *glue,
                ns_in_zone: *ns_in_zone,
            },
            Event::Timeout { alternate } => EventView::Timeout { alternate: *alternate },
            Event::Final => EventView::Final,
        }
    }
}

pub open spec fn names_view(ns: Seq<Name>) -> Seq<Seq<Seq<u8>>> {
    ns.map_values(|n: Name| n@)
}

/// Whether some name server has an address record among the glue owners.
pub open spec fn has_glue(ns: Seq<Seq<Seq<u8>>>, glue: Seq<Seq<Seq<u8>>>) -> bool {
    exists|i: int, j: int|
        0 <= i < ns.len() && 0 <= j < glue.len() && names_eq_ignore_case(#[trigger] ns[i], #[trigger] glue[j])
}

/// Whether every name server lies inside `zone`.
pub open spec fn all_in_zone(ns: Seq<Seq<Seq<u8>>>, zone: Seq<Seq<u8>>) -> bool {
    forall|i: int| 0 <= i < ns.len() ==> in_zone(#[trigger] ns[i], zone)
}

fn find_glue(ns_names: &[Name], glue_owners: &[Name]) -> (r: bool)
    ensures
        r == has_glue(names_view(ns_names@), names_view(glue_owners@)),
{
    let ghost ns = names_view(ns_names@);
    let ghost gs = names_view(glue_owners@);
    let mut i: usize = 0;
    while i < ns_names.len()
        invariant
            ns == names_view(ns_names@),
            gs == names_view(glue_owners@),
            i <= ns.len(),
            forall|a: int, b: int|
                0 <= a < i && 0 <= b < gs.len() ==> !names_eq_ignore_case(#[trigger] ns[a], #[trigger] gs[b]),
        decreases ns.len() - i,
    {
        let mut j: usize = 0;
        while j < glue_owners.len()
            invariant
                ns == names_view(ns_names@),
                gs == names_view(glue_owners@),
                i < ns.len(),
                j <= gs.len(),
                forall|a: int, b: int|
                    0 <= a < i && 0 <= b < gs.len() ==> !names_eq_ignore_case(#[trigger] ns[a], #[trigger] gs[b]),
                forall|b: int| 0 <= b < j ==> !names_eq_ignore_case(ns[i as int], #[trigger] gs[b]),
            decreases gs.len() - j,
        {
            assert(ns[i as int] == ns_names@[i as int]@ && gs[j as int] == glue_owners@[j as int]@);
            if ns_names[i].eq_ignore_case(&glue_owners[j]) {
                return true;
            }
            j = j + 1;
        }
        i = i + 1;
    }
    false
}

/// The event for a referral to the servers `ns_names` of `zone`, when the
/// additional section holds address records owned by `glue_owners`. `None`
/// when the referral does not cover the query name `qname` or names no
/// server: such a response cannot be followed.
pub fn referral_event(qname: &Name, zone: &Name, ns_names: &[Name], glue_owners: &[Name]) -> (r: Option<Event>)
    ensures
        match r {
            Some(e) => in_zone(qname@, zone@) && ns_names@.len() > 0 && e@ == (EventView::Referral {
                zone: zone@,
                glue: has_glue(names_view(ns_names@), names_view(glue_owners@)),
                ns_in_zone: all_in_zone(names_view(ns_names@), zone@),
            }),
            None => !in_zone(qname@, zone@) || ns_names@.len() == 0,
        },
{
    if !qname.is_in_zone(zone) || ns_names.len() == 0 {
        return None;
    }
    let ghost ns = names_view(ns_names@);
    let mut inside = true;
    let mut i: usize = 0;
    while i < ns_names.len()
        invariant
            ns == names_view(ns_names@),
            i <= ns.len(),
            inside == forall|k: int| 0 <= k < i ==> in_zone(#[trigger] ns[k], zone@),
        decreases ns.len() - i,
    {
        assert(ns[i as int] == ns_names@[i as int]@);
        if !ns_names[i].is_in_zone(zone) {
            inside = false;
        }
        i = i + 1;
    }
    let glue = find_glue(ns_names, glue_owners);
    Some(Event::Referral { zone: zone.clone(), glue, ns_in_zone: inside })
}

/// What the caller does next.
#[derive(Debug, Clone, Copy, PartialEq, Eq, Structural)]
pub enum Action {
    /// Send the query to the next server address.
    Query,
    /// Look up the address of a name server first, the referral having no glue.
    ResolveNameServer,
    /// Process the final answer (see `finish`).
    Finish,
    /// Stop with this outcome.
    Fail(Resolution),
}

/// The state of one resolution, as plain values.
pub struct ContextView {
    pub remaining: nat,
    pub retries: nat,
    pub visited: Seq<Seq<Seq<u8>>>,
}

pub open spec fn cut_visited(visited: Seq<Seq<Seq<u8>>>, zone: Seq<Seq<u8>>) -> bool {
    exists|j: int| 0 <= j < visited.len() && names_eq_ignore_case(#[trigger] visited[j], zone)
}

/// One decision: each step of the resolution (the first query, a referral
/// followed) spends one hop; a retry against another server address after a
/// timeout spends one retry instead, not a hop. A referral back to a zone
/// cut already visited, a referral whose only name servers lie inside the
/// delegated zone without glue, and an exhausted hop budget end the
/// resolution with SERVFAIL; a timeout with no address or retry left ends
/// it as a timeout.
pub open spec fn step(c: ContextView, e: EventView) -> (ContextView, Action) {
    match e {
        EventView::Begin => if c.remaining > 0 {
            (ContextView { remaining: (c.remaining - 1) as nat, ..c }, Action::Query)
        } else {
            (c, Action::Fail(Resolution::ServFail))
        },
        EventView::Referral { zone, glue, ns_in_zone } => if cut_visited(c.visited, zone) || (!glue
            && ns_in_zone) || c.remaining == 0 {
            (c, Action::Fail(Resolution::ServFail))
        } else {
            (
                ContextView {
                    remaining: (c.remaining - 1) as nat,
                    retries: c.retries,
                    visited: c.visited.push(zone),
                },
                if glue {
                    Action::Query
                } else {
                    Action::ResolveNameServer
                },
            )
        },
        EventView::Timeout { alternate } => if alternate && c.retries > 0 {
            (ContextView { retries: (c.retries - 1) as nat, ..c }, Action::Query)
        } else {
            (c, Action::Fail(Resolution::Timeout))
        },
        EventView::Final => (c, Action::Finish),
    }
}

/// The number of upstream queries (and name server lookups) that a run
/// over `events` issues before it finishes or fails.
pub open spec fn run_queries(c: ContextView, events: Seq<EventView>) -> nat
    decreases events.len(),
{
    if events.len() == 0 {
        0
    } else {
        let (c2, a) = step(c, events[0]);
        match a {
            Action::Query | Action::ResolveNameServer => 1 + run_queries(c2, events.drop_first()),
            _ => 0,
        }
    }
}

/// The retries after timeouts a resolution may make when none is configured.
pub const DEFAULT_MAX_RETRIES: usize = 2;

/// The per-query state of a resolution: the hops and timeout retries left,
/// and the zone cuts already delegated through. Each resolution has its own.
pub struct ResolutionContext {
    remaining: usize,
    retries: usize,
    visited: Vec<Name>,
}

impl View for ResolutionContext {
    type V = ContextView;

    closed spec fn view(&self) -> ContextView {
        ContextView {
            remaining: self.remaining as nat,
            retries: self.retries as nat,
            visited: self.visited@.map_values(|n: Name| n@),
        }
    }
}

impl ResolutionContext {
    /// A fresh context with `max_hops` hops, `max_retries` retries after
    /// timeouts, and no zone cut visited.
    pub fn new(max_hops: usize, max_retries: usize) -> (r: ResolutionContext)
        ensures
            r@.remaining == max_hops,
            r@.retries == max_retries,
            r@.visited == Seq::<Seq<Seq<u8>>>::empty(),
    {
        let r = ResolutionContext { remaining: max_hops, retries: max_retries, visited: Vec::new() };
        assert(r@.visited =~= Seq::<Seq<Seq<u8>>>::empty());
        r
    }

    /// The hops left.
    pub fn remaining(&self) -> (r: usize)
        ensures
            r == self@.remaining,
    {
        self.remaining
    }

    fn visited_contains(&self, zone: &Name) -> (r: bool)
        ensures
            r == cut_visited(self@.visited, zone@),
    {
        let ghost vs = self@.visited;
        let mut j: usize = 0;
        while j < self.visited.len()
            invariant
                vs == self@.visited,
                j <= vs.len(),
                forall|k: int| 0 <= k < j ==> !names_eq_ignore_case(#[trigger] vs[k], zone@),
            decreases vs.len() - j,
        {
            assert(self.visited@[j as int]@ == vs[j as int]);
            if self.visited[j].eq_ignore_case(zone) {
                return true;
            }
            j = j + 1;
        }
        false
    }

    /// Decides what to do after `event`, and spends a hop on each query.
    pub fn on_event(&mut self, event: Event) -> (a: Action)
        ensures
            (final(self)@, a) == step(old(self)@, event@),
    {
        match event {
            Event::Begin => {
                if self.remaining > 0 {
                    self.remaining = self.remaining - 1;
                    Action::Query
                } else {
                    Action::Fail(Resolution::ServFail)
                }
            },
            Event::Referral { zone, glue, ns_in_zone } => {
                if self.visited_contains(&zone) || (!glue && ns_in_zone) || self.remaining == 0 {
                    return Action::Fail(Resolution::ServFail);
                }
                self.remaining = self.remaining - 1;
                let ghost before = self@.visited;
                self.visited.push(zone);
                assert(self@.visited =~= before.push(zone@));
                if glue {
                    Action::Query
                } else {
                    Action::ResolveNameServer
                }
            },
            Event::Timeout { alternate } => {
                if alternate && self.retries > 0 {
                    self.retries = self.retries - 1;
                    Action::Query
                } else {
                    Action::Fail(Resolution::Timeout)
                }
            },
            Event::Final => Action::Finish,
        }
    }
}

/// Loop bound: whatever the servers answer, a resolution issues at most as
/// many upstream queries as its hop budget and its timeout retries together,
/// and then stops.
pub proof fn lemma_queries_within_budget(c: ContextView, events: Seq<EventView>)
    ensures
        run_queries(c, events) <= c.remaining + c.retries,
    decreases events.len(),
{
    if events.len() > 0 {
        let (c2, a) = step(c, events[0]);
        lemma_queries_within_budget(c2, events.drop_first());
    }
}

/// A referral that omits glue for name servers inside the delegated zone
/// ends the resolution at once, without spending a hop.
pub proof fn lemma_glueless_self_referral_stops(c: ContextView, zone: Seq<Seq<u8>>)
    ensures
        step(c, EventView::Referral { zone, glue: false, ns_in_zone: true }) == (
        c,
        Action::Fail(Resolution::ServFail),
    ),
{
}

/// Loop bound for the referral that omits glue for its own name servers:
/// a run stops at the first such referral, so it issues no more queries
/// than the events before it, strictly fewer than the budget when that
/// referral comes before the budget is spent.
pub proof fn lemma_stops_at_glueless_self_referral(c: ContextView, events: Seq<EventView>, j: int)
    requires
        0 <= j < events.len(),
        events[j] matches EventView::Referral { glue, ns_in_zone, .. } && !glue && ns_in_zone,
    ensures
        run_queries(c, events) <= j,
        j < c.remaining ==> run_queries(c, events) < c.remaining,
    decreases j,
{
    if j > 0 {
        let (c2, a) = step(c, events[0]);
        assert(events.drop_first()[j - 1] == events[j]);
        lemma_stops_at_glueless_self_referral(c2, events.drop_first(), j - 1);
    }
}

/// Resolution correctness: when every link from the trust anchor down to
/// the leaf is a signed delegation whose key matches and whose signature
/// verifies, the chain is Secure, and a validating resolver answers NOERROR
/// with the authenticated-data flag set.
pub proof fn lemma_signed_chain_authenticated(links: Seq<ZoneLink>)
    requires
        forall|i: int|
            0 <= i < links.len() ==> (#[trigger] links[i]).delegation_signed && links[i].key_matches
                && links[i].signature_valid,
    ensures
        chain_status_from(links, 0) == ValidationStatus::Secure,
        outcome(ResponseCode::NoError, chain_status_from(links, 0), true) == (Resolution::Answer {
            authenticated: true,
        }),
{
    lemma_signed_chain_from(links, 0);
}

proof fn lemma_signed_chain_from(links: Seq<ZoneLink>, i: int)
    requires
        0 <= i,
        forall|k: int|
            0 <= k < links.len() ==> (#[trigger] links[k]).delegation_signed && links[k].key_matches
                && links[k].signature_valid,
    ensures
        chain_status_from(links, i) == ValidationStatus::Secure,
    decreases links.len() - i,
{
    if i < links.len() {
        lemma_signed_chain_from(links, i + 1);
    }
}

/// A broken link makes the chain Bogus, and a validating resolver fails the
/// resolution rather than answer unauthenticated.
pub proof fn lemma_broken_chain_fails(links: Seq<ZoneLink>, rcode: ResponseCode)
    requires
        chain_status_from(links, 0) == ValidationStatus::Bogus,
    ensures
        outcome(rcode, chain_status_from(links, 0), true) == Resolution::ServFail,
{
}

/// Negative result: an NXDOMAIN answer for a name in an unsigned zone (or
/// when not validating) ends as NXDOMAIN, never as SERVFAIL or a timeout.
pub proof fn lemma_unsigned_nxdomain(status: ValidationStatus, validate: bool)
    requires
        !validate || status == ValidationStatus::Insecure,
    ensures
        outcome(ResponseCode::NXDomain, status, validate) == (Resolution::NxDomain {
            authenticated: false,
        }),
{
}

/// Spoofing defense: with case randomization, an echoed name that differs
/// from the one sent, if only in case, is rejected.
pub proof fn lemma_case_mismatch_rejected(sent: Seq<Seq<u8>>, echoed: Seq<Seq<u8>>)
    requires
        sent != echoed,
    ensures
        !echo_accepted(sent, echoed, true),
{
}

/// NS records.
pub open spec fn is_ns() -> spec_fn(RecordView) -> bool {
    |r: RecordView| r.record_type == 2
}

/// A and AAAA records.
pub open spec fn is_address() -> spec_fn(RecordView) -> bool {
    |r: RecordView| r.record_type == 1 || r.record_type == 28
}

/// The owner names of `rs`.
pub open spec fn owners(rs: Seq<RecordView>) -> Seq<Seq<Seq<u8>>> {
    rs.map_values(|r: RecordView| r.name)
}

/// The name that an NS record's data holds, filling it exactly.
pub open spec fn ns_target(r: RecordView) -> Option<Seq<Seq<u8>>> {
    match parse_name(r.rdata, 0) {
        Some((n, e)) => if e == r.rdata.len() {
            Some(n)
        } else {
            None
        },
        None => None,
    }
}

/// The names that the NS records `ns` point to, if each holds one.
pub open spec fn ns_targets(ns: Seq<RecordView>) -> Option<Seq<Seq<Seq<u8>>>>
    decreases ns.len(),
{
    if ns.len() == 0 {
        Some(Seq::empty())
    } else {
        match (ns_targets(ns.drop_last()), ns_target(ns.last())) {
            (Some(ts), Some(t)) => Some(ts.push(t)),
            _ => None,
        }
    }
}

/// Whether every NS record is owned by `zone`, ignoring case.
pub open spec fn owned_by(ns: Seq<RecordView>, zone: Seq<Seq<u8>>) -> bool {
    forall|i: int| 0 <= i < ns.len() ==> names_eq_ignore_case(#[trigger] ns[i].name, zone)
}

/// Turns a response to a query for `qname` into the next event. A response
/// with an error code or with answers, or without NS records in its
/// authority section, is final. Otherwise it is a referral to the owner of
/// those NS records; `None` when they disagree on their owner, an NS record
/// holds no name, or the referral does not cover `qname`.
pub fn response_event(response: &Message, qname: &Name) -> (r: Option<Event>)
    ensures
        ({
            let m = response@;
            let ns = m.name_servers.filter(is_ns());
            let glue = owners(m.additionals.filter(is_address()));
            if response_code_of(m.flags) != ResponseCode::NoError || m.answers.len() > 0 || ns.len()
                == 0 {
                r matches Some(e) && e@ == EventView::Final
            } else {
                match r {
                    Some(e) => owned_by(ns, ns[0].name) && ns_targets(ns) is Some && in_zone(
                        qname@,
                        ns[0].name,
                    ) && e@ == (EventView::Referral {
                        zone: ns[0].name,
                        glue: has_glue(ns_targets(ns)->0, glue),
                        ns_in_zone: all_in_zone(ns_targets(ns)->0, ns[0].name),
                    }),
                    None => !owned_by(ns, ns[0].name) || ns_targets(ns) is None || !in_zone(
                        qname@,
                        ns[0].name,
                    ),
                }
            }
        }),
{
    let ghost m = response@;
    if response.response_code() != ResponseCode::NoError || response.answers().len() > 0 {
        return Some(Event::Final);
    }
    let auth = response.name_servers();
    let ghost av = crate::message::records_view(auth@);
    let mut zone: Option<Name> = None;
    let mut targets: Vec<Name> = Vec::new();
    let mut i: usize = 0;
    while i < auth.len()
        invariant
            av == crate::message::records_view(auth@),
            av == response@.name_servers,
            response_code_of(response@.flags) == ResponseCode::NoError,
            response@.answers.len() == 0,
            i <= av.len(),
            ({
                let f = av.subrange(0, i as int).filter(is_ns());
                &&& (zone is None <==> f.len() == 0)
                &&& (zone matches Some(z) ==> z@ == f[0].name && owned_by(f, z@))
                &&& ns_targets(f) == Some(names_view(targets@))
            }),
        decreases av.len() - i,
    {
        let rec = &auth[i];
        let ghost f0 = av.subrange(0, i as int).filter(is_ns());
        proof {
            assert(av[i as int] == rec@);
            assert(av.subrange(0, i + 1) =~= av.subrange(0, i as int).push(rec@));
            av.subrange(0, i as int).lemma_filter_push(rec@, is_ns());
        }
        if rec.record_type == 2 {
            let ghost f1 = f0.push(rec@);
            assert(av.subrange(0, i + 1).filter(is_ns()) == f1);
            if zone.is_none() {
                zone = Some(rec.name.clone());
            }
            let owner_ok = match &zone {
                Some(z) => rec.name.eq_ignore_case(z),
                None => false,
            };
            if !owner_ok {
                proof {
                    lemma_filter_prefix(av, (i + 1) as int, is_ns());
                    let ns = av.filter(is_ns());
                    let k = f0.len() as int;
                    assert(ns.subrange(0, f1.len() as int) == f1);
                    assert(ns.subrange(0, f1.len() as int)[k] == ns[k]);
                    assert(f1[k] == rec@);
                    assert(ns[k] == rec@);
                    assert(ns.subrange(0, f1.len() as int)[0] == ns[0]);
                    assert(ns[0] == f1[0]);
                    assert(f0.len() > 0);
                    assert(f1[0] == f0[0]);
                    assert(!names_eq_ignore_case(ns[k].name, ns[0].name));
                }
                return None;
            }
            let t = match rec.name_target() {
                Ok(t) => t,
                Err(_) => {
                    proof {
                        lemma_filter_prefix(av, (i + 1) as int, is_ns());
                        lemma_ns_targets_prefix(av.filter(is_ns()), f1.len() as int);
                        assert(av.filter(is_ns()).subrange(0, f1.len() as int) == f1);
                        assert(f1.drop_last() =~= f0);
                    }
                    return None;
                },
            };
            let ghost before = names_view(targets@);
            targets.push(t);
            proof {
                assert(names_view(targets@) =~= before.push(t@));
                assert(f1.drop_last() =~= f0);
                let f = f1;
                match &zone {
                    Some(z) => {
                        assert forall|k: int| 0 <= k < f.len() implies names_eq_ignore_case(
                            #[trigger] f[k].name,
                            z@,
                        ) by {
                            if k < f0.len() {
                                assert(f[k] == f0[k]);
                            }
                        }
                        if f0.len() > 0 {
                            assert(f[0] == f0[0]);
                        }
                    },
                    None => {},
                }
            }
        } else {
            assert(av.subrange(0, i + 1).filter(is_ns()) == f0);
        }
        i = i + 1;
    }
    assert(av.subrange(0, i as int) =~= av);
    let z = match zone {
        Some(z) => z,
        None => return Some(Event::Final),
    };
    let adds = response.additionals();
    let ghost dv = crate::message::records_view(adds@);
    let mut glue: Vec<Name> = Vec::new();
    let mut j: usize = 0;
    while j < adds.len()
        invariant
            dv == crate::message::records_view(adds@),
            j <= dv.len(),
            names_view(glue@) == owners(dv.subrange(0, j as int).filter(is_address())),
        decreases dv.len() - j,
    {
        let rec = &adds[j];
        proof {
            assert(dv[j as int] == rec@);
            assert(dv.subrange(0, j + 1) =~= dv.subrange(0, j as int).push(rec@));
            dv.subrange(0, j as int).lemma_filter_push(rec@, is_address());
        }
        let ghost g0 = dv.subrange(0, j as int).filter(is_address());
        if rec.record_type == 1 || rec.record_type == 28 {
            let ghost before = names_view(glue@);
            let owner = rec.name.clone();
            glue.push(owner);
            assert(dv.subrange(0, j + 1).filter(is_address()) == g0.push(rec@));
            assert(names_view(glue@) =~= before.push(owner@));
            assert(owners(g0.push(rec@)) =~= owners(g0).push(rec@.name));
            assert(names_view(glue@) =~= owners(g0.push(rec@)));
        } else {
            assert(dv.subrange(0, j + 1).filter(is_address()) == g0);
        }
        j = j + 1;
    }
    assert(dv.subrange(0, j as int) =~= dv);
    referral_event(qname, &z, targets.as_slice(), glue.as_slice())
}

/// The filter of a prefix is a prefix of the filter.
proof fn lemma_filter_prefix(s: Seq<RecordView>, i: int, p: spec_fn(RecordView) -> bool)
    requires
        0 <= i <= s.len(),
    ensures
        s.subrange(0, i).filter(p).len() <= s.filter(p).len(),
        s.filter(p).subrange(0, s.subrange(0, i).filter(p).len() as int) == s.subrange(0, i).filter(p),
    decreases s.len() - i,
{
    if i == s.len() {
        assert(s.subrange(0, i) =~= s);
        assert(s.filter(p).subrange(0, s.filter(p).len() as int) =~= s.filter(p));
    } else {
        lemma_filter_prefix(s, i + 1, p);
        let a = s.subrange(0, i).filter(p);
        let b = s.subrange(0, i + 1).filter(p);
        assert(s.subrange(0, i + 1) =~= s.subrange(0, i).push(s[i]));
        s.subrange(0, i).lemma_filter_push(s[i], p);
        let full = s.filter(p);
        if p(s[i]) {
            assert(b == a.push(s[i]));
            assert(full.subrange(0, a.len() as int) =~= b.subrange(0, a.len() as int));
            assert(b.subrange(0, a.len() as int) =~= a);
        } else {
            assert(b == a);
        }
    }
}

/// A sequence of NS records has targets only if each prefix of it has.
proof fn lemma_ns_targets_prefix(ns: Seq<RecordView>, k: int)
    requires
        0 <= k <= ns.len(),
        ns_targets(ns.subrange(0, k)) is None,
    ensures
        ns_targets(ns) is None,
    decreases ns.len() - k,
{
    if k < ns.len() {
        assert(ns.subrange(0, k + 1).drop_last() =~= ns.subrange(0, k));
        lemma_ns_targets_prefix(ns, k + 1);
    } else {
        assert(ns.subrange(0, k) =~= ns);
    }
}

} // verus!
