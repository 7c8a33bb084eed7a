//! A query message together with the options that say how to send it.
use crate::message::{Message, MessageView, Query, QueryView};
use vstd::prelude::*;

verus! {

/// How a request is to be sent and its answer treated.
#[derive(Clone, Copy, Debug, PartialEq, Eq, Structural)]
pub struct DnsRequestOptions {
    /// Add EDNS options to the request.
    pub use_edns: bool,
    /// Set the DO bit in the EDNS options.
    pub edns_set_dnssec_ok: bool,
    /// The hop budget of DNSSEC validation and resolution.
    pub max_request_depth: usize,
    /// Set the recursion-desired flag.
    pub recursion_desired: bool,
    /// Randomize the case of the query name and require the answer to echo it exactly.
    pub case_randomization: bool,
}

impl Default for DnsRequestOptions {
    fn default() -> (r: DnsRequestOptions)
        ensures
            r == (DnsRequestOptions {
                use_edns: false,
                edns_set_dnssec_ok: false,
                max_request_depth: 26,
                recursion_desired: true,
                case_randomization: false,
            }),
    {
        DnsRequestOptions {
            max_request_depth: 26,
            use_edns: false,
            edns_set_dnssec_ok: false,
            recursion_desired: true,
            case_randomization: false,
        }
    }
}

/// A request: a message, its options and, when the query name's case was
/// randomized, the query as first asked.
#[derive(Clone, PartialEq, Eq, Debug)]
pub struct DnsRequest {
    message: Message,
    options: DnsRequestOptions,
    original_query: Option<Query>,
}

impl DnsRequest {
    pub closed spec fn message_view(&self) -> MessageView {
        self.message@
    }

    pub closed spec fn options_view(&self) -> DnsRequestOptions {
        self.options
    }

    pub closed spec fn original_query_view(&self) -> Option<QueryView> {
        match self.original_query {
            Some(q) => Some(q@),
            None => None,
        }
    }

    /// A request with no original query recorded.
    pub fn new(message: Message, options: DnsRequestOptions) -> (r: DnsRequest)
        ensures
            r.message_view() == message@,
            r.options_view() == options,
            r.original_query_view() is None,
    {
        DnsRequest { message, options, original_query: None }
    }

    /// Records the query as first asked, before its case was randomized.
    pub fn with_original_query(self, original_query: Option<Query>) -> (r: DnsRequest)
        ensures
            r.message_view() == self.message_view(),
            r.options_view() == self.options_view(),
            r.original_query_view() == (match original_query {
                Some(q) => Some(q@),
                None => None::<QueryView>,
            }),
    {
        DnsRequest { original_query, ..self }
    }

    /// The response as the client should see it: when the query was first
    /// asked otherwise (its name's case randomized), the first question of
    /// the response is the query as first asked.
    pub fn restore_original_query(&self, response: Message) -> (r: Message)
        ensures
            match self.original_query_view() {
                Some(q) => response@.queries.len() > 0 ==> r@ == (MessageView {
                    queries: response@.queries.update(0, q),
                    ..response@
                }),
                None => r@ == response@,
            },
            self.original_query_view() is Some && response@.queries.len() == 0 ==> r@ == response@,
    {
        match &self.original_query {
            Some(q) => response.with_first_query(q.clone()),
            None => response,
        }
    }

    /// The options.
    pub fn options(&self) -> (r: &DnsRequestOptions)
        ensures
            *r == self.options_view(),
    {
        &self.options
    }

    /// The message.
    pub fn message(&self) -> (r: &Message)
        ensures
            r@ == self.message_view(),
    {
        &self.message
    }

    /// The message and the options.
    pub fn into_parts(self) -> (r: (Message, DnsRequestOptions))
        ensures
            r.0@ == self.message_view(),
            r.1 == self.options_view(),
    {
        (self.message, self.options)
    }

    /// The query as first asked, if it was recorded.
    pub fn original_query(&self) -> (r: Option<&Query>)
        ensures
            match r {
                Some(q) => self.original_query_view() == Some(q@),
                None => self.original_query_view() is None,
            },
    {
        match &self.original_query {
            Some(q) => Some(q),
            None => None,
        }
    }
}

impl From<Message> for DnsRequest {
    fn from(message: Message) -> (r: DnsRequest) {
        DnsRequest { message, options: DnsRequestOptions::default(), original_query: None }
    }
}

impl vstd::std_specs::convert::FromSpecImpl<Message> for DnsRequest {
    open spec fn obeys_from_spec() -> bool {
        true
    }

    closed spec fn from_spec(m: Message) -> DnsRequest {
        DnsRequest {
            message: m,
            options: DnsRequestOptions {
                use_edns: false,
                edns_set_dnssec_ok: false,
                max_request_depth: 26,
                recursion_desired: true,
                case_randomization: false,
            },
            original_query: None,
        }
    }
}

} // verus!
