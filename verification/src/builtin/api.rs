//! The API gateway trigger: its events become requests, and responses become
//! the records that the gateway expects back.
pub mod ext;

use vstd::prelude::*;
use vstd::string::*;
use vstd::utf8::*;

use crate::convert::string_from_utf8;
use crate::codec::{base64_decode, base64_decoding, base64_encode, base64_encoded_len, base64_encoding};
use self::ext::{
    HeaderParameters, PathParameters, QueryString, QueryStringParameters, RequestContext,
};
use crate::http_rules::{
    ascii_lower, canonical_header_name, check_method, check_uri, header_name_canonical, header_value_accepted,
    header_value_is_valid, method_accepted, uri_accepted,
};

verus! {

/// The error of `serde_json` for JSON that cannot be read or written.
#[verifier::external_type_specification]
#[verifier::external_body]
pub struct ExJsonError(serde_json::Error);

/// True when no name comes twice in the named values `s`.
pub open spec fn names_distinct(s: Seq<(Seq<char>, Seq<char>)>) -> bool {
    forall|i: int, j: int| 0 <= i < j < s.len() ==> #[trigger] s[i].0 != #[trigger] s[j].0
}

/// The position of the name `name` in the named values `s`, where it is there.
pub open spec fn position_of(s: Seq<(Seq<char>, Seq<char>)>, name: Seq<char>) -> int {
    choose|i: int| 0 <= i < s.len() && #[trigger] s[i].0 == name
}

/// True when the name `name` is among the named values `s`.
pub open spec fn has_name(s: Seq<(Seq<char>, Seq<char>)>, name: Seq<char>) -> bool {
    exists|i: int| 0 <= i < s.len() && #[trigger] s[i].0 == name
}

/// The named values `s` once `name` is set to `value`: in its place where the
/// name is there, at the end otherwise.
pub open spec fn with_value(s: Seq<(Seq<char>, Seq<char>)>, name: Seq<char>, value: Seq<char>) -> Seq<
    (Seq<char>, Seq<char>),
> {
    if has_name(s, name) {
        s.update(position_of(s, name), (name, value))
    } else {
        s.push((name, value))
    }
}

/// Reading a name after it was set gives the value set; every other name keeps
/// its value (or stays absent), no name comes twice, and the count grows by
/// one only for a new name.
pub proof fn dict_read_after_write(
    s: Seq<(Seq<char>, Seq<char>)>,
    name: Seq<char>,
    value: Seq<char>,
    other: Seq<char>,
)
    requires
        names_distinct(s),
    ensures
        names_distinct(with_value(s, name, value)),
        has_name(with_value(s, name, value), name),
        with_value(s, name, value)[position_of(with_value(s, name, value), name)].1 == value,
        other != name ==> has_name(with_value(s, name, value), other) == has_name(s, other),
        other != name && has_name(s, other) ==> with_value(s, name, value)[position_of(
            with_value(s, name, value),
            other,
        )].1 == s[position_of(s, other)].1,
        with_value(s, name, value).len() == if has_name(s, name) {
            s.len()
        } else {
            s.len() + 1
        },
{
    let t = with_value(s, name, value);
    let k = if has_name(s, name) {
        position_of(s, name)
    } else {
        s.len() as int
    };
    assert(t[k].0 == name);
    assert forall|i: int| 0 <= i < t.len() && i != k implies #[trigger] t[i] == s[i] by {}
    assert forall|i: int, j: int| 0 <= i < j < t.len() implies #[trigger] t[i].0 != #[trigger] t[j].0 by {
        if i != k && j != k {
            assert(t[i] == s[i] && t[j] == s[j]);
        } else if i == k {
            assert(t[j] == s[j]);
            if has_name(s, name) {
                assert(s[k].0 == name);
            }
        } else {
            assert(t[i] == s[i]);
            if has_name(s, name) {
                assert(s[k].0 == name);
            }
        }
    }
    assert(has_name(t, name));
    let p = position_of(t, name);
    assert(p == k);
    if other != name {
        if has_name(s, other) {
            let q = position_of(s, other);
            assert(q != k) by {
                if has_name(s, name) {
                    assert(s[k].0 == name);
                }
            }
            assert(t[q] == s[q]);
            assert(has_name(t, other));
            let r = position_of(t, other);
            assert(r != k);
            assert(t[r] == s[r]);
            assert(r == q);
        }
        if has_name(t, other) {
            let r = position_of(t, other);
            assert(r != k);
            assert(t[r] == s[r]);
            assert(has_name(s, other));
        }
    }
}

/// Named values, each name at most once, in the order the names came first.
#[derive(Debug, PartialEq, Eq)]
pub struct Dict {
    entries: Vec<(String, String)>,
}

impl Clone for Dict {
    /// The same names with the same values.
    fn clone(&self) -> (res: Self)
        ensures
            res@ == self@,
    {
        proof {
            use_type_invariant(self);
        }
        Dict { entries: self.copy_entries() }
    }
}

impl View for Dict {
    type V = Seq<(Seq<char>, Seq<char>)>;

    closed spec fn view(&self) -> Seq<(Seq<char>, Seq<char>)> {
        self.entries.deep_view()
    }
}

impl Dict {
    #[verifier::type_invariant]
    closed spec fn well_formed(self) -> bool {
        names_distinct(self.entries.deep_view())
    }

    fn copy_entries(&self) -> (res: Vec<(String, String)>)
        ensures
            res.deep_view() == self@,
    {
        let n = self.entries.len();
        let mut res: Vec<(String, String)> = Vec::new();
        let mut i: usize = 0;
        while i < n
            invariant
                n == self.entries.len(),
                i <= n,
                res.deep_view() == self.entries.deep_view().take(i as int),
            decreases n - i,
        {
            let ghost before = res.deep_view();
            let entry = &self.entries[i];
            res.push((entry.0.clone(), entry.1.clone()));
            assert(self.entries.deep_view()[i as int] == (entry.0@, entry.1@));
            assert(res.deep_view() =~= before.push((entry.0@, entry.1@)));
            assert(self.entries.deep_view().take(i + 1) =~= self.entries.deep_view().take(i as int).push(
                (entry.0@, entry.1@),
            ));
            i = i + 1;
        }
        assert(self.entries.deep_view().take(n as int) =~= self.entries.deep_view());
        res
    }

    /// No names.
    pub fn new() -> (res: Self)
        ensures
            res@ == Seq::<(Seq<char>, Seq<char>)>::empty(),
    {
        let res = Dict { entries: Vec::new() };
        assert(res@ =~= Seq::<(Seq<char>, Seq<char>)>::empty());
        res
    }

    /// How many names there are.
    pub fn len(&self) -> (res: usize)
        ensures
            res == self@.len(),
    {
        self.entries.len()
    }

    /// The names with their values, in order; no name comes twice.
    pub fn entries(&self) -> (res: &Vec<(String, String)>)
        ensures
            res.deep_view() == self@,
            names_distinct(self@),
    {
        proof {
            use_type_invariant(self);
        }
        &self.entries
    }

    fn find(&self, name: &String) -> (res: Option<usize>)
        ensures
            match res {
                Some(i) => i < self@.len() && self@[i as int].0 == name@,
                None => !has_name(self@, name@),
            },
    {
        let n = self.entries.len();
        let mut i: usize = 0;
        while i < n
            invariant
                n == self@.len(),
                self.entries.deep_view() == self@,
                i <= n,
                forall|j: int| 0 <= j < i ==> #[trigger] self@[j].0 != name@,
            decreases n - i,
        {
            assert(self@[i as int] == (self.entries[i as int].0@, self.entries[i as int].1@));
            if self.entries[i].0 == *name {
                return Some(i);
            }
            i = i + 1;
        }
        None
    }

    /// The value of the name `name`, where it is there.
    pub fn get(&self, name: &str) -> (res: Option<&String>)
        ensures
            match res {
                Some(v) => has_name(self@, name@) && self@[position_of(self@, name@)].1 == v@,
                None => !has_name(self@, name@),
            },
    {
        proof {
            use_type_invariant(self);
        }
        let key = String::from_str(name);
        match self.find(&key) {
            Some(i) => {
                assert(self@[i as int] == (self.entries[i as int].0@, self.entries[i as int].1@));
                Some(&self.entries[i].1)
            },
            None => None,
        }
    }

    /// Sets the value of `name` to `value`: in its place where the name is
    /// already there, whose old value comes back, and at the end otherwise.
    pub fn insert(&mut self, name: String, value: String) -> (res: Option<String>)
        ensures
            has_name(old(self)@, name@) ==> {
                let i = position_of(old(self)@, name@);
                &&& res matches Some(v) && v@ == old(self)@[i].1
                &&& final(self)@ == old(self)@.update(i, (name@, value@))
            },
            !has_name(old(self)@, name@) ==> res is None && final(self)@ == old(self)@.push((name@, value@)),
            final(self)@ == with_value(old(self)@, name@, value@),
    {
        proof {
            use_type_invariant(&*self);
        }
        let found = self.find(&name);
        let ghost before = self@;
        let mut entries: Vec<(String, String)> = Vec::new();
        std::mem::swap(&mut entries, &mut self.entries);
        assert(entries.deep_view() == before);
        match found {
            Some(i) => {
                assert(before[i as int] == (entries[i as int].0@, entries[i as int].1@));
                let previous = entries[i].1.clone();
                entries.set(i, (name, value));
                assert(entries.deep_view() =~= before.update(i as int, (name@, value@)));
                self.entries = entries;
                Some(previous)
            },
            None => {
                entries.push((name, value));
                assert(entries.deep_view() =~= before.push((name@, value@)));
                self.entries = entries;
                None
            },
        }
    }
}

/// An event of the API gateway trigger, as the cloud sends it.
#[derive(Debug, Clone)]
pub struct Event {
    /// `requestContext`
    pub context: RequestContext,
    /// `httpMethod`
    pub method: String,
    pub path: String,
    /// `pathParameters`
    pub path_parameters: PathParameters,
    /// `queryString`
    pub query_string: QueryString,
    /// `queryStringParameters`
    pub query_string_parameters: QueryStringParameters,
    pub headers: Dict,
    /// `headerParameters`
    pub header_parameters: HeaderParameters,
    pub body: String,
}

/// Everything of a request but its body: the method, the path as its URI, the
/// headers under their canonical names, and the gateway's additional data.
#[derive(Debug, Clone)]
pub struct RequestHead {
    pub method: String,
    pub uri: String,
    pub headers: Vec<(String, String)>,
    pub context: RequestContext,
    pub path_parameters: PathParameters,
    pub query_string: QueryString,
    pub query_string_parameters: QueryStringParameters,
    pub header_parameters: HeaderParameters,
}

/// A request made from an event, with a body of type `B`.
#[derive(Debug, Clone)]
pub struct ApiRequest<B> {
    pub head: RequestHead,
    pub body: B,
}

/// Why an event could not become a request.
#[derive(Debug)]
pub enum RequestParseError {
    /// the event is not the expected JSON
    DeserializeError(serde_json::Error),
    /// the method or the path cannot make a request
    AssembleError(http::Error),
    /// the header of this name has a name that the `http` crate refuses
    InvalidHeaderName(String),
    /// the header of this (canonical) name has a value that the `http` crate
    /// refuses
    InvalidHeaderValue(String),
    /// the body is not base64
    Base64DecodeError(base64::DecodeError),
}

/// What checking an event's headers in order gives.
pub enum HeaderCheck {
    /// all are accepted; the headers under their canonical names
    Accepted(Seq<(Seq<char>, Seq<char>)>),
    /// the first refused header has this name
    BadName(Seq<char>),
    /// the first refused header has an accepted name, this in canonical form,
    /// and a refused value
    BadValue(Seq<char>),
}

/// Checks the headers `hs` in order; the first refused one decides.
pub open spec fn check_headers(hs: Seq<(Seq<char>, Seq<char>)>) -> HeaderCheck
    decreases hs.len(),
{
    if hs.len() == 0 {
        HeaderCheck::Accepted(seq![])
    } else {
        match check_headers(hs.drop_last()) {
            HeaderCheck::Accepted(done) => {
                let name = hs.last().0;
                let value = hs.last().1;
                match header_name_canonical(name) {
                    None => HeaderCheck::BadName(name),
                    Some(canonical) => if header_value_accepted(value) {
                        HeaderCheck::Accepted(done.push((canonical, value)))
                    } else {
                        HeaderCheck::BadValue(canonical)
                    },
                }
            },
            fault => fault,
        }
    }
}

/// Once some first headers are refused, no header after them changes the
/// outcome.
proof fn lemma_check_headers_fault_persists(hs: Seq<(Seq<char>, Seq<char>)>, k: int)
    requires
        0 <= k <= hs.len(),
        !(check_headers(hs.take(k)) is Accepted),
    ensures
        check_headers(hs) == check_headers(hs.take(k)),
    decreases hs.len() - k,
{
    if k < hs.len() {
        let next = hs.take(k + 1);
        assert(next.drop_last() =~= hs.take(k));
        lemma_check_headers_fault_persists(hs, k + 1);
    } else {
        assert(hs.take(k) =~= hs);
    }
}

/// True when the `http` crate accepts the event's method and path.
pub open spec fn head_accepted(event: Event) -> bool {
    method_accepted(event.method@) && uri_accepted(event.path@)
}

/// `head` is the head of a request made from `event`, whose headers, checked,
/// are `headers`.
pub open spec fn head_of(head: RequestHead, event: Event, headers: Seq<(Seq<char>, Seq<char>)>) -> bool {
    &&& head.method@ == event.method@
    &&& head.uri@ == event.path@
    &&& head.headers.deep_view() == headers
    &&& head.context == event.context
    &&& head.path_parameters == event.path_parameters
    &&& head.query_string == event.query_string
    &&& head.query_string_parameters == event.query_string_parameters
    &&& head.header_parameters == event.header_parameters
}

/// A request made from an event keeps what the event holds: its method, its
/// path, as it is, as the URI, its whole context (the client's source IP, the
/// request id and the stage among it), its path parameters, its query string,
/// its query string parameters and its header parameters. Its headers are the
/// event's headers as checked.
pub proof fn request_head_keeps_event_data(
    head: RequestHead,
    event: Event,
    headers: Seq<(Seq<char>, Seq<char>)>,
)
    requires
        head_of(head, event, headers),
    ensures
        head.method@ == event.method@,
        head.uri@ == event.path@,
        head.context == event.context,
        head.context.source_ip@ == event.context.source_ip@,
        head.context.request_id@ == event.context.request_id@,
        head.context.stage@ == event.context.stage@,
        head.path_parameters == event.path_parameters,
        head.query_string == event.query_string,
        head.query_string_parameters == event.query_string_parameters,
        head.header_parameters == event.header_parameters,
        head.headers.deep_view() == headers,
{
}

impl Event {
    /// Breaks the event down into a request head, or the `http` crate's error
    /// for a method or path that cannot make a request, and the body. The
    /// headers are only checked where the method and path are accepted; the
    /// first refused header is an error.
    pub fn into_request_builder(self) -> (res: Result<(Result<RequestHead, http::Error>, String), RequestParseError>)
        ensures
            !head_accepted(self) ==> (res matches Ok((head, body)) && head is Err && body@ == self.body@),
            head_accepted(self) ==> match check_headers(self.headers@) {
                HeaderCheck::BadName(n) => res matches Err(RequestParseError::InvalidHeaderName(m)) && m@ == n,
                HeaderCheck::BadValue(n) => res matches Err(RequestParseError::InvalidHeaderValue(m)) && m@ == n,
                HeaderCheck::Accepted(hs) => res matches Ok((Ok(head), body)) && head_of(head, self, hs)
                    && body@ == self.body@,
            },
            res matches Ok((Ok(head), _)) ==> (
                head.method@ == self.method@ && head.uri@ == self.path@ && head.context == self.context
                    && head.path_parameters == self.path_parameters && head.query_string == self.query_string
                    && head.query_string_parameters == self.query_string_parameters
                    && head.header_parameters == self.header_parameters
            ),
    {
        let ghost event = self;
        let Event {
            context,
            method,
            path,
            path_parameters,
            query_string,
            query_string_parameters,
            headers,
            header_parameters,
            body,
        } = self;
        let checked = match check_method(method.as_str()) {
            Ok(()) => check_uri(path.as_str()),
            Err(e) => Err(e),
        };
        if let Err(e) = checked {
            return Ok((Err(e), body));
        }
        let mut canonical: Vec<(String, String)> = Vec::new();
        let entries = headers.entries();
        let n = entries.len();
        let mut i: usize = 0;
        assert(entries.deep_view().take(0) =~= Seq::<(Seq<char>, Seq<char>)>::empty());
        assert(canonical.deep_view() =~= Seq::<(Seq<char>, Seq<char>)>::empty());
        while i < n
            invariant
                n == entries.len(),
                entries.deep_view() == event.headers@,
                headers == event.headers,
                event == self,
                head_accepted(event),
                i <= n,
                check_headers(entries.deep_view().take(i as int)) == HeaderCheck::Accepted(canonical.deep_view()),
            decreases n - i,
        {
            let ghost prefix = entries.deep_view().take(i + 1);
            assert(prefix.drop_last() =~= entries.deep_view().take(i as int));
            assert(prefix.last() == entries.deep_view()[i as int]);
            let header = &entries[i];
            assert(entries.deep_view()[i as int] == (header.0@, header.1@));
            match canonical_header_name(header.0.as_str()) {
                None => {
                    proof {
                        lemma_check_headers_fault_persists(entries.deep_view(), i + 1);
                    }
                    return Err(RequestParseError::InvalidHeaderName(header.0.clone()));
                },
                Some(name) => {
                    if !header_value_is_valid(header.1.as_str()) {
                        proof {
                            lemma_check_headers_fault_persists(entries.deep_view(), i + 1);
                        }
                        return Err(RequestParseError::InvalidHeaderValue(name));
                    }
                    let ghost before = canonical.deep_view();
                    let ghost entry = (name@, header.1@);
                    canonical.push((name, header.1.clone()));
                    assert(canonical.deep_view() =~= before.push(entry));
                },
            }
            i = i + 1;
        }
        assert(entries.deep_view().take(n as int) =~= entries.deep_view());
        let head = RequestHead {
            method,
            uri: path,
            headers: canonical,
            context,
            path_parameters,
            query_string,
            query_string_parameters,
            header_parameters,
        };
        Ok((Ok(head), body))
    }

    /// Makes a request whose body is the event's body, as text.
    ///
    /// The first failure decides: a method or path that the `http` crate
    /// refuses, then the first refused header.
    pub fn into_text_request(self) -> (res: Result<ApiRequest<String>, RequestParseError>)
        ensures
            !head_accepted(self) ==> res matches Err(RequestParseError::AssembleError(_)),
            head_accepted(self) ==> match check_headers(self.headers@) {
                HeaderCheck::BadName(n) => res matches Err(RequestParseError::InvalidHeaderName(m)) && m@ == n,
                HeaderCheck::BadValue(n) => res matches Err(RequestParseError::InvalidHeaderValue(m)) && m@ == n,
                HeaderCheck::Accepted(hs) => res matches Ok(req) && head_of(req.head, self, hs) && req.body@
                    == self.body@,
            },
            res matches Ok(req) ==> (
                req.head.method@ == self.method@ && req.head.uri@ == self.path@ && req.head.context == self.context
                    && req.head.path_parameters == self.path_parameters && req.head.query_string == self.query_string
                    && req.head.query_string_parameters == self.query_string_parameters
                    && req.head.header_parameters == self.header_parameters
            ),
    {
        let (head, body) = self.into_request_builder()?;
        match head {
            Ok(head) => Ok(ApiRequest { head, body }),
            Err(e) => Err(RequestParseError::AssembleError(e)),
        }
    }

    /// Makes a request whose body is the bytes that the event's body encodes in
    /// base64.
    ///
    /// The first failure decides: a refused header (where method and path are
    /// accepted), then a body that is not base64, then a method or path that
    /// the `http` crate refuses.
    pub fn into_binary_request(self) -> (res: Result<ApiRequest<Vec<u8>>, RequestParseError>)
        requires
            encode_utf8(self.body@).len() + 3 <= usize::MAX,
        ensures
            head_accepted(self) ==> match check_headers(self.headers@) {
                HeaderCheck::BadName(n) => res matches Err(RequestParseError::InvalidHeaderName(m)) && m@ == n,
                HeaderCheck::BadValue(n) => res matches Err(RequestParseError::InvalidHeaderValue(m)) && m@ == n,
                HeaderCheck::Accepted(_) => true,
            },
            !head_accepted(self) || check_headers(self.headers@) is Accepted ==> {
                match base64_decoding(self.body@) {
                    None => res matches Err(RequestParseError::Base64DecodeError(_)),
                    Some(bytes) => if !head_accepted(self) {
                        res matches Err(RequestParseError::AssembleError(_))
                    } else {
                        res matches Ok(req) && head_of(
                            req.head,
                            self,
                            check_headers(self.headers@)->Accepted_0,
                        ) && req.body@ == bytes
                    },
                }
            },
            head_accepted(self) && check_headers(self.headers@) is Accepted ==> forall|b: Seq<u8>|
                #[trigger] base64_encoding(b) == self.body@ ==> (res matches Ok(req) && req.body@ == b),
            res matches Ok(req) ==> (
                req.head.method@ == self.method@ && req.head.uri@ == self.path@ && req.head.context == self.context
                    && req.head.path_parameters == self.path_parameters && req.head.query_string == self.query_string
                    && req.head.query_string_parameters == self.query_string_parameters
                    && req.head.header_parameters == self.header_parameters
            ),
    {
        let (head, body) = self.into_request_builder()?;
        let bytes = match base64_decode(body.as_str()) {
            Ok(bytes) => bytes,
            Err(e) => {
                return Err(RequestParseError::Base64DecodeError(e));
            },
        };
        match head {
            Ok(head) => Ok(ApiRequest { head, body: bytes }),
            Err(e) => Err(RequestParseError::AssembleError(e)),
        }
    }
}

/// A response to send back through the gateway: its status, its headers as
/// name and raw value, each value in an entry of its own in the order the
/// response holds them, and its body of type `B`.
#[derive(Debug, Clone)]
pub struct ApiResponse<B> {
    pub status: u16,
    pub headers: Vec<(String, Vec<u8>)>,
    pub body: B,
}

/// The record of a response that the gateway expects back.
#[derive(Debug, Clone)]
pub struct WebResponse {
    /// `isBase64Encoded`: whether `body` is base64
    pub base64: bool,
    /// `statusCode`
    pub status: u16,
    /// each header name once, with all its values
    pub headers: Vec<(String, Vec<String>)>,
    pub body: String,
}

/// Why a response could not become the gateway's record.
#[derive(Debug)]
pub enum ResponseEncodeError {
    /// the record could not be written as JSON
    SerializeError(serde_json::Error),
    /// the header of this name has a value that is not visible ASCII
    InvalidHeaderValue(String),
}

/// True when `b` is a visible ASCII character, a space or a tab: what
/// `http::HeaderValue::to_str` accepts.
pub open spec fn visible_ascii(b: u8) -> bool {
    b >= 32 && b < 127 || b == 9
}

/// True when every byte of `value` is visible ASCII.
pub open spec fn value_readable(value: Seq<u8>) -> bool {
    forall|i: int| 0 <= i < value.len() ==> visible_ascii(#[trigger] value[i])
}

/// The text of an ASCII value: each byte as the character of that code.
pub open spec fn ascii_text(value: Seq<u8>) -> Seq<char> {
    Seq::new(value.len(), |i: int| value[i] as char)
}

/// The name of the first header in `hs` whose value is not visible ASCII, if
/// there is one.
pub open spec fn first_unreadable(hs: Seq<(Seq<char>, Seq<u8>)>) -> Option<Seq<char>>
    decreases hs.len(),
{
    if hs.len() == 0 {
        None
    } else {
        match first_unreadable(hs.drop_last()) {
            Some(name) => Some(name),
            None => if value_readable(hs.last().1) {
                None
            } else {
                Some(hs.last().0)
            },
        }
    }
}

/// The names of the headers `hs`, each once, in the order they first appear.
pub open spec fn distinct_names(hs: Seq<(Seq<char>, Seq<u8>)>) -> Seq<Seq<char>>
    decreases hs.len(),
{
    if hs.len() == 0 {
        seq![]
    } else {
        let names = distinct_names(hs.drop_last());
        if names.contains(hs.last().0) {
            names
        } else {
            names.push(hs.last().0)
        }
    }
}

/// The texts of the values of the headers named `name` in `hs`, in order.
pub open spec fn values_of(hs: Seq<(Seq<char>, Seq<u8>)>, name: Seq<char>) -> Seq<Seq<char>>
    decreases hs.len(),
{
    if hs.len() == 0 {
        seq![]
    } else {
        let values = values_of(hs.drop_last(), name);
        if hs.last().0 == name {
            values.push(ascii_text(hs.last().1))
        } else {
            values
        }
    }
}

/// The headers `hs` grouped by name: each name once, in the order the names
/// first appear, with the texts of all its values in order.
pub open spec fn grouped_headers(hs: Seq<(Seq<char>, Seq<u8>)>) -> Seq<(Seq<char>, Seq<Seq<char>>)> {
    let names = distinct_names(hs);
    Seq::new(names.len(), |k: int| (names[k], values_of(hs, names[k])))
}

/// A visible ASCII value is valid UTF-8 and encodes its ASCII text.
proof fn lemma_readable_value_is_utf8(value: Seq<u8>)
    requires
        value_readable(value),
    ensures
        valid_utf8(value),
        decode_utf8(value) == ascii_text(value),
{
    let chars = ascii_text(value);
    assert forall|i: int| 0 <= i < chars.len() implies '\0' <= #[trigger] chars[i] <= '\u{7f}' by {
        assert(visible_ascii(value[i]));
    }
    assert(is_ascii_chars(chars));
    is_ascii_chars_encode_utf8(chars);
    assert forall|i: int| 0 <= i < value.len() implies #[trigger] encode_utf8(chars)[i] == value[i] by {
        assert(chars[i] as u8 == encode_utf8(chars)[i]);
        assert(visible_ascii(value[i]));
        assert((value[i] as char) as u8 == value[i]);
    }
    assert(encode_utf8(chars) =~= value);
    encode_utf8_valid_utf8(chars);
    encode_utf8_decode_utf8(chars);
}

/// Once a header with an unreadable value has come, no header after it changes
/// which one is reported.
proof fn lemma_first_unreadable_persists(hs: Seq<(Seq<char>, Seq<u8>)>, k: int)
    requires
        0 <= k <= hs.len(),
        first_unreadable(hs.take(k)) is Some,
    ensures
        first_unreadable(hs) == first_unreadable(hs.take(k)),
    decreases hs.len() - k,
{
    if k < hs.len() {
        assert(hs.take(k + 1).drop_last() =~= hs.take(k));
        lemma_first_unreadable_persists(hs, k + 1);
    } else {
        assert(hs.take(k) =~= hs);
    }
}

fn is_readable(value: &Vec<u8>) -> (res: bool)
    ensures
        res == value_readable(value@),
        res <==> forall|i: int| 0 <= i < value.len() ==> (0x20 <= #[trigger] value@[i] <= 0x7e || value@[i] == 0x09),
{
    proof {
        value_readable_is_printable_or_tab(value@);
    }
    let n = value.len();
    let mut i: usize = 0;
    while i < n
        invariant
            n == value@.len(),
            i <= n,
            forall|j: int| 0 <= j < i ==> visible_ascii(#[trigger] value@[j]),
        decreases n - i,
    {
        let b = value[i];
        if !(b >= 32 && b < 127 || b == 9) {
            return false;
        }
        i = i + 1;
    }
    true
}

fn ascii_to_string(value: &Vec<u8>) -> (res: String)
    requires
        value_readable(value@),
    ensures
        res@ == ascii_text(value@),
{
    proof {
        lemma_readable_value_is_utf8(value@);
    }
    match string_from_utf8(value.clone()) {
        Some(text) => text,
        None => {
            assert(false);
            String::new()
        },
    }
}

fn contains_name(names: &Vec<String>, name: &String) -> (res: bool)
    ensures
        res == names.deep_view().contains(name@),
{
    let n = names.len();
    let mut i: usize = 0;
    while i < n
        invariant
            n == names.len(),
            i <= n,
            forall|j: int| 0 <= j < i ==> names.deep_view()[j] != name@,
        decreases n - i,
    {
        if names[i] == *name {
            assert(names.deep_view()[i as int] == name@);
            return true;
        }
        i = i + 1;
    }
    false
}

/// Breaks a response down into its status, its headers grouped by name, and
/// its body. Each header value must be visible ASCII; the first header (in
/// order) with a value that is not gives the error.
pub fn break_response<B>(response: ApiResponse<B>) -> (res: Result<(u16, Vec<(String, Vec<String>)>, B), ResponseEncodeError>)
    ensures
        match first_unreadable(response.headers.deep_view()) {
            Some(name) => res matches Err(ResponseEncodeError::InvalidHeaderValue(m)) && m@ == name,
            None => res matches Ok((status, headers, body)) && status == response.status
                && headers.deep_view() == grouped_headers(response.headers.deep_view()) && body
                == response.body,
        },
        res is Ok <==> forall|i: int, j: int|
            0 <= i < response.headers.len() && 0 <= j < response.headers.deep_view()[i].1.len() ==> (0x20
                <= #[trigger] response.headers.deep_view()[i].1[j] <= 0x7e || response.headers.deep_view()[i].1[j]
                == 0x09),
{
    proof {
        response_values_are_accepted_when_printable(response.headers.deep_view());
    }
    let ApiResponse { status, headers, body } = response;
    let ghost hs = headers.deep_view();
    let n = headers.len();
    let mut texts: Vec<String> = Vec::new();
    let mut i: usize = 0;
    assert(hs.take(0) =~= Seq::<(Seq<char>, Seq<u8>)>::empty());
    while i < n
        invariant
            n == headers.len(),
            hs == headers.deep_view(),
            hs == response.headers.deep_view(),
            i <= n,
            first_unreadable(hs.take(i as int)) is None,
            texts.len() == i,
            forall|j: int| 0 <= j < i ==> #[trigger] texts@[j]@ == ascii_text(hs[j].1),
        decreases n - i,
    {
        let entry = &headers[i];
        assert(hs[i as int] == (entry.0@, entry.1@));
        assert(hs.take(i + 1).drop_last() =~= hs.take(i as int));
        if !is_readable(&entry.1) {
            proof {
                lemma_first_unreadable_persists(hs, i + 1);
            }
            return Err(ResponseEncodeError::InvalidHeaderValue(entry.0.clone()));
        }
        let text = ascii_to_string(&entry.1);
        texts.push(text);
        i = i + 1;
    }
    assert(hs.take(n as int) =~= hs);
    let mut names: Vec<String> = Vec::new();
    let mut i: usize = 0;
    assert(names.deep_view() =~= distinct_names(hs.take(0)));
    while i < n
        invariant
            n == headers.len(),
            hs == headers.deep_view(),
            i <= n,
            names.deep_view() == distinct_names(hs.take(i as int)),
        decreases n - i,
    {
        let entry = &headers[i];
        assert(hs[i as int] == (entry.0@, entry.1@));
        assert(hs.take(i + 1).drop_last() =~= hs.take(i as int));
        if !contains_name(&names, &entry.0) {
            let ghost before = names.deep_view();
            names.push(entry.0.clone());
            assert(names.deep_view() =~= before.push(entry.0@));
        }
        i = i + 1;
    }
    assert(hs.take(n as int) =~= hs);
    let ghost all_names = distinct_names(hs);
    let mut groups: Vec<(String, Vec<String>)> = Vec::new();
    let m = names.len();
    let mut k: usize = 0;
    while k < m
        invariant
            n == headers.len(),
            hs == headers.deep_view(),
            m == names.len(),
            names.deep_view() == all_names,
            texts.len() == n,
            forall|j: int| 0 <= j < n ==> #[trigger] texts@[j]@ == ascii_text(hs[j].1),
            k <= m,
            groups.len() == k,
            forall|g: int| 0 <= g < k ==> #[trigger] groups.deep_view()[g] == (all_names[g], values_of(hs, all_names[g])),
        decreases m - k,
    {
        let name = &names[k];
        assert(all_names[k as int] == name@);
        let mut values: Vec<String> = Vec::new();
        let mut j: usize = 0;
        assert(values.deep_view() =~= values_of(hs.take(0), name@));
        while j < n
            invariant
                n == headers.len(),
                hs == headers.deep_view(),
                texts.len() == n,
                forall|j: int| 0 <= j < n ==> #[trigger] texts@[j]@ == ascii_text(hs[j].1),
                j <= n,
                values.deep_view() == values_of(hs.take(j as int), name@),
            decreases n - j,
        {
            let entry = &headers[j];
            assert(hs[j as int] == (entry.0@, entry.1@));
            assert(hs.take(j + 1).drop_last() =~= hs.take(j as int));
            if entry.0 == *name {
                let ghost before = values.deep_view();
                values.push(texts[j].clone());
                assert(values.deep_view() =~= before.push(ascii_text(hs[j as int].1)));
            }
            j = j + 1;
        }
        assert(hs.take(n as int) =~= hs);
        let ghost before = groups.deep_view();
        groups.push((name.clone(), values));
        assert(groups.deep_view() =~= before.push((all_names[k as int], values_of(hs, all_names[k as int]))));
        k = k + 1;
    }
    assert(groups.deep_view() =~= grouped_headers(hs));
    Ok((status, groups, body))
}

impl WebResponse {
    /// The record of a response whose body is text: the body goes out as it
    /// is, and `base64` is false.
    pub fn try_from_text_response(response: ApiResponse<String>) -> (res: Result<WebResponse, ResponseEncodeError>)
        ensures
            match first_unreadable(response.headers.deep_view()) {
                Some(name) => res matches Err(ResponseEncodeError::InvalidHeaderValue(m)) && m@ == name,
                None => res matches Ok(web) && !web.base64 && web.status == response.status
                    && web.headers.deep_view() == grouped_headers(response.headers.deep_view())
                    && web.body@ == response.body@,
            },
    {
        let (status, headers, body) = break_response(response)?;
        Ok(WebResponse { base64: false, status, headers, body })
    }

    /// The record of a response whose body is raw bytes: the body goes out in
    /// base64, and `base64` is true.
    pub fn try_from_binary_response(response: ApiResponse<Vec<u8>>) -> (res: Result<WebResponse, ResponseEncodeError>)
        requires
            base64_encoded_len(response.body@.len() as int) <= usize::MAX,
        ensures
            match first_unreadable(response.headers.deep_view()) {
                Some(name) => res matches Err(ResponseEncodeError::InvalidHeaderValue(m)) && m@ == name,
                None => res matches Ok(web) && web.base64 && web.status == response.status
                    && web.headers.deep_view() == grouped_headers(response.headers.deep_view())
                    && web.body@ == base64_encoding(response.body@),
            },
    {
        let (status, headers, body) = break_response(response)?;
        let body = base64_encode(body.as_slice());
        Ok(WebResponse { base64: true, status, headers, body })
    }
}

/// A request keeps every header of its event, in order: the headers of an event
/// are accepted exactly when each name and each value is, and then the request
/// holds, at each position, the canonical form of the event's name with the
/// event's value.
pub proof fn request_keeps_each_header(hs: Seq<(Seq<char>, Seq<char>)>)
    ensures
        check_headers(hs) is Accepted <==> forall|i: int|
            0 <= i < hs.len() ==> #[trigger] header_name_canonical(hs[i].0) is Some
                && header_value_accepted(hs[i].1),
        check_headers(hs) matches HeaderCheck::Accepted(out) ==> {
            &&& out.len() == hs.len()
            &&& forall|i: int|
                0 <= i < hs.len() ==> #[trigger] out[i] == (header_name_canonical(hs[i].0)->Some_0, hs[i].1)
        },
    decreases hs.len(),
{
    if hs.len() > 0 {
        let rest = hs.drop_last();
        request_keeps_each_header(rest);
        if check_headers(hs) is Accepted {
            assert forall|i: int|
                0 <= i < hs.len() implies #[trigger] header_name_canonical(hs[i].0) is Some
                && header_value_accepted(hs[i].1) by {
                if i < hs.len() - 1 {
                    assert(hs[i] == rest[i]);
                    assert(header_name_canonical(rest[i].0) is Some);
                }
            }
        }
        if forall|i: int|
            0 <= i < hs.len() ==> #[trigger] header_name_canonical(hs[i].0) is Some
                && header_value_accepted(hs[i].1) {
            assert forall|i: int|
                0 <= i < rest.len() implies #[trigger] header_name_canonical(rest[i].0) is Some
                && header_value_accepted(rest[i].1) by {
                assert(rest[i] == hs[i]);
                assert(header_name_canonical(hs[i].0) is Some);
            }
            assert(header_name_canonical(hs[hs.len() - 1].0) is Some);
        }
        if check_headers(hs) is Accepted {
            let out = check_headers(hs)->Accepted_0;
            let prev = check_headers(rest)->Accepted_0;
            assert forall|i: int|
                0 <= i < hs.len() implies #[trigger] out[i] == (
                header_name_canonical(hs[i].0)->Some_0,
                hs[i].1,
            ) by {
                if i < hs.len() - 1 {
                    assert(out[i] == prev[i]);
                    assert(hs[i] == rest[i]);
                    assert(prev[i] == (header_name_canonical(rest[i].0)->Some_0, rest[i].1));
                }
            }
        }
    }
}

/// The header names of a request are in lower case: no name the `http` crate
/// accepts keeps an upper-case letter, so neither the request's headers nor a
/// refused value's reported name hold one.
pub proof fn request_header_names_are_lower_case(hs: Seq<(Seq<char>, Seq<char>)>)
    ensures
        check_headers(hs) matches HeaderCheck::Accepted(out) ==> forall|i: int, j: int|
            0 <= i < out.len() && 0 <= j < out[i].0.len() ==> !('A' <= #[trigger] out[i].0[j] <= 'Z'),
        check_headers(hs) matches HeaderCheck::BadValue(name) ==> forall|j: int|
            0 <= j < name.len() ==> !('A' <= #[trigger] name[j] <= 'Z'),
    decreases hs.len(),
{
    if hs.len() > 0 {
        let rest = hs.drop_last();
        request_header_names_are_lower_case(rest);
        let name = hs.last().0;
        if let Some(c) = header_name_canonical(name) {
            let bytes = encode_utf8(name);
            assert forall|j: int| 0 <= j < c.len() implies !('A' <= #[trigger] c[j] <= 'Z') by {
                let b = ascii_lower(bytes[j]);
                assert(c[j] == b as char);
                assert(!(65 <= b <= 90));
            }
            if check_headers(hs) is Accepted {
                let out = check_headers(hs)->Accepted_0;
                let prev = check_headers(rest)->Accepted_0;
                assert(out == prev.push((c, hs.last().1)));
                assert forall|i: int, j: int| 0 <= i < out.len() && 0 <= j < out[i].0.len() implies !('A'
                    <= #[trigger] out[i].0[j] <= 'Z') by {
                    if i < prev.len() {
                        assert(out[i] == prev[i]);
                        assert(!('A' <= prev[i].0[j] <= 'Z'));
                    } else {
                        assert(out[i].0 == c);
                    }
                }
            }
        }
    }
}

/// No header name is more than once in a response's grouped headers.
pub proof fn grouped_names_are_distinct(hs: Seq<(Seq<char>, Seq<u8>)>)
    ensures
        forall|i: int, j: int|
            0 <= i < j < grouped_headers(hs).len() ==> #[trigger] grouped_headers(hs)[i].0
                != #[trigger] grouped_headers(hs)[j].0,
{
    lemma_distinct_names_unique(hs);
}

proof fn lemma_distinct_names_unique(hs: Seq<(Seq<char>, Seq<u8>)>)
    ensures
        distinct_names(hs).no_duplicates(),
        forall|n: Seq<char>| #[trigger] distinct_names(hs).contains(n) <==> exists|i: int|
            0 <= i < hs.len() && #[trigger] hs[i].0 == n,
    decreases hs.len(),
{
    if hs.len() > 0 {
        let rest = hs.drop_last();
        lemma_distinct_names_unique(rest);
        let names = distinct_names(rest);
        assert forall|n: Seq<char>| #[trigger] distinct_names(hs).contains(n) implies exists|i: int|
            0 <= i < hs.len() && #[trigger] hs[i].0 == n by {
            if names.contains(n) {
                let i = choose|i: int| 0 <= i < rest.len() && #[trigger] rest[i].0 == n;
                assert(hs[i] == rest[i]);
            } else {
                let d = distinct_names(hs);
                let j = choose|j: int| 0 <= j < d.len() && d[j] == n;
                if j < names.len() {
                    assert(d[j] == names[j]);
                    assert(names.contains(n));
                }
                assert(hs[hs.len() - 1].0 == n);
            }
        }
        assert forall|n: Seq<char>| (exists|i: int| 0 <= i < hs.len() && #[trigger] hs[i].0 == n)
            implies #[trigger] distinct_names(hs).contains(n) by {
            let i = choose|i: int| 0 <= i < hs.len() && #[trigger] hs[i].0 == n;
            if i < hs.len() - 1 {
                assert(rest[i] == hs[i]);
                assert(names.contains(n));
                let j = choose|j: int| 0 <= j < names.len() && names[j] == n;
                assert(distinct_names(hs)[j] == n);
            } else {
                if names.contains(n) {
                    let j = choose|j: int| 0 <= j < names.len() && names[j] == n;
                    assert(distinct_names(hs)[j] == n);
                } else {
                    assert(distinct_names(hs)[names.len() as int] == n);
                }
            }
        }
        if !names.contains(hs.last().0) {
            let d = distinct_names(hs);
            assert forall|a: int, b: int| 0 <= a < b < d.len() implies d[a] != d[b] by {
                if b == names.len() {
                    assert(d[a] == names[a]);
                }
            }
        }
    }
}

/// Every header of a response is kept: its name has a group, and the text of
/// its value is among that group's values.
pub proof fn every_header_is_kept(hs: Seq<(Seq<char>, Seq<u8>)>, i: int)
    requires
        0 <= i < hs.len(),
    ensures
        exists|k: int|
            0 <= k < grouped_headers(hs).len() && (#[trigger] grouped_headers(hs)[k]).0 == hs[i].0
                && grouped_headers(hs)[k].1.contains(ascii_text(hs[i].1)),
{
    lemma_distinct_names_unique(hs);
    let names = distinct_names(hs);
    assert(names.contains(hs[i].0));
    let k = choose|k: int| 0 <= k < names.len() && names[k] == hs[i].0;
    lemma_values_of_contains(hs, i);
    assert(grouped_headers(hs)[k] == (names[k], values_of(hs, names[k])));
}

proof fn lemma_values_of_contains(hs: Seq<(Seq<char>, Seq<u8>)>, i: int)
    requires
        0 <= i < hs.len(),
    ensures
        values_of(hs, hs[i].0).contains(ascii_text(hs[i].1)),
    decreases hs.len(),
{
    let rest = hs.drop_last();
    if i < hs.len() - 1 {
        assert(rest[i] == hs[i]);
        lemma_values_of_contains(rest, i);
        let v = values_of(rest, hs[i].0);
        let k = choose|k: int| 0 <= k < v.len() && v[k] == ascii_text(hs[i].1);
        if hs.last().0 == hs[i].0 {
            assert(values_of(hs, hs[i].0)[k] == v[k]);
        } else {
            assert(values_of(hs, hs[i].0) == v);
        }
    } else {
        let v = values_of(hs, hs[i].0);
        assert(v[v.len() - 1] == ascii_text(hs[i].1));
    }
}

/// A header value of a response is accepted exactly when each of its bytes is a
/// visible ASCII character (0x21 to 0x7e), a space (0x20) or a tab (0x09). Such
/// a value is valid UTF-8, and its text has one character per byte, each of that
/// byte's code.
pub proof fn value_readable_is_printable_or_tab(value: Seq<u8>)
    ensures
        value_readable(value) <==> forall|i: int|
            0 <= i < value.len() ==> (0x20 <= #[trigger] value[i] <= 0x7e || value[i] == 0x09),
        value_readable(value) ==> {
            &&& valid_utf8(value)
            &&& decode_utf8(value) == ascii_text(value)
            &&& ascii_text(value).len() == value.len()
            &&& forall|i: int| 0 <= i < value.len() ==> (#[trigger] ascii_text(value)[i]) as u32 == value[i] as u32
        },
{
    if value_readable(value) {
        lemma_readable_value_is_utf8(value);
    }
}

/// Which header of a response, if any, holds a value that is refused: none when
/// every value is accepted, else the first one, in order, whose value is not.
proof fn lemma_first_unreadable_is_first(hs: Seq<(Seq<char>, Seq<u8>)>)
    ensures
        first_unreadable(hs) is None <==> forall|i: int| 0 <= i < hs.len() ==> value_readable(#[trigger] hs[i].1),
        first_unreadable(hs) matches Some(name) ==> exists|i: int|
            #![trigger hs[i]]
            0 <= i < hs.len() && hs[i].0 == name && !value_readable(hs[i].1) && forall|k: int|
                0 <= k < i ==> value_readable(#[trigger] hs[k].1),
    decreases hs.len(),
{
    if hs.len() > 0 {
        let rest = hs.drop_last();
        lemma_first_unreadable_is_first(rest);
        assert forall|i: int| 0 <= i < rest.len() implies #[trigger] rest[i] == hs[i] by {}
        if first_unreadable(rest) is None {
            if first_unreadable(hs) is None {
                assert forall|i: int| 0 <= i < hs.len() implies value_readable(#[trigger] hs[i].1) by {
                    if i < rest.len() {
                        assert(rest[i] == hs[i]);
                    }
                }
            } else {
                let i = hs.len() - 1;
                assert(hs[i] == hs.last());
                assert forall|k: int| 0 <= k < i implies value_readable(#[trigger] hs[k].1) by {
                    assert(rest[k] == hs[k]);
                }
            }
        } else {
            let name = first_unreadable(rest)->Some_0;
            let i = choose|i: int|
                #![trigger rest[i]]
                0 <= i < rest.len() && rest[i].0 == name && !value_readable(rest[i].1) && forall|k: int|
                    0 <= k < i ==> value_readable(#[trigger] rest[k].1);
            assert(rest[i] == hs[i]);
            assert forall|k: int| 0 <= k < i implies value_readable(#[trigger] hs[k].1) by {
                assert(rest[k] == hs[k]);
            }
            assert(!value_readable(hs[i].1));
        }
    }
}

/// A response's headers are all accepted exactly when every byte of every value
/// is a visible ASCII character, a space or a tab. Otherwise the header
/// reported is the first one, in order, whose value holds some other byte.
pub proof fn response_values_are_accepted_when_printable(hs: Seq<(Seq<char>, Seq<u8>)>)
    ensures
        first_unreadable(hs) is None <==> forall|i: int, j: int|
            0 <= i < hs.len() && 0 <= j < hs[i].1.len() ==> (0x20 <= #[trigger] hs[i].1[j] <= 0x7e || hs[i].1[j]
                == 0x09),
        first_unreadable(hs) matches Some(name) ==> exists|i: int|
            #![trigger hs[i]]
            0 <= i < hs.len() && hs[i].0 == name && (exists|j: int|
                0 <= j < hs[i].1.len() && !(0x20 <= #[trigger] hs[i].1[j] <= 0x7e || hs[i].1[j] == 0x09))
                && forall|k: int, j: int|
                0 <= k < i && 0 <= j < hs[k].1.len() ==> (0x20 <= #[trigger] hs[k].1[j] <= 0x7e || hs[k].1[j]
                    == 0x09),
{
    lemma_first_unreadable_is_first(hs);
    assert forall|i: int| 0 <= i < hs.len() implies value_readable(#[trigger] hs[i].1) <==> forall|j: int|
        0 <= j < hs[i].1.len() ==> (0x20 <= #[trigger] hs[i].1[j] <= 0x7e || hs[i].1[j] == 0x09) by {
        value_readable_is_printable_or_tab(hs[i].1);
    }
    if first_unreadable(hs) is Some {
        let name = first_unreadable(hs)->Some_0;
        let i = choose|i: int|
            #![trigger hs[i]]
            0 <= i < hs.len() && hs[i].0 == name && !value_readable(hs[i].1) && forall|k: int|
                0 <= k < i ==> value_readable(#[trigger] hs[k].1);
        assert(!value_readable(hs[i].1));
        assert forall|k: int, j: int| 0 <= k < i && 0 <= j < hs[k].1.len() implies (0x20 <= #[trigger] hs[k].1[j]
            <= 0x7e || hs[k].1[j] == 0x09) by {
            assert(value_readable(hs[k].1));
        }
    }
}

/// The values grouped under a name are the texts of the values of exactly the
/// headers of that name, in their order: none dropped, none repeated, none
/// taken from another name.
pub proof fn grouped_values_are_those_of_the_name(hs: Seq<(Seq<char>, Seq<u8>)>, name: Seq<char>)
    ensures
        values_of(hs, name) == hs.filter(|h: (Seq<char>, Seq<u8>)| h.0 == name).map_values(
            |h: (Seq<char>, Seq<u8>)| ascii_text(h.1),
        ),
    decreases hs.len(),
{
    reveal(Seq::filter);
    if hs.len() > 0 {
        grouped_values_are_those_of_the_name(hs.drop_last(), name);
        let pred = |h: (Seq<char>, Seq<u8>)| h.0 == name;
        let text = |h: (Seq<char>, Seq<u8>)| ascii_text(h.1);
        let before = hs.drop_last().filter(pred);
        if pred(hs.last()) {
            assert(hs.filter(pred) == before.push(hs.last()));
            assert(before.push(hs.last()).map_values(text) =~= before.map_values(text).push(text(hs.last())));
        } else {
            assert(hs.filter(pred) == before);
        }
    } else {
        assert(hs.filter(|h: (Seq<char>, Seq<u8>)| h.0 == name) =~= hs);
    }
}

/// True when a header named `name` stands among the first `end` headers of `hs`.
pub open spec fn appears_before(hs: Seq<(Seq<char>, Seq<u8>)>, name: Seq<char>, end: int) -> bool {
    exists|i: int| 0 <= i < end && #[trigger] hs[i].0 == name
}

/// A name comes before another among the distinct names of `hs` only where it
/// appears in `hs` before every appearance of the other.
proof fn lemma_distinct_names_in_first_order(hs: Seq<(Seq<char>, Seq<u8>)>)
    ensures
        forall|k1: int, k2: int, i2: int|
            #![trigger distinct_names(hs)[k1], distinct_names(hs)[k2], hs[i2]]
            0 <= k1 < k2 < distinct_names(hs).len() && 0 <= i2 < hs.len() && hs[i2].0 == distinct_names(hs)[k2]
                ==> appears_before(hs, distinct_names(hs)[k1], i2),
    decreases hs.len(),
{
    if hs.len() > 0 {
        let rest = hs.drop_last();
        lemma_distinct_names_in_first_order(rest);
        lemma_distinct_names_unique(rest);
        let names = distinct_names(rest);
        let all = distinct_names(hs);
        assert forall|k1: int, k2: int, i2: int|
            #![trigger all[k1], all[k2], hs[i2]]
            0 <= k1 < k2 < all.len() && 0 <= i2 < hs.len() && hs[i2].0 == all[k2] implies appears_before(
            hs,
            all[k1],
            i2,
        ) by {
            assert(k1 < names.len());
            assert(all[k1] == names[k1]);
            if i2 < hs.len() - 1 {
                assert(rest[i2] == hs[i2]);
                if k2 < names.len() {
                    assert(all[k2] == names[k2]);
                    assert(appears_before(rest, names[k1], i2));
                    let i1 = choose|i1: int| 0 <= i1 < i2 && #[trigger] rest[i1].0 == names[k1];
                    assert(rest[i1] == hs[i1]);
                } else {
                    assert(names.contains(rest[i2].0));
                }
            } else {
                assert(names.contains(names[k1]));
                let i1 = choose|i1: int| 0 <= i1 < rest.len() && #[trigger] rest[i1].0 == names[k1];
                assert(rest[i1] == hs[i1]);
            }
        }
    }
}

/// The names of a response's grouped headers are the names of its headers,
/// none made up, in the order in which they first appear: a name comes before
/// another only where it appears before every appearance of the other.
pub proof fn grouped_names_follow_first_appearance(hs: Seq<(Seq<char>, Seq<u8>)>)
    ensures
        forall|k: int|
            0 <= k < grouped_headers(hs).len() ==> appears_before(hs, #[trigger] grouped_headers(hs)[k].0, hs.len() as int),
        forall|k1: int, k2: int, i2: int|
            #![trigger grouped_headers(hs)[k1], grouped_headers(hs)[k2], hs[i2]]
            0 <= k1 < k2 < grouped_headers(hs).len() && 0 <= i2 < hs.len() && hs[i2].0 == grouped_headers(
                hs,
            )[k2].0 ==> appears_before(hs, grouped_headers(hs)[k1].0, i2),
{
    lemma_distinct_names_unique(hs);
    lemma_distinct_names_in_first_order(hs);
    let names = distinct_names(hs);
    let g = grouped_headers(hs);
    assert forall|k: int| 0 <= k < g.len() implies appears_before(hs, #[trigger] g[k].0, hs.len() as int) by {
        assert(g[k].0 == names[k]);
        assert(names.contains(names[k]));
    }
    assert forall|k1: int, k2: int, i2: int|
        #![trigger g[k1], g[k2], hs[i2]]
        0 <= k1 < k2 < g.len() && 0 <= i2 < hs.len() && hs[i2].0 == g[k2].0 implies appears_before(
        hs,
        g[k1].0,
        i2,
    ) by {
        assert(g[k1].0 == names[k1]);
        assert(g[k2].0 == names[k2]);
    }
}

/// True when each of the first `end` headers of `hs` has a name and a value
/// that the `http` crate accepts.
pub open spec fn headers_accepted_before(hs: Seq<(Seq<char>, Seq<char>)>, end: int) -> bool {
    forall|k: int|
        0 <= k < end ==> #[trigger] header_name_canonical(hs[k].0) is Some && header_value_accepted(hs[k].1)
}

/// True when the header at `i` of `hs`, named `name`, has a name that the
/// `http` crate refuses, and every header before it is accepted.
pub open spec fn name_refused_at(hs: Seq<(Seq<char>, Seq<char>)>, i: int, name: Seq<char>) -> bool {
    &&& 0 <= i < hs.len()
    &&& hs[i].0 == name
    &&& header_name_canonical(hs[i].0) is None
    &&& headers_accepted_before(hs, i)
}

/// True when the header at `i` of `hs`, whose name is accepted as `name`, has
/// a value that the `http` crate refuses, and every header before it is
/// accepted.
pub open spec fn value_refused_at(hs: Seq<(Seq<char>, Seq<char>)>, i: int, name: Seq<char>) -> bool {
    &&& 0 <= i < hs.len()
    &&& header_name_canonical(hs[i].0) == Some(name)
    &&& !header_value_accepted(hs[i].1)
    &&& headers_accepted_before(hs, i)
}

/// The first refused header of an event, in order, decides the error: it is
/// reported by its own name where its name is refused, and by its canonical
/// name where only its value is; every header before it is accepted.
pub proof fn first_refused_header_decides(hs: Seq<(Seq<char>, Seq<char>)>)
    ensures
        check_headers(hs) matches HeaderCheck::BadName(n) ==> exists|i: int| #[trigger] name_refused_at(hs, i, n),
        check_headers(hs) matches HeaderCheck::BadValue(n) ==> exists|i: int| #[trigger] value_refused_at(hs, i, n),
    decreases hs.len(),
{
    if hs.len() > 0 {
        let rest = hs.drop_last();
        let last = hs.len() - 1;
        assert(hs[last] == hs.last());
        first_refused_header_decides(rest);
        request_keeps_each_header(rest);
        assert forall|k: int| 0 <= k < rest.len() implies #[trigger] rest[k] == hs[k] by {}
        if check_headers(rest) is Accepted {
            assert forall|k: int| 0 <= k < last implies #[trigger] header_name_canonical(hs[k].0) is Some
                && header_value_accepted(hs[k].1) by {
                assert(rest[k] == hs[k]);
                assert(header_name_canonical(rest[k].0) is Some);
            }
            assert(headers_accepted_before(hs, last));
            if check_headers(hs) is BadName {
                assert(name_refused_at(hs, last, check_headers(hs)->BadName_0));
            }
            if check_headers(hs) is BadValue {
                assert(value_refused_at(hs, last, check_headers(hs)->BadValue_0));
            }
        } else {
            assert(check_headers(hs) == check_headers(rest));
            if check_headers(hs) is BadName {
                let n = check_headers(hs)->BadName_0;
                let i = choose|i: int| #[trigger] name_refused_at(rest, i, n);
                assert(rest[i] == hs[i]);
                assert forall|k: int| 0 <= k < i implies #[trigger] header_name_canonical(hs[k].0) is Some
                    && header_value_accepted(hs[k].1) by {
                    assert(rest[k] == hs[k]);
                    assert(header_name_canonical(rest[k].0) is Some);
                }
                assert(name_refused_at(hs, i, n));
            }
            if check_headers(hs) is BadValue {
                let n = check_headers(hs)->BadValue_0;
                let i = choose|i: int| #[trigger] value_refused_at(rest, i, n);
                assert(rest[i] == hs[i]);
                assert forall|k: int| 0 <= k < i implies #[trigger] header_name_canonical(hs[k].0) is Some
                    && header_value_accepted(hs[k].1) by {
                    assert(rest[k] == hs[k]);
                    assert(header_name_canonical(rest[k].0) is Some);
                }
                assert(value_refused_at(hs, i, n));
            }
        }
    }
}

} // verus!
