//! The verified shell of one chat exchange: endpoint resolution, request
//! header selection, content negotiation, the request data, and decoding of
//! a non-streaming response body. The transport itself (HTTP, TLS, the byte
//! stream) lives outside this crate and hands plain values in and out.

use vstd::prelude::*;

use crate::bridge::{chars_of, json_fields_of, opt_fields_view, parse_json_fields, string_of,
    JsonFields};
use crate::event::{EventView, StreamResponse};
use crate::text::subrange_vec;

verus! {

/// The path segment every resolved endpoint ends with.
pub open spec fn chat_suffix() -> Seq<char> {
    seq!['/', 'v', '1', '/', 'c', 'h', 'a', 't']
}

/// `s` already ends with the chat path segment.
pub open spec fn has_chat_suffix(s: Seq<char>) -> bool {
    s.len() >= 8 && s.skip(s.len() - 8) == chat_suffix()
}

/// `s` with every trailing slash removed.
pub open spec fn strip_slashes(s: Seq<char>) -> Seq<char>
    decreases s.len(),
{
    if s.len() > 0 && s.last() == '/' {
        strip_slashes(s.drop_last())
    } else {
        s
    }
}

/// The endpoint a base URL resolves to: the base itself when it already ends
/// with the chat path segment, otherwise the base without trailing slashes
/// and with the segment appended.
pub open spec fn resolved_endpoint(s: Seq<char>) -> Seq<char> {
    if has_chat_suffix(s) {
        s
    } else {
        strip_slashes(s) + chat_suffix()
    }
}

proof fn lemma_strip_is_take(s: Seq<char>, e: int)
    requires
        0 <= e <= s.len(),
        forall|j: int| e <= j < s.len() ==> #[trigger] s[j] == '/',
        e > 0 ==> s[e - 1] != '/',
    ensures
        strip_slashes(s) == s.take(e),
    decreases s.len(),
{
    if e == s.len() {
        assert(s.take(e) =~= s);
    } else {
        lemma_strip_is_take(s.drop_last(), e);
        assert(s.drop_last().take(e) =~= s.take(e));
    }
}

/// Decides whether the URL characters end with the chat path segment.
fn ends_with_chat(cs: &Vec<char>) -> (r: bool)
    ensures
        r == has_chat_suffix(cs@),
{
    if cs.len() < 8 {
        return false;
    }
    let n = cs.len();
    let r = cs[n - 8] == '/' && cs[n - 7] == 'v' && cs[n - 6] == '1' && cs[n - 5] == '/' && cs[n
        - 4] == 'c' && cs[n - 3] == 'h' && cs[n - 2] == 'a' && cs[n - 1] == 't';
    proof {
        let tail = cs@.skip(n - 8);
        assert(tail.len() == 8);
        assert(tail[0] == cs@[n - 8]);
        assert(tail[1] == cs@[n - 7]);
        assert(tail[2] == cs@[n - 6]);
        assert(tail[3] == cs@[n - 5]);
        assert(tail[4] == cs@[n - 4]);
        assert(tail[5] == cs@[n - 3]);
        assert(tail[6] == cs@[n - 2]);
        assert(tail[7] == cs@[n - 1]);
        if r {
            assert(tail =~= chat_suffix());
        }
    }
    r
}

/// Resolves the endpoint for a base URL, exactly as [`resolved_endpoint`]
/// states: a base already ending in the chat path segment is used verbatim;
/// otherwise trailing slashes are stripped and the segment is appended.
pub fn resolve_endpoint(base: &str) -> (r: String)
    ensures
        r@ == resolved_endpoint(base@),
{
    let cs = chars_of(base);
    if ends_with_chat(&cs) {
        return string_of(&cs);
    }
    let mut e: usize = cs.len();
    loop
        invariant
            e <= cs.len(),
            forall|j: int| e <= j < cs.len() ==> #[trigger] cs@[j] == '/',
        ensures
            e <= cs.len(),
            forall|j: int| e <= j < cs.len() ==> #[trigger] cs@[j] == '/',
            e > 0 ==> cs@[e - 1] != '/',
        decreases e,
    {
        if e == 0 {
            break ;
        }
        if cs[e - 1] != '/' {
            break ;
        }
        e = e - 1;
    }
    proof {
        lemma_strip_is_take(cs@, e as int);
    }
    let mut outv = subrange_vec(&cs, 0, e);
    outv.push('/');
    outv.push('v');
    outv.push('1');
    outv.push('/');
    outv.push('c');
    outv.push('h');
    outv.push('a');
    outv.push('t');
    proof {
        assert(outv@ =~= strip_slashes(base@) + chat_suffix());
    }
    string_of(&outv)
}

/// Endpoint resolution is idempotent: resolving a resolved endpoint returns
/// it unchanged.
pub proof fn lemma_endpoint_idempotent(s: Seq<char>)
    ensures
        resolved_endpoint(resolved_endpoint(s)) == resolved_endpoint(s),
{
    let r = resolved_endpoint(s);
    if !has_chat_suffix(s) {
        assert(r.skip(r.len() - 8) =~= chat_suffix());
    }
}

/// The characters a header value may hold: horizontal tab and everything
/// that is neither an other control character nor delete.
pub open spec fn is_header_value_char(c: char) -> bool {
    let u = c as u32;
    u == 9 || (32 <= u && u != 127)
}

/// A string that can be carried as a header value.
pub open spec fn valid_header_value(s: Seq<char>) -> bool {
    forall|i: int| 0 <= i < s.len() ==> is_header_value_char(#[trigger] s[i])
}

/// Decides whether a string can be carried as a header value.
pub fn check_header_value(s: &str) -> (r: bool)
    ensures
        r == valid_header_value(s@),
{
    let cs = chars_of(s);
    let mut i: usize = 0;
    while i < cs.len()
        invariant
            i <= cs.len(),
            cs@ == s@,
            forall|j: int| 0 <= j < i ==> is_header_value_char(#[trigger] cs@[j]),
        decreases cs.len() - i,
    {
        let u = cs[i] as u32;
        if !(u == 9 || (32 <= u && u != 127)) {
            assert(!is_header_value_char(cs@[i as int]));
            return false;
        }
        i = i + 1;
    }
    true
}

/// The content of an optional string.
pub open spec fn opt_str_view(o: Option<String>) -> Option<Seq<char>> {
    match o {
        Some(s) => Some(s@),
        None => None,
    }
}

/// The name of the header that carries the API key.
pub open spec fn api_key_header() -> Seq<char> {
    "X-API-Key"@
}

/// The name of the header that carries the session id.
pub open spec fn session_id_header() -> Seq<char> {
    "X-Session-ID"@
}

/// The name-value pairs attached to a request: the API key header when a key
/// is configured, then the session id header when a session id is
/// configured — each only if its value can be carried as a header value;
/// a value that cannot is silently omitted.
pub open spec fn header_pairs_spec(key: Option<Seq<char>>, sid: Option<Seq<char>>) -> Seq<
    (Seq<char>, Seq<char>),
> {
    (match key {
        Some(k) => if valid_header_value(k) {
            seq![(api_key_header(), k)]
        } else {
            Seq::empty()
        },
        None => Seq::empty(),
    }) + (match sid {
        Some(s) => if valid_header_value(s) {
            seq![(session_id_header(), s)]
        } else {
            Seq::empty()
        },
        None => Seq::empty(),
    })
}

/// The contents of a sequence of name-value pairs.
pub open spec fn pair_views(s: Seq<(String, String)>) -> Seq<(Seq<char>, Seq<char>)> {
    s.map_values(|p: (String, String)| (p.0@, p.1@))
}

/// The accepted response framing: the event-stream type when streaming, the
/// plain JSON type otherwise.
pub open spec fn accept_spec(stream: bool) -> Seq<char> {
    if stream {
        "text/event-stream"@
    } else {
        "application/json"@
    }
}

/// Picks the `Accept` header value for the streaming flag.
pub fn accept_header(stream: bool) -> (r: &'static str)
    ensures
        r@ == accept_spec(stream),
{
    if stream {
        "text/event-stream"
    } else {
        "application/json"
    }
}

/// One chat exchange's request data: the user's message and the streaming
/// preference. Constructed once per call.
pub struct ChatRequest {
    pub message: String,
    pub stream: bool,
}

impl ChatRequest {
    /// Builds the request data for one exchange.
    pub fn new(message: String, stream: bool) -> (r: ChatRequest)
        ensures
            r.message@ == message@,
            r.stream == stream,
    {
        ChatRequest { message, stream }
    }
}

/// The immutable configuration of a client: the base URL and the optional
/// credentials, supplied at construction.
pub struct ClientConfig {
    pub base_url: String,
    pub api_key: Option<String>,
    pub session_id: Option<String>,
}

impl ClientConfig {
    /// Builds a configuration from its parts.
    pub fn new(base_url: String, api_key: Option<String>, session_id: Option<String>) -> (r:
        ClientConfig)
        ensures
            r.base_url@ == base_url@,
            opt_str_view(r.api_key) == opt_str_view(api_key),
            opt_str_view(r.session_id) == opt_str_view(session_id),
    {
        ClientConfig { base_url, api_key, session_id }
    }

    /// The endpoint this configuration sends requests to.
    pub fn endpoint(&self) -> (r: String)
        ensures
            r@ == resolved_endpoint(self.base_url@),
    {
        resolve_endpoint(self.base_url.as_str())
    }

    /// The header name-value pairs this configuration attaches, exactly as
    /// [`header_pairs_spec`] states.
    pub fn header_pairs(&self) -> (r: Vec<(String, String)>)
        ensures
            pair_views(r@) == header_pairs_spec(
                opt_str_view(self.api_key),
                opt_str_view(self.session_id),
            ),
    {
        let mut r: Vec<(String, String)> = Vec::new();
        match &self.api_key {
            Some(k) => {
                if check_header_value(k.as_str()) {
                    let name: &str = "X-API-Key";
                    r.push((name.to_owned(), k.clone()));
                }
            },
            None => {},
        }
        match &self.session_id {
            Some(s) => {
                if check_header_value(s.as_str()) {
                    let name: &str = "X-Session-ID";
                    r.push((name.to_owned(), s.clone()));
                }
            },
            None => {},
        }
        proof {
            assert(pair_views(r@) =~= header_pairs_spec(
                opt_str_view(self.api_key),
                opt_str_view(self.session_id),
            ));
        }
        r
    }
}

/// The one event a non-streaming response body yields: its `response` field
/// when the body parses and carries one, empty text otherwise, always marked
/// done.
pub open spec fn body_event(s: Seq<char>) -> EventView {
    EventView {
        text: match json_fields_of(s) {
            Some(f) => match f.0 {
                Some(t) => t,
                None => Seq::empty(),
            },
            None => Seq::empty(),
        },
        done: true,
    }
}

/// Builds the one event that a parsed non-streaming body's fields call for:
/// its `response` text, or empty text when the body did not parse or carries
/// none, always marked done.
pub fn event_from_body_fields(parsed: Option<JsonFields>) -> (r: StreamResponse)
    ensures
        r.done,
        r.text@ == (match opt_fields_view(parsed) {
            Some(f) => match f.0 {
                Some(t) => t,
                None => Seq::<char>::empty(),
            },
            None => Seq::<char>::empty(),
        }),
{
    match parsed {
        Some(f) => match f.response {
            Some(t) => StreamResponse { text: t, done: true },
            None => StreamResponse { text: String::new(), done: true },
        },
        None => StreamResponse { text: String::new(), done: true },
    }
}

/// Decodes a whole non-streaming response body into its single event,
/// exactly as [`body_event`] states.
pub fn decode_body(body: &str) -> (r: StreamResponse)
    ensures
        r@ == body_event(body@),
{
    let parsed = parse_json_fields(body);
    event_from_body_fields(parsed)
}

} // verus!
