//! The event line decoder: a verified state machine that turns arbitrarily
//! chunked raw bytes into a sequence of [`StreamResponse`] events.
//!
//! The wire protocol is newline-delimited. Each complete line is decoded
//! leniently as UTF-8 and trimmed; empty lines are dropped; a line with the
//! `data: ` prefix carries either the `[DONE]` termination marker, an empty
//! payload (both signal termination), or a JSON object with optional
//! `response` and `done` fields; any other line is raw text. Unparseable
//! payloads are silently dropped — a deliberate best-effort policy. A
//! trailing partial line stays buffered; if the stream ends first it is
//! silently discarded, again by design.

use vstd::prelude::*;

use crate::bridge::{decode_lossy, decoded_of, json_fields_of, opt_fields_view, parse_json_fields,
    string_of, JsonFields};
use crate::event::{views_of, EventView, StreamResponse};
use crate::text::{has_prefix, subrange_vec, trim_chars, trim_spec};

verus! {

/// No byte of `b` is a newline.
pub open spec fn no_nl(b: Seq<u8>) -> bool {
    forall|i: int| 0 <= i < b.len() ==> #[trigger] b[i] != 10u8
}

/// The first newline of `b` stands at position `i`.
pub open spec fn nl_at(b: Seq<u8>, i: int) -> bool {
    0 <= i < b.len() && b[i] == 10u8 && no_nl(b.take(i))
}

/// Some byte of `b` is a newline.
pub open spec fn has_nl(b: Seq<u8>) -> bool {
    exists|i: int| nl_at(b, i)
}

/// The literal line prefix that marks a structured event frame.
pub open spec fn data_prefix() -> Seq<char> {
    seq!['d', 'a', 't', 'a', ':', ' ']
}

/// The literal payload that signals stream termination.
pub open spec fn done_marker() -> Seq<char> {
    seq!['[', 'D', 'O', 'N', 'E', ']']
}

/// The event that carries only a termination signal.
pub open spec fn done_event() -> EventView {
    EventView { text: Seq::empty(), done: true }
}

/// The events that the optional `response` and `done` fields of a parsed
/// payload yield: nothing for an unparseable payload; a text event when
/// `response` is present, marked done when `done` is true; and a trailing
/// termination event whenever `done` is true.
pub open spec fn fields_events(f: Option<(Option<Seq<char>>, Option<bool>)>) -> Seq<EventView> {
    match f {
        None => Seq::empty(),
        Some(p) => {
            let done = match p.1 {
                Some(b) => b,
                None => false,
            };
            let head = match p.0 {
                Some(t) => seq![EventView { text: t, done }],
                None => Seq::<EventView>::empty(),
            };
            if done {
                head + seq![done_event()]
            } else {
                head
            }
        },
    }
}

/// The events of a trimmed `data: ` payload: termination for an empty
/// payload or the termination marker, otherwise whatever its JSON fields
/// yield.
pub open spec fn payload_events(p: Seq<char>) -> Seq<EventView> {
    if p.len() == 0 || p == done_marker() {
        seq![done_event()]
    } else {
        fields_events(json_fields_of(p))
    }
}

/// The events of one decoded line: none for white space, the payload's
/// events for a `data: ` frame, and one raw text event otherwise.
pub open spec fn events_of_line(cs: Seq<char>) -> Seq<EventView> {
    let t = trim_spec(cs);
    if t.len() == 0 {
        Seq::empty()
    } else if has_prefix(t, data_prefix()) {
        payload_events(trim_spec(t.skip(6)))
    } else {
        seq![EventView { text: t, done: false }]
    }
}

/// The events of one raw line of bytes, decoded leniently.
pub open spec fn line_events(b: Seq<u8>) -> Seq<EventView> {
    events_of_line(decoded_of(b))
}

/// The events of every complete (newline-terminated) line of `b`, in order.
pub open spec fn stream_events(b: Seq<u8>) -> Seq<EventView>
    decreases b.len(),
{
    if has_nl(b) {
        let i = choose|i: int| nl_at(b, i);
        line_events(b.take(i)) + stream_events(b.skip(i + 1))
    } else {
        Seq::empty()
    }
}

/// The partial line left after every complete line of `b` is removed.
pub open spec fn leftover(b: Seq<u8>) -> Seq<u8>
    decreases b.len(),
{
    if has_nl(b) {
        let i = choose|i: int| nl_at(b, i);
        leftover(b.skip(i + 1))
    } else {
        b
    }
}

proof fn lemma_nl_at_unique(b: Seq<u8>, i: int, j: int)
    requires
        nl_at(b, i),
        nl_at(b, j),
    ensures
        i == j,
{
    if i < j {
        assert(b.take(j)[i] == b[i]);
    } else if j < i {
        assert(b.take(i)[j] == b[j]);
    }
}

/// Unfolds [`stream_events`] and [`leftover`] at a known first newline.
proof fn lemma_stream_step(b: Seq<u8>, i: int)
    requires
        nl_at(b, i),
    ensures
        stream_events(b) == line_events(b.take(i)) + stream_events(b.skip(i + 1)),
        leftover(b) == leftover(b.skip(i + 1)),
{
    assert(has_nl(b));
    let j = choose|j: int| nl_at(b, j);
    lemma_nl_at_unique(b, i, j);
}

proof fn lemma_not_has_nl(b: Seq<u8>)
    requires
        !has_nl(b),
    ensures
        no_nl(b),
    decreases b.len(),
{
    if b.len() > 0 {
        assert(b.take(0) =~= Seq::<u8>::empty());
        assert(b[0] != 10u8) by {
            if b[0] == 10u8 {
                assert(nl_at(b, 0));
            }
        }
        assert(!has_nl(b.skip(1))) by {
            if has_nl(b.skip(1)) {
                let i = choose|i: int| nl_at(b.skip(1), i);
                assert(b.take(i + 1) =~= seq![b[0]] + b.skip(1).take(i));
                assert forall|k: int| 0 <= k < i + 1 implies #[trigger] b.take(i + 1)[k]
                    != 10u8 by {
                    if k > 0 {
                        assert(b.skip(1).take(i)[k - 1] == b.skip(1)[k - 1]);
                    }
                }
                assert(nl_at(b, i + 1));
            }
        }
        lemma_not_has_nl(b.skip(1));
        assert forall|k: int| 0 <= k < b.len() implies #[trigger] b[k] != 10u8 by {
            if k > 0 {
                assert(b.skip(1)[k - 1] == b[k]);
            }
        }
    }
}

/// When `b` holds no complete line, nothing is emitted and all of it stays.
proof fn lemma_stream_flat(b: Seq<u8>)
    requires
        no_nl(b),
    ensures
        stream_events(b) == Seq::<EventView>::empty(),
        leftover(b) == b,
{
    assert(!has_nl(b)) by {
        if has_nl(b) {
            let i = choose|i: int| nl_at(b, i);
            assert(b[i] != 10u8);
        }
    }
}

/// Decoding composes: the lines of `a + b` are the complete lines of `a`
/// followed by the lines of `a`'s leftover joined with `b`.
proof fn lemma_stream_compose(a: Seq<u8>, b: Seq<u8>)
    ensures
        stream_events(a + b) == stream_events(a) + stream_events(leftover(a) + b),
        leftover(a + b) == leftover(leftover(a) + b),
    decreases a.len(),
{
    if has_nl(a) {
        let i = choose|i: int| nl_at(a, i);
        assert(nl_at(a + b, i)) by {
            assert((a + b)[i] == a[i]);
            assert forall|k: int| 0 <= k < i implies #[trigger] (a + b).take(i)[k] != 10u8 by {
                assert(a.take(i)[k] == a[k]);
                assert((a + b).take(i)[k] == a[k]);
            }
        }
        lemma_stream_step(a, i);
        lemma_stream_step(a + b, i);
        assert((a + b).take(i) =~= a.take(i));
        assert((a + b).skip(i + 1) =~= a.skip(i + 1) + b);
        lemma_stream_compose(a.skip(i + 1), b);
        assert(stream_events(a + b) =~= stream_events(a) + stream_events(leftover(a) + b));
    } else {
        lemma_not_has_nl(a);
        lemma_stream_flat(a);
        assert(leftover(a) + b =~= a + b);
        assert(stream_events(a + b) =~= stream_events(a) + stream_events(leftover(a) + b));
    }
}

/// Finds the first newline byte of `v`, if any.
fn find_nl(v: &Vec<u8>) -> (r: Option<usize>)
    ensures
        match r {
            Some(i) => nl_at(v@, i as int),
            None => no_nl(v@),
        },
{
    let mut j: usize = 0;
    while j < v.len()
        invariant
            j <= v.len(),
            forall|k: int| 0 <= k < j ==> #[trigger] v@[k] != 10u8,
        decreases v.len() - j,
    {
        if v[j] == 10 {
            proof {
                assert forall|k: int| 0 <= k < j implies #[trigger] v@.take(j as int)[k]
                    != 10u8 by {
                    assert(v@.take(j as int)[k] == v@[k]);
                }
            }
            return Some(j);
        }
        j = j + 1;
    }
    None
}

/// Builds the events that a parsed payload's fields call for: a text event
/// when `response` is present (marked done when `done` is true), and a
/// trailing termination event whenever `done` is true; nothing when the
/// payload did not parse.
pub fn events_from_fields(parsed: Option<JsonFields>) -> (evs: Vec<StreamResponse>)
    ensures
        views_of(evs@) == fields_events(opt_fields_view(parsed)),
{
    match parsed {
        None => {
            let evs: Vec<StreamResponse> = Vec::new();
            proof {
                assert(views_of(evs@) =~= fields_events(opt_fields_view(parsed)));
            }
            evs
        },
        Some(f) => {
            let done = match f.done {
                Some(b) => b,
                None => false,
            };
            let mut evs: Vec<StreamResponse> = Vec::new();
            match f.response {
                Some(t) => {
                    evs.push(StreamResponse { text: t, done });
                },
                None => {},
            }
            if done {
                evs.push(StreamResponse { text: String::new(), done: true });
            }
            proof {
                assert(views_of(evs@) =~= fields_events(opt_fields_view(parsed)));
            }
            evs
        },
    }
}

/// Decides whether the trimmed line starts with the `data: ` prefix.
fn starts_with_data(t: &Vec<char>) -> (r: bool)
    ensures
        r == has_prefix(t@, data_prefix()),
{
    if t.len() < 6 {
        return false;
    }
    let r = t[0] == 'd' && t[1] == 'a' && t[2] == 't' && t[3] == 'a' && t[4] == ':' && t[5] == ' ';
    proof {
        if r {
            assert(t@.take(6) =~= data_prefix());
        } else {
            if t@.take(6) == data_prefix() {
                assert(t@[0] == t@.take(6)[0]);
                assert(t@[1] == t@.take(6)[1]);
                assert(t@[2] == t@.take(6)[2]);
                assert(t@[3] == t@.take(6)[3]);
                assert(t@[4] == t@.take(6)[4]);
                assert(t@[5] == t@.take(6)[5]);
            }
        }
    }
    r
}

/// Decides whether the trimmed payload is the `[DONE]` termination marker.
fn is_done_marker(p: &Vec<char>) -> (r: bool)
    ensures
        r == (p@ == done_marker()),
{
    if p.len() != 6 {
        return false;
    }
    let r = p[0] == '[' && p[1] == 'D' && p[2] == 'O' && p[3] == 'N' && p[4] == 'E' && p[5] == ']';
    proof {
        if r {
            assert(p@ =~= done_marker());
        }
    }
    r
}

/// Decodes one line of characters into its events, exactly as
/// [`events_of_line`] states.
pub fn decode_line(cs: &Vec<char>) -> (evs: Vec<StreamResponse>)
    ensures
        views_of(evs@) == events_of_line(cs@),
{
    let t = trim_chars(cs);
    if t.len() == 0 {
        let evs: Vec<StreamResponse> = Vec::new();
        proof {
            assert(views_of(evs@) =~= events_of_line(cs@));
        }
        return evs;
    }
    if starts_with_data(&t) {
        let tail = subrange_vec(&t, 6, t.len());
        proof {
            assert(tail@ =~= t@.skip(6));
        }
        let p = trim_chars(&tail);
        if p.len() == 0 || is_done_marker(&p) {
            let mut evs: Vec<StreamResponse> = Vec::new();
            evs.push(StreamResponse { text: String::new(), done: true });
            proof {
                assert(views_of(evs@) =~= seq![done_event()]);
            }
            evs
        } else {
            let ps = string_of(&p);
            let parsed = parse_json_fields(ps.as_str());
            events_from_fields(parsed)
        }
    } else {
        let text = string_of(&t);
        let mut evs: Vec<StreamResponse> = Vec::new();
        evs.push(StreamResponse { text, done: false });
        proof {
            assert(views_of(evs@) =~= seq![EventView { text: trim_spec(cs@), done: false }]);
        }
        evs
    }
}

/// Decodes one raw line of bytes into its events.
fn process_line(line: &Vec<u8>) -> (evs: Vec<StreamResponse>)
    ensures
        views_of(evs@) == line_events(line@),
{
    let cs = decode_lossy(line);
    decode_line(&cs)
}

/// The stateful event line decoder. It owns the unconsumed tail of the bytes
/// received so far: a partial line not yet terminated by a newline. Complete
/// lines never stay buffered.
pub struct Decoder {
    buf: Vec<u8>,
}

impl View for Decoder {
    type V = Seq<u8>;

    closed spec fn view(&self) -> Seq<u8> {
        self.buf@
    }
}

impl Decoder {
    /// The decoder's invariant: the buffer holds no complete line.
    pub open spec fn wf(&self) -> bool {
        no_nl(self@)
    }

    /// A fresh decoder with an empty buffer.
    pub fn new() -> (d: Decoder)
        ensures
            d@ == Seq::<u8>::empty(),
            d.wf(),
    {
        Decoder { buf: Vec::new() }
    }

    /// Feeds one chunk of raw bytes: every complete line of the buffered
    /// bytes joined with the chunk is decoded into events, in source order,
    /// and the trailing partial line stays buffered for the next call.
    pub fn feed(&mut self, chunk: &Vec<u8>) -> (events: Vec<StreamResponse>)
        ensures
            views_of(events@) == stream_events(old(self)@ + chunk@),
            final(self)@ == leftover(old(self)@ + chunk@),
            final(self).wf(),
    {
        let ghost total: Seq<u8> = self@ + chunk@;
        let mut k: usize = 0;
        while k < chunk.len()
            invariant
                k <= chunk.len(),
                self.buf@ == old(self)@ + chunk@.take(k as int),
            decreases chunk.len() - k,
        {
            self.buf.push(chunk[k]);
            k = k + 1;
            proof {
                assert(old(self)@ + chunk@.take(k as int) =~= (old(self)@ + chunk@.take(
                    k - 1,
                )).push(chunk@[k - 1]));
            }
        }
        proof {
            assert(self.buf@ =~= total);
        }
        let mut out: Vec<StreamResponse> = Vec::new();
        loop
            invariant
                views_of(out@) + stream_events(self.buf@) == stream_events(total),
                leftover(self.buf@) == leftover(total),
            ensures
                views_of(out@) + stream_events(self.buf@) == stream_events(total),
                leftover(self.buf@) == leftover(total),
                no_nl(self.buf@),
            decreases self.buf@.len(),
        {
            match find_nl(&self.buf) {
                None => {
                    proof {
                        lemma_not_has_nl(self.buf@);
                    }
                    break ;
                },
                Some(i) => {
                    proof {
                        lemma_stream_step(self.buf@, i as int);
                    }
                    let n: usize = self.buf.len();
                    assert(i < n);
                    let ghost before: Seq<u8> = self.buf@;
                    let rest = self.buf.split_off(i + 1);
                    self.buf.truncate(i);
                    proof {
                        assert(self.buf@ =~= before.take(i as int));
                        assert(rest@ =~= before.skip(i + 1));
                    }
                    let mut evs = process_line(&self.buf);
                    let ghost out_before: Seq<StreamResponse> = out@;
                    out.append(&mut evs);
                    self.buf = rest;
                    proof {
                        assert(views_of(out@) =~= views_of(out_before) + line_events(
                            before.take(i as int),
                        ));
                        assert(views_of(out@) + stream_events(self.buf@) =~= stream_events(
                            total,
                        ));
                    }
                },
            }
        }
        proof {
            lemma_stream_flat(self.buf@);
            assert(views_of(out@) =~= stream_events(total));
        }
        out
    }
}

/// The bytes of a sequence of chunks, joined in arrival order.
pub open spec fn concat_chunks(chunks: Seq<Seq<u8>>) -> Seq<u8>
    decreases chunks.len(),
{
    if chunks.len() == 0 {
        Seq::empty()
    } else {
        concat_chunks(chunks.drop_last()) + chunks.last()
    }
}

/// The buffer a decoder holds after feeding the chunks in order, starting
/// from an empty buffer — each step per the contract of [`Decoder::feed`].
pub open spec fn run_leftover(chunks: Seq<Seq<u8>>) -> Seq<u8>
    decreases chunks.len(),
{
    if chunks.len() == 0 {
        Seq::empty()
    } else {
        leftover(run_leftover(chunks.drop_last()) + chunks.last())
    }
}

/// All events a decoder emits over feeding the chunks in order, starting
/// from an empty buffer — each step per the contract of [`Decoder::feed`].
pub open spec fn run_events(chunks: Seq<Seq<u8>>) -> Seq<EventView>
    decreases chunks.len(),
{
    if chunks.len() == 0 {
        Seq::empty()
    } else {
        run_events(chunks.drop_last()) + stream_events(
            run_leftover(chunks.drop_last()) + chunks.last(),
        )
    }
}

/// A run over chunks decodes exactly the joined byte content: the events and
/// the final buffer depend on the total bytes alone.
pub proof fn lemma_run_is_concat(chunks: Seq<Seq<u8>>)
    ensures
        run_events(chunks) == stream_events(concat_chunks(chunks)),
        run_leftover(chunks) == leftover(concat_chunks(chunks)),
    decreases chunks.len(),
{
    if chunks.len() == 0 {
        lemma_stream_flat(Seq::<u8>::empty());
    } else {
        lemma_run_is_concat(chunks.drop_last());
        lemma_stream_compose(concat_chunks(chunks.drop_last()), chunks.last());
    }
}

/// Chunk-boundary invariance: two chunk sequences with the same total byte
/// content yield the same events and the same final buffer, wherever the
/// chunk boundaries fall.
pub proof fn lemma_chunk_boundary_invariance(c1: Seq<Seq<u8>>, c2: Seq<Seq<u8>>)
    requires
        concat_chunks(c1) == concat_chunks(c2),
    ensures
        run_events(c1) == run_events(c2),
        run_leftover(c1) == run_leftover(c2),
{
    lemma_run_is_concat(c1);
    lemma_run_is_concat(c2);
}

} // verus!

