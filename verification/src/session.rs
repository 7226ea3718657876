//! Per-connection session logic: the state machine that turns transport
//! read results into notifications for the hub, and the trace model that
//! states what a whole read loop emits.

use vstd::prelude::*;

use crate::notification::ClientMessage;
use crate::notification::Notification;

verus! {

/// Relies on chrono::Utc::now, which panics rather than return a time
/// before the Unix epoch: when the call returns, the millisecond
/// timestamp is non-negative. The value depends on the clock, so no two
/// calls are related.
#[verifier::external_body]
fn now_millis() -> (r: i64)
    ensures
        0 <= r,
{
    chrono::Utc::now().timestamp_millis()
}

/// A session is active until the transport signals end of input or
/// fails; it then closes and never emits again.
#[derive(Clone, Copy, PartialEq, Eq, Structural, Debug)]
pub enum SessionState {
    Active,
    Closed,
}

/// What one blocking read of the session's socket came back with: some
/// bytes, a zero-length read (the peer closed its write half), or an
/// input/output failure.
pub enum ReadEvent {
    Data(Vec<u8>),
    Eof,
    Failed,
}

/// Opening a session: it becomes active and announces itself to the hub
/// before any data is read.
pub fn session_open(addr: u64, handle: u64) -> (r: (SessionState, Notification))
    ensures
        r.0 is Active,
        r.1 == Notification::ClientConnection(addr, handle),
{
    (SessionState::Active, Notification::ClientConnection(addr, handle))
}

/// One turn of the read loop. While active: data becomes one message
/// notification carrying exactly the bytes of that read, stamped with
/// the current time; end of input and read failure both close the
/// session and emit one disconnection. A closed session emits nothing.
pub fn session_step(st: SessionState, addr: u64, ev: ReadEvent) -> (r: (
    SessionState,
    Option<Notification>,
))
    ensures
        st is Closed ==> r.0 is Closed && r.1 is None,
        st is Active ==> match ev {
            ReadEvent::Data(d) => r.0 is Active && (r.1 matches Some(Notification::NewMessage(m))
                && m.author == addr && m.msg@ == d@ && m.date >= 0),
            ReadEvent::Eof => r.0 is Closed && r.1 == Some(
                Notification::ClientDisconnection(addr),
            ),
            ReadEvent::Failed => r.0 is Closed && r.1 == Some(
                Notification::ClientDisconnection(addr),
            ),
        },
{
    match st {
        SessionState::Closed => (SessionState::Closed, None),
        SessionState::Active => match ev {
            ReadEvent::Data(d) => {
                let date = now_millis();
                (
                    SessionState::Active,
                    Some(Notification::NewMessage(ClientMessage { author: addr, date, msg: d })),
                )
            }
            ReadEvent::Eof => (
                SessionState::Closed,
                Some(Notification::ClientDisconnection(addr)),
            ),
            ReadEvent::Failed => (
                SessionState::Closed,
                Some(Notification::ClientDisconnection(addr)),
            ),
        },
    }
}

/// What one loop turn puts on the channel, seen abstractly: a message
/// with its payload, or the session's one departure. Timestamps are not
/// part of the abstraction.
pub enum Emitted {
    Message(Seq<u8>),
    Departure,
}

/// The bytes a read event carries; none for end of input or failure.
pub open spec fn data_payload(ev: ReadEvent) -> Seq<u8> {
    match ev {
        ReadEvent::Data(d) => d@,
        _ => Seq::empty(),
    }
}

/// Everything a session emits for a sequence of read results: one
/// message per read of data, in order, until the first end of input or
/// failure, which emits the departure and ends the loop.
pub open spec fn session_trace(events: Seq<ReadEvent>) -> Seq<Emitted>
    decreases events.len(),
{
    if events.len() == 0 {
        Seq::empty()
    } else {
        match events[0] {
            ReadEvent::Data(d) => seq![Emitted::Message(d@)] + session_trace(events.drop_first()),
            _ => seq![Emitted::Departure],
        }
    }
}

/// The bytes the transport handed over, in order, up to the first end
/// of input or failure.
pub open spec fn reads_payload(events: Seq<ReadEvent>) -> Seq<u8>
    decreases events.len(),
{
    if events.len() == 0 {
        Seq::empty()
    } else {
        match events[0] {
            ReadEvent::Data(d) => d@ + reads_payload(events.drop_first()),
            _ => Seq::empty(),
        }
    }
}

/// The concatenation of the message payloads in a trace.
pub open spec fn trace_payload(t: Seq<Emitted>) -> Seq<u8>
    decreases t.len(),
{
    if t.len() == 0 {
        Seq::empty()
    } else {
        (match t[0] {
            Emitted::Message(p) => p,
            Emitted::Departure => Seq::empty(),
        }) + trace_payload(t.drop_first())
    }
}

/// The trace of the messages alone: what an all-data prefix emits.
pub open spec fn messages_of(events: Seq<ReadEvent>) -> Seq<Emitted> {
    events.map_values(|ev: ReadEvent| Emitted::Message(data_payload(ev)))
}

/// Message boundaries are preserved only up to the reads: whatever the
/// payload was split into, the concatenation of the emitted message
/// payloads equals, in order, the concatenation of the bytes read.
pub proof fn lemma_payload_reassembly(events: Seq<ReadEvent>)
    ensures
        trace_payload(session_trace(events)) == reads_payload(events),
    decreases events.len(),
{
    if events.len() == 0 {
        assert(trace_payload(session_trace(events)) =~= reads_payload(events));
    } else {
        match events[0] {
            ReadEvent::Data(d) => {
                lemma_payload_reassembly(events.drop_first());
                let t = session_trace(events);
                assert(t == seq![Emitted::Message(d@)] + session_trace(events.drop_first()));
                assert(t.drop_first() =~= session_trace(events.drop_first()));
                assert(t[0] == Emitted::Message(d@));
                assert(trace_payload(t) == d@ + trace_payload(t.drop_first()));
                assert(trace_payload(session_trace(events)) =~= reads_payload(events));
            }
            _ => {
                let t = session_trace(events);
                assert(t == seq![Emitted::Departure]);
                assert(t.drop_first() =~= Seq::<Emitted>::empty());
                assert(trace_payload(t.drop_first()) =~= Seq::<u8>::empty());
                assert(t[0] is Departure);
                assert(trace_payload(t) =~= reads_payload(events));
            }
        }
    }
}

/// The notifications a session put on the channel agree with a trace:
/// one message notification per emitted message, carrying exactly its
/// payload and the session's address, and the session's own address on
/// its one departure.
pub open spec fn emitted_matches(addr: u64, note: Notification, e: Emitted) -> bool {
    match e {
        Emitted::Message(p) => (note matches Notification::NewMessage(m) && m.author == addr
            && m.msg@ == p && m.date >= 0),
        Emitted::Departure => note == Notification::ClientDisconnection(addr),
    }
}

pub open spec fn matches_trace(addr: u64, notes: Seq<Notification>, t: Seq<Emitted>) -> bool {
    &&& notes.len() == t.len()
    &&& forall|i: int|
        0 <= i < t.len() ==> #[trigger] emitted_matches(addr, notes[i], t[i])
}

pub(crate) fn copy_bytes(v: &Vec<u8>) -> (r: Vec<u8>)
    ensures
        r@ == v@,
{
    let mut r: Vec<u8> = Vec::new();
    let mut i: usize = 0;
    while i < v.len()
        invariant
            i <= v@.len(),
            r@ == v@.take(i as int),
        decreases v@.len() - i,
    {
        r.push(v[i]);
        proof {
            assert(r@ =~= v@.take(i as int + 1));
        }
        i = i + 1;
    }
    proof {
        assert(v@.take(v@.len() as int) =~= v@);
    }
    r
}

/// The whole read loop over a given sequence of read results: what the
/// session emits is exactly the trace of those results — each read of
/// data one message, the first end of input or failure one departure,
/// and nothing after that.
pub fn session_drain(addr: u64, events: &Vec<ReadEvent>) -> (notes: Vec<Notification>)
    ensures
        matches_trace(addr, notes@, session_trace(events@)),
{
    let mut notes: Vec<Notification> = Vec::new();
    let mut st = SessionState::Active;
    let mut i: usize = 0;
    while i < events.len()
        invariant
            st is Active,
            i <= events@.len(),
            forall|j: int| 0 <= j < i ==> events@[j] is Data,
            matches_trace(addr, notes@, messages_of(events@.take(i as int))),
        decreases events@.len() - i,
    {
        match &events[i] {
            ReadEvent::Data(d) => {
                let (st2, note) = session_step(st, addr, ReadEvent::Data(copy_bytes(d)));
                st = st2;
                notes.push(note.unwrap());
                proof {
                    assert(messages_of(events@.take(i as int + 1)) =~= messages_of(
                        events@.take(i as int),
                    ).push(Emitted::Message(data_payload(events@[i as int]))));
                }
                i = i + 1;
            }
            ReadEvent::Eof => {
                let (_st2, note) = session_step(st, addr, ReadEvent::Eof);
                notes.push(note.unwrap());
                proof {
                    lemma_trace_shape(events@, i as int);
                    let tail = events@.skip(i as int);
                    assert(tail[0] == events@[i as int]);
                    assert(session_trace(tail) =~= seq![Emitted::Departure]);
                    assert(matches_trace(addr, notes@, session_trace(events@)));
                }
                return notes;
            }
            ReadEvent::Failed => {
                let (_st2, note) = session_step(st, addr, ReadEvent::Failed);
                notes.push(note.unwrap());
                proof {
                    lemma_trace_shape(events@, i as int);
                    let tail = events@.skip(i as int);
                    assert(tail[0] == events@[i as int]);
                    assert(session_trace(tail) =~= seq![Emitted::Departure]);
                    assert(matches_trace(addr, notes@, session_trace(events@)));
                }
                return notes;
            }
        }
    }
    proof {
        lemma_trace_shape(events@, events@.len() as int);
        assert(events@.skip(events@.len() as int) =~= Seq::<ReadEvent>::empty());
        assert(session_trace(Seq::<ReadEvent>::empty()) =~= Seq::<Emitted>::empty());
        assert(events@.take(events@.len() as int) =~= events@);
        assert(session_trace(events@) =~= messages_of(events@));
    }
    notes
}

/// An all-data prefix of the read results contributes exactly its
/// messages, in order, and what follows contributes independently.
proof fn lemma_trace_shape(events: Seq<ReadEvent>, k: int)
    requires
        0 <= k <= events.len(),
        forall|j: int| 0 <= j < k ==> events[j] is Data,
    ensures
        session_trace(events) == messages_of(events.take(k)) + session_trace(events.skip(k)),
    decreases k,
{
    if k == 0 {
        assert(events.skip(0) =~= events);
        assert(messages_of(events.take(0)) =~= Seq::<Emitted>::empty());
        assert(session_trace(events) =~= messages_of(events.take(0)) + session_trace(
            events.skip(0),
        ));
    } else {
        assert(events[0] is Data);
        let d = events[0]->Data_0;
        let rest = events.drop_first();
        assert(rest =~= events.skip(1));
        assert(forall|j: int| 0 <= j < k - 1 ==> rest[j] is Data);
        lemma_trace_shape(rest, k - 1);
        assert(rest.take(k - 1) =~= events.take(k).skip(1));
        assert(rest.skip(k - 1) =~= events.skip(k));
        assert(messages_of(events.take(k)) =~= seq![Emitted::Message(d@)] + messages_of(
            rest.take(k - 1),
        ));
        assert(session_trace(events) == seq![Emitted::Message(d@)] + session_trace(rest));
        assert(session_trace(events) =~= messages_of(events.take(k)) + session_trace(
            events.skip(k),
        ));
    }
}

/// The concatenation of the payloads of the message notifications in a
/// sequence, in order.
pub open spec fn notes_payload(notes: Seq<Notification>) -> Seq<u8>
    decreases notes.len(),
{
    if notes.len() == 0 {
        Seq::empty()
    } else {
        (match notes[0] {
            Notification::NewMessage(m) => m.msg@,
            _ => Seq::empty(),
        }) + notes_payload(notes.drop_first())
    }
}

proof fn lemma_notes_payload(addr: u64, notes: Seq<Notification>, t: Seq<Emitted>)
    requires
        matches_trace(addr, notes, t),
    ensures
        notes_payload(notes) == trace_payload(t),
    decreases t.len(),
{
    if t.len() == 0 {
        assert(notes_payload(notes) =~= trace_payload(t));
    } else {
        assert(emitted_matches(addr, notes[0], t[0]));
        assert(matches_trace(addr, notes.drop_first(), t.drop_first())) by {
            assert forall|i: int| 0 <= i < t.drop_first().len() implies #[trigger] emitted_matches(
                addr,
                notes.drop_first()[i],
                t.drop_first()[i],
            ) by {
                assert(emitted_matches(addr, notes[i + 1], t[i + 1]));
            }
        }
        lemma_notes_payload(addr, notes.drop_first(), t.drop_first());
        assert(notes_payload(notes) =~= trace_payload(t));
    }
}

/// What the hub can reassemble from a session's message notifications
/// is exactly, in order, the bytes the transport handed that session —
/// message boundaries are those of the reads, nothing more.
pub proof fn lemma_reassembled_messages(addr: u64, events: Seq<ReadEvent>, notes: Seq<Notification>)
    requires
        matches_trace(addr, notes, session_trace(events)),
    ensures
        notes_payload(notes) == reads_payload(events),
{
    lemma_notes_payload(addr, notes, session_trace(events));
    lemma_payload_reassembly(events);
}

/// The views of a sequence of byte vectors.
pub open spec fn chunk_views(cs: Seq<Vec<u8>>) -> Seq<Seq<u8>> {
    cs.map_values(|c: Vec<u8>| c@)
}

/// Splits a payload the way a bounded read buffer would: consecutive
/// pieces of at most `buf_size` bytes whose concatenation is the
/// original payload, in order; a payload larger than the buffer comes
/// out as more than one piece.
pub fn chunk_payload(payload: &Vec<u8>, buf_size: usize) -> (chunks: Vec<Vec<u8>>)
    requires
        buf_size > 0,
    ensures
        chunk_views(chunks@).flatten() == payload@,
        forall|i: int| 0 <= i < chunks@.len() ==> 0 < #[trigger] chunks@[i]@.len() <= buf_size,
        (chunks@.len() == 0) == (payload@.len() == 0),
        payload@.len() > buf_size ==> chunks@.len() > 1,
{
    let mut chunks: Vec<Vec<u8>> = Vec::new();
    let mut pos: usize = 0;
    proof {
        assert(chunk_views(chunks@) =~= Seq::<Seq<u8>>::empty());
        assert(chunk_views(chunks@).flatten() =~= payload@.take(0));
    }
    while pos < payload.len()
        invariant
            buf_size > 0,
            pos <= payload@.len(),
            chunk_views(chunks@).flatten() == payload@.take(pos as int),
            forall|i: int| 0 <= i < chunks@.len() ==> 0 < #[trigger] chunks@[i]@.len() <= buf_size,
            (pos == 0) == (chunks@.len() == 0),
        decreases payload@.len() - pos,
    {
        let remaining = payload.len() - pos;
        let step = if remaining < buf_size {
            remaining
        } else {
            buf_size
        };
        let end = pos + step;
        let mut chunk: Vec<u8> = Vec::new();
        let mut k = pos;
        while k < end
            invariant
                pos <= k <= end,
                end <= payload@.len(),
                chunk@ == payload@.subrange(pos as int, k as int),
            decreases end - k,
        {
            chunk.push(payload[k]);
            proof {
                assert(chunk@ =~= payload@.subrange(pos as int, k as int + 1));
            }
            k = k + 1;
        }
        proof {
            let pre = chunk_views(chunks@);
            pre.lemma_flatten_push(chunk@);
            assert(chunk_views(chunks@.push(chunk)) =~= pre.push(chunk@));
            assert(payload@.take(pos as int) + payload@.subrange(pos as int, end as int)
                =~= payload@.take(end as int));
        }
        chunks.push(chunk);
        proof {
            assert(chunk_views(chunks@).flatten() =~= payload@.take(end as int));
        }
        pos = end;
    }
    proof {
        assert(payload@.take(payload@.len() as int) =~= payload@);
        if payload@.len() > buf_size {
            if chunks@.len() == 1 {
                let mapped = chunk_views(chunks@);
                assert(mapped.len() == 1);
                mapped.lemma_flatten_singleton();
                assert(payload@ == mapped[0]);
                assert(mapped[0] == chunks@[0]@);
                assert(false);
            }
        }
    }
    chunks
}

/// A zero-length read (or a read failure) produces exactly one
/// departure and nothing after it: the trace holds one message per
/// prior read of data, then the single departure, and ends there.
pub proof fn lemma_single_departure(events: Seq<ReadEvent>, k: int)
    requires
        0 <= k < events.len(),
        forall|j: int| 0 <= j < k ==> events[j] is Data,
        !(events[k] is Data),
    ensures
        session_trace(events).len() == k + 1,
        session_trace(events)[k] is Departure,
        forall|j: int| 0 <= j < k ==> session_trace(events)[j] is Message,
{
    lemma_trace_shape(events, k);
    let tail = events.skip(k);
    assert(tail[0] == events[k]);
    assert(session_trace(tail) =~= seq![Emitted::Departure]);
    assert(messages_of(events.take(k)).len() == k);
    assert forall|j: int| 0 <= j < k implies session_trace(events)[j] is Message by {
        assert(session_trace(events)[j] == messages_of(events.take(k))[j]);
    }
}

} // verus!
