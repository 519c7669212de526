//! The connection manager's pure core: the registry of live connections,
//! the events delivered to the host shell, and the per-connection read and
//! write state machines.
//!
//! The shell owns the sockets, the scheduler and the registry lock; it calls
//! in here to decide what each observation on a stream means, which events to
//! emit, and how the registry changes.
use vstd::prelude::*;

use crate::SocketError;
use crate::codec::{FrameDecoder, ensure_crlf, frame_views, is_frame, spec_with_crlf};

verus! {

/// The controllable surface of one live connection: the sender of its
/// bounded outbound queue, and its one-shot shutdown signal while unfired.
/// The queue and signal types are whatever channel the shell wires in.
pub struct ConnectionHandle<Q, S> {
    pub write_tx: Q,
    pub shutdown_tx: Option<S>,
}

/// The registry: the single shared mapping from connection identifier to
/// the live connection's handle.
pub struct SocketState<Q, S> {
    connections: Vec<(String, ConnectionHandle<Q, S>)>,
}

/// The mapping that an association list denotes; later entries win.
pub open spec fn entries_map<Q, S>(s: Seq<(String, ConnectionHandle<Q, S>)>) -> Map<
    Seq<char>,
    ConnectionHandle<Q, S>,
>
    decreases s.len(),
{
    if s.len() == 0 {
        Map::empty()
    } else {
        entries_map(s.drop_last()).insert(s.last().0@, s.last().1)
    }
}

/// No two entries share an identifier.
pub open spec fn entries_unique<Q, S>(s: Seq<(String, ConnectionHandle<Q, S>)>) -> bool {
    forall|i: int, j: int| 0 <= i < j < s.len() ==> (#[trigger] s[i]).0@ != (#[trigger] s[j]).0@
}

proof fn lemma_entries_map_has_key<Q, S>(s: Seq<(String, ConnectionHandle<Q, S>)>, k: Seq<char>)
    ensures
        entries_map(s).contains_key(k) <==> (exists|i: int|
            0 <= i < s.len() && (#[trigger] s[i]).0@ == k),
    decreases s.len(),
{
    if s.len() > 0 {
        lemma_entries_map_has_key(s.drop_last(), k);
        if s.last().0@ == k {
            assert((s[s.len() - 1]).0@ == k);
        } else if entries_map(s).contains_key(k) {
            let dl = s.drop_last();
            let i = choose|i: int| 0 <= i < dl.len() && (#[trigger] dl[i]).0@ == k;
            assert((s[i]).0@ == k);
        } else if exists|i: int| 0 <= i < s.len() && (#[trigger] s[i]).0@ == k {
            let i = choose|i: int| 0 <= i < s.len() && (#[trigger] s[i]).0@ == k;
            assert(i < s.len() - 1);
            assert((s.drop_last()[i]).0@ == k);
        }
    }
}

proof fn lemma_entries_map_index<Q, S>(s: Seq<(String, ConnectionHandle<Q, S>)>, i: int)
    requires
        entries_unique(s),
        0 <= i < s.len(),
    ensures
        entries_map(s).contains_key((s[i]).0@),
        entries_map(s)[(s[i]).0@] == (s[i]).1,
    decreases s.len(),
{
    if i < s.len() - 1 {
        assert(entries_unique(s.drop_last())) by {
            assert(forall|a: int, b: int|
                0 <= a < b < s.len() - 1 ==> (#[trigger] s.drop_last()[a]).0@ != (
                #[trigger] s.drop_last()[b]).0@) by {
                assert(forall|a: int|
                    0 <= a < s.len() - 1 ==> #[trigger] s.drop_last()[a] == s[a]);
            }
        }
        lemma_entries_map_index(s.drop_last(), i);
        assert((s.drop_last()[i]) == s[i]);
        assert((s[i]).0@ != s.last().0@);
    }
}

proof fn lemma_entries_map_remove<Q, S>(s: Seq<(String, ConnectionHandle<Q, S>)>, i: int)
    requires
        entries_unique(s),
        0 <= i < s.len(),
    ensures
        entries_unique(s.remove(i)),
        entries_map(s.remove(i)) == entries_map(s).remove((s[i]).0@),
    decreases s.len(),
{
    let k = (s[i]).0@;
    assert(forall|a: int|
        0 <= a < s.len() - 1 ==> #[trigger] s.remove(i)[a] == (if a < i {
            s[a]
        } else {
            s[a + 1]
        }));
    assert(entries_unique(s.remove(i)));
    if i == s.len() - 1 {
        assert(s.remove(i) =~= s.drop_last());
        assert(!entries_map(s.drop_last()).contains_key(k)) by {
            lemma_entries_map_has_key(s.drop_last(), k);
            assert(forall|a: int|
                0 <= a < s.len() - 1 ==> (#[trigger] s.drop_last()[a]).0@ != k);
        }
        assert(entries_map(s.drop_last()) =~= entries_map(s).remove(k));
    } else {
        assert(entries_unique(s.drop_last())) by {
            assert(forall|a: int| 0 <= a < s.len() - 1 ==> #[trigger] s.drop_last()[a] == s[a]);
        }
        lemma_entries_map_remove(s.drop_last(), i);
        assert(s.remove(i).drop_last() =~= s.drop_last().remove(i));
        assert(s.remove(i).last() == s.last());
        assert(entries_map(s.remove(i)) == entries_map(s.drop_last().remove(i)).insert(
            s.last().0@,
            s.last().1,
        ));
        assert((s.last()).0@ != k);
        assert(entries_map(s.drop_last()).remove(k).insert(s.last().0@, s.last().1)
            =~= entries_map(s.drop_last()).insert(s.last().0@, s.last().1).remove(k));
    }
}

proof fn lemma_entries_map_push<Q, S>(
    s: Seq<(String, ConnectionHandle<Q, S>)>,
    id: String,
    h: ConnectionHandle<Q, S>,
)
    requires
        entries_unique(s),
        forall|j: int| 0 <= j < s.len() ==> (#[trigger] s[j]).0@ != id@,
    ensures
        entries_unique(s.push((id, h))),
        entries_map(s.push((id, h))) == entries_map(s).insert(id@, h),
{
    assert(s.push((id, h)).drop_last() =~= s);
    assert(s.push((id, h)).last() == (id, h));
    assert(forall|a: int| 0 <= a < s.len() ==> #[trigger] s.push((id, h))[a] == s[a]);
    assert(entries_unique(s.push((id, h))));
}

impl<Q, S> View for SocketState<Q, S> {
    type V = Map<Seq<char>, ConnectionHandle<Q, S>>;

    /// The mapping from identifier to live handle that the registry holds.
    closed spec fn view(&self) -> Map<Seq<char>, ConnectionHandle<Q, S>> {
        entries_map(self.connections@)
    }
}

impl<Q, S> SocketState<Q, S> {
    /// The registry never holds two entries for one identifier.
    pub closed spec fn wf(&self) -> bool {
        entries_unique(self.connections@)
    }

    /// An empty registry.
    pub fn new() -> (r: SocketState<Q, S>)
        ensures
            r@ == Map::<Seq<char>, ConnectionHandle<Q, S>>::empty(),
            r.wf(),
    {
        SocketState { connections: Vec::new() }
    }

    fn find_index(&self, client_id: &String) -> (r: Option<usize>)
        ensures
            match r {
                Some(i) => i < self.connections@.len() && (self.connections@[i as int]).0@
                    == client_id@,
                None => forall|i: int|
                    0 <= i < self.connections@.len() ==> (#[trigger] self.connections@[i]).0@
                        != client_id@,
            },
    {
        let n = self.connections.len();
        let mut i: usize = 0;
        while i < n
            invariant
                i <= n,
                n == self.connections@.len(),
                forall|j: int|
                    0 <= j < i ==> (#[trigger] self.connections@[j]).0@ != client_id@,
            decreases n - i,
        {
            if self.connections[i].0 == *client_id {
                return Some(i);
            }
            i = i + 1;
        }
        None
    }

    /// Insert a handle for `client_id` with a fresh queue sender and an
    /// unfired shutdown signal. A duplicate identifier silently replaces
    /// (and drops) the previous handle, orphaning its tasks.
    pub fn register(&mut self, client_id: String, write_tx: Q, shutdown_tx: S)
        requires
            old(self).wf(),
        ensures
            final(self).wf(),
            final(self)@ == old(self)@.insert(
                client_id@,
                (ConnectionHandle { write_tx, shutdown_tx: Some(shutdown_tx) }),
            ),
    {
        let handle = ConnectionHandle { write_tx, shutdown_tx: Some(shutdown_tx) };
        let ghost s0 = self.connections@;
        match self.find_index(&client_id) {
            Some(i) => {
                proof {
                    lemma_entries_map_remove(s0, i as int);
                }
                self.connections.remove(i);
                proof {
                    lemma_entries_map_push(self.connections@, client_id, handle);
                    assert(forall|j: int|
                        0 <= j < self.connections@.len() ==> #[trigger] self.connections@[j] == (
                        if j < i as int {
                            s0[j]
                        } else {
                            s0[j + 1]
                        }));
                    assert(forall|j: int|
                        0 <= j < self.connections@.len() ==> (#[trigger] self.connections@[j]).0@
                            != client_id@);
                    assert(entries_map(s0).remove(client_id@).insert(client_id@, handle)
                        =~= entries_map(s0).insert(client_id@, handle));
                }
                self.connections.push((client_id, handle));
            },
            None => {
                proof {
                    lemma_entries_map_push(self.connections@, client_id, handle);
                }
                self.connections.push((client_id, handle));
            },
        }
    }

    /// Remove and return the handle for `client_id`, if present.
    pub fn remove(&mut self, client_id: &String) -> (r: Option<ConnectionHandle<Q, S>>)
        requires
            old(self).wf(),
        ensures
            final(self).wf(),
            match r {
                Some(h) => old(self)@.contains_key(client_id@) && h == old(self)@[client_id@]
                    && final(self)@ == old(self)@.remove(client_id@),
                None => !old(self)@.contains_key(client_id@) && final(self)@ == old(self)@,
            },
    {
        let ghost s0 = self.connections@;
        match self.find_index(client_id) {
            Some(i) => {
                proof {
                    lemma_entries_map_index(s0, i as int);
                    lemma_entries_map_remove(s0, i as int);
                }
                let pair = self.connections.remove(i);
                Some(pair.1)
            },
            None => {
                proof {
                    lemma_entries_map_has_key(s0, client_id@);
                }
                None
            },
        }
    }

    /// Remove the entry for `client_id` and hand back its shutdown signal
    /// for the caller to fire. The signal is consumed with the entry, so a
    /// second disconnect with the same identifier finds nothing and fails
    /// with `UnknownConnection`.
    pub fn disconnect(&mut self, client_id: &String) -> (r: Result<Option<S>, SocketError>)
        requires
            old(self).wf(),
        ensures
            final(self).wf(),
            old(self)@.contains_key(client_id@) ==> r is Ok && r->Ok_0 == old(
                self,
            )@[client_id@].shutdown_tx && final(self)@ == old(self)@.remove(client_id@),
            !old(self)@.contains_key(client_id@) ==> r === Err(SocketError::UnknownConnection)
                && final(self)@ == old(self)@,
    {
        match self.remove(client_id) {
            Some(h) => Ok(h.shutdown_tx),
            None => Err(SocketError::UnknownConnection),
        }
    }

    /// The outbound queue sender for `client_id`, for the caller to clone
    /// and push on without holding the registry lock.
    pub fn lookup_sender(&self, client_id: &String) -> (r: Result<&Q, SocketError>)
        requires
            self.wf(),
        ensures
            self@.contains_key(client_id@) ==> r is Ok && *r->Ok_0 == self@[client_id@].write_tx,
            !self@.contains_key(client_id@) ==> r is Err && r->Err_0
                == SocketError::UnknownConnection,
    {
        match self.find_index(client_id) {
            Some(i) => {
                proof {
                    lemma_entries_map_index(self.connections@, i as int);
                }
                Ok(&self.connections[i].1.write_tx)
            },
            None => {
                proof {
                    lemma_entries_map_has_key(self.connections@, client_id@);
                }
                Err(SocketError::UnknownConnection)
            },
        }
    }

    /// Is a connection registered under `client_id`?
    pub fn contains(&self, client_id: &String) -> (r: bool)
        requires
            self.wf(),
        ensures
            r == self@.contains_key(client_id@),
    {
        proof {
            lemma_entries_map_has_key(self.connections@, client_id@);
        }
        match self.find_index(client_id) {
            Some(_) => true,
            None => false,
        }
    }
}

/// A registry that held an identifier no longer holds it after the removal
/// a successful disconnect performs; by `disconnect`'s contract the first
/// call on a registered identifier succeeds and the second fails with
/// `UnknownConnection`.
pub proof fn lemma_disconnect_idempotent<Q, S>(
    m: Map<Seq<char>, ConnectionHandle<Q, S>>,
    id: Seq<char>,
)
    requires
        m.contains_key(id),
    ensures
        !m.remove(id).contains_key(id),
{
}

/// One framed line delivered to the shell.
pub struct MessageData {
    pub data: Vec<u8>,
}

/// One event for the shell, mirroring the emitted payload: a framed
/// message, a transport error description, or a connection state change.
pub struct MessageEvent {
    pub message: Option<MessageData>,
    pub error: Option<String>,
    pub connected: Option<bool>,
}

/// An event tagged with the connection it concerns.
pub struct ReceivedPayload {
    pub id: String,
    pub event: MessageEvent,
}

/// `e` carries one framed message and nothing else.
pub open spec fn is_message_event(e: MessageEvent) -> bool {
    e.message is Some && e.error is None && e.connected is None
}

/// The frame bytes a message event carries.
pub open spec fn event_data(e: MessageEvent) -> Seq<u8> {
    e.message->0.data@
}

/// `e` reports a transport error with description `desc`, and nothing
/// else; the close that follows an error is announced by its own event.
pub open spec fn is_error_event(e: MessageEvent, desc: Seq<char>) -> bool {
    e.message is None && e.error is Some && e.error->0@ == desc && e.connected is None
}

/// `e` announces a graceful close.
pub open spec fn is_closed_event(e: MessageEvent) -> bool {
    e.message is None && e.error is None && e.connected == Some(false)
}

/// `e` announces a successful connect.
pub open spec fn is_connected_event(e: MessageEvent) -> bool {
    e.message is None && e.error is None && e.connected == Some(true)
}

/// The event emitted once after a successful connect.
pub fn connected_event(client_id: &String) -> (r: ReceivedPayload)
    ensures
        r.id@ == client_id@,
        is_connected_event(r.event),
{
    ReceivedPayload {
        id: client_id.clone(),
        event: MessageEvent { message: None, error: None, connected: Some(true) },
    }
}

/// What one turn of the read loop observed on the stream: `n > 0` bytes,
/// a zero-byte read (graceful close), or a read error.
pub enum ReadInput {
    Data(Vec<u8>),
    Closed,
    Failed(String),
}

/// What the read state machine decides for one observation: the events to
/// emit, in order, and whether the task is done — in which case the shell
/// removes this connection's registry entry and stops reading.
pub struct ReadStep {
    pub payloads: Vec<ReceivedPayload>,
    pub done: bool,
}

/// The frame bytes of a sequence of message payloads.
pub open spec fn payload_frames(ps: Seq<ReceivedPayload>) -> Seq<Seq<u8>> {
    ps.map_values(|p: ReceivedPayload| event_data(p.event))
}

/// One step of the read state machine.
///
/// On data, the decoder re-assembles complete frames and each becomes one
/// message event, in arrival order. On a graceful close, any unterminated
/// remainder is flushed as a final message event, then the close is
/// announced — exactly one close announcement per terminal step. On a read
/// error, an event carrying the description is emitted, then the close is
/// announced; no retry happens at this layer.
pub fn read_step(client_id: &String, decoder: &mut FrameDecoder, input: ReadInput) -> (r: ReadStep)
    requires
        old(decoder).wf(),
    ensures
        final(decoder).wf(),
        forall|j: int|
            0 <= j < r.payloads@.len() ==> (#[trigger] r.payloads@[j]).id@ == client_id@,
        (input matches ReadInput::Data(d) ==> {
            &&& r.done == false
            &&& forall|j: int|
                0 <= j < r.payloads@.len() ==> is_message_event(
                    (#[trigger] r.payloads@[j]).event,
                ) && is_frame(event_data(r.payloads@[j].event))
            &&& payload_frames(r.payloads@).flatten() + final(decoder)@ == old(decoder)@ + d@
        }),
        (input matches ReadInput::Closed ==> {
            &&& r.done == true
            &&& final(decoder)@ == Seq::<u8>::empty()
            &&& if old(decoder)@.len() > 0 {
                r.payloads@.len() == 2 && is_message_event(r.payloads@[0].event) && event_data(
                    r.payloads@[0].event,
                ) == old(decoder)@ && is_closed_event(r.payloads@[1].event)
            } else {
                r.payloads@.len() == 1 && is_closed_event(r.payloads@[0].event)
            }
        }),
        (input matches ReadInput::Failed(desc) ==> {
            &&& r.done == true
            &&& final(decoder)@ == old(decoder)@
            &&& r.payloads@.len() == 2
            &&& is_error_event(r.payloads@[0].event, desc@)
            &&& is_closed_event(r.payloads@[1].event)
        }),
{
    match input {
        ReadInput::Data(d) => {
            let mut frames = decoder.feed(d.as_slice());
            let ghost all_frames = frames@;
            let mut payloads: Vec<ReceivedPayload> = Vec::new();
            proof {
                assert(payload_frames(payloads@) =~= Seq::<Seq<u8>>::empty());
                assert(payload_frames(payloads@) + frame_views(frames@) =~= frame_views(all_frames));
            }
            while frames.len() > 0
                invariant
                    payload_frames(payloads@) + frame_views(frames@) == frame_views(all_frames),
                    forall|k: int|
                        0 <= k < frames@.len() ==> is_frame(#[trigger] frames@[k]@),
                    forall|j: int|
                        0 <= j < payloads@.len() ==> (#[trigger] payloads@[j]).id@ == client_id@
                            && is_message_event(payloads@[j].event) && is_frame(event_data(
                            payloads@[j].event,
                        )),
                decreases frames@.len(),
            {
                let ghost fs = frames@;
                let ghost ps = payloads@;
                let f = frames.remove(0);
                payloads.push(
                    ReceivedPayload {
                        id: client_id.clone(),
                        event: MessageEvent {
                            message: Some(MessageData { data: f }),
                            error: None,
                            connected: None,
                        },
                    },
                );
                proof {
                    assert(frames@ =~= fs.remove(0));
                    assert(payload_frames(payloads@) =~= payload_frames(ps).push(fs[0]@));
                    assert(frame_views(fs) =~= frame_views(fs).subrange(0, 1) + frame_views(
                        frames@,
                    ));
                    assert(payload_frames(payloads@) + frame_views(frames@) =~= frame_views(
                        all_frames,
                    ));
                }
            }
            proof {
                assert(frame_views(frames@) =~= Seq::<Seq<u8>>::empty());
                assert(payload_frames(payloads@) =~= frame_views(all_frames));
            }
            ReadStep { payloads, done: false }
        },
        ReadInput::Closed => {
            let mut payloads: Vec<ReceivedPayload> = Vec::new();
            match decoder.finish() {
                Some(rem) => {
                    payloads.push(
                        ReceivedPayload {
                            id: client_id.clone(),
                            event: MessageEvent {
                                message: Some(MessageData { data: rem }),
                                error: None,
                                connected: None,
                            },
                        },
                    );
                },
                None => {},
            }
            payloads.push(
                ReceivedPayload {
                    id: client_id.clone(),
                    event: MessageEvent { message: None, error: None, connected: Some(false) },
                },
            );
            ReadStep { payloads, done: true }
        },
        ReadInput::Failed(desc) => {
            let mut payloads: Vec<ReceivedPayload> = Vec::new();
            payloads.push(
                ReceivedPayload {
                    id: client_id.clone(),
                    event: MessageEvent { message: None, error: Some(desc), connected: None },
                },
            );
            payloads.push(
                ReceivedPayload {
                    id: client_id.clone(),
                    event: MessageEvent { message: None, error: None, connected: Some(false) },
                },
            );
            ReadStep { payloads, done: true }
        },
    }
}

/// What one turn of the write loop observed: a payload from the outbound
/// queue, a failed write or flush of the previous line (the description is
/// what the shell logs), or the shutdown signal.
pub enum WriteInput {
    Payload(String),
    Failed(String),
    Shutdown,
}

/// What the write task does next: write the terminated line and flush,
/// then wait again; shut the stream down (best effort) and stop; or stop
/// without touching the stream — the connection is dead on the write side,
/// though the read task is unaffected.
pub enum WriteAction {
    Write(String),
    Shutdown,
    Stop,
}

/// One step of the write state machine: a queued payload is written with
/// the line terminator appended exactly once — even when the caller already
/// included it; a write or flush failure is terminal, with no retry; and
/// the shutdown signal ends the task with an orderly stream shutdown.
pub fn write_step(input: WriteInput) -> (r: WriteAction)
    ensures
        (input matches WriteInput::Payload(d) ==> r matches WriteAction::Write(w) && w@
            == spec_with_crlf(d@)),
        (input is Failed ==> r == WriteAction::Stop),
        (input matches WriteInput::Shutdown ==> r == WriteAction::Shutdown),
{
    match input {
        WriteInput::Payload(d) => WriteAction::Write(ensure_crlf(d)),
        WriteInput::Failed(_) => WriteAction::Stop,
        WriteInput::Shutdown => WriteAction::Shutdown,
    }
}

} // verus!
