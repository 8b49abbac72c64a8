//! The decisions of one connection bridge.
//!
//! A bridge joins a frame transport to two queues: inbound (decoded messages
//! and errors, for the application) and outbound (messages from the
//! application, for the transport). Whatever runs the bridge hands every
//! happening to `Bridge::step` as an `Event` and carries out the `Action` it
//! returns. The bridge runs until either direction ends, and then refuses
//! everything.

use vstd::prelude::*;
use crate::json::{Json, json_text};
use crate::message::{
    BridgeError, Message, MessageView, decode, encode, encodes, message_of_text, message_of_json,
    lemma_round_trip,
};

verus! {

/// What happened on the transport or on the outbound queue.
#[derive(Debug)]
pub enum Event {
    /// A text frame was read from the transport.
    TextFrame(String),
    /// A frame of another kind (binary, ping, pong, close) was read.
    OtherFrame,
    /// Reading from the transport failed.
    ReadFailed(String),
    /// The transport has no more frames: the peer closed it.
    PeerClosed,
    /// The application put a message on the outbound queue.
    Submitted(Message),
    /// The application put an error on the outbound queue.
    UpstreamFailed(String),
    /// Writing a frame to the transport failed.
    WriteFailed,
    /// The application dropped the outbound queue.
    OutboundDropped,
}

/// What to do about an event.
#[derive(Debug)]
pub enum Action {
    /// Put this entry on the inbound queue.
    Deliver(Result<Message, BridgeError>),
    /// Write this text frame to the transport.
    Write(String),
    /// Drop the frame.
    Discard,
    /// End the bridge: put the entry, if any, on the inbound queue, then close
    /// both queues.
    Close(Option<BridgeError>),
    /// The bridge has ended; the event is refused.
    Rejected,
}

/// One connection bridge: running, or ended for good.
pub struct Bridge {
    running: bool,
}

impl View for Bridge {
    type V = bool;

    /// Whether the bridge is still running.
    closed spec fn view(&self) -> bool {
        self.running
    }
}

/// `e` is the inbound entry for a text frame that decodes to `d`.
pub open spec fn delivers(e: Result<Message, BridgeError>, d: Option<MessageView>) -> bool {
    match d {
        Some(m) => e is Ok && e->Ok_0@ == m,
        None => e is Err && e->Err_0 is MalformedMessage,
    }
}

/// `t` is the text frame written for message `m`.
pub open spec fn writes(t: String, m: MessageView) -> bool {
    exists|j: Json| encodes(m, j) && t@ == json_text(j)
}

/// Whether the bridge still runs after `ev`: only frames and submitted
/// messages keep it running.
pub open spec fn next_running(running: bool, ev: Event) -> bool {
    running && (ev is TextFrame || ev is OtherFrame || ev is Submitted)
}

/// `act` is the action a bridge that is `running` takes on `ev`.
pub open spec fn step_ok(running: bool, ev: Event, act: Action) -> bool {
    if !running {
        act is Rejected
    } else {
        match ev {
            Event::TextFrame(t) => act is Deliver && delivers(act->Deliver_0, message_of_text(t@)),
            Event::OtherFrame => act is Discard,
            Event::ReadFailed(e) => act == Action::Close(
                Some(BridgeError::TransportReadFailure(e)),
            ),
            Event::Submitted(m) => act is Write && writes(act->Write_0, m@),
            _ => act == Action::Close(None),
        }
    }
}

/// `acts` are the actions of a bridge that starts `running` and is handed
/// `evs` one by one.
pub open spec fn trace_ok(running: bool, evs: Seq<Event>, acts: Seq<Action>) -> bool
    decreases evs.len(),
{
    if evs.len() == 0 {
        acts.len() == 0
    } else {
        &&& acts.len() == evs.len()
        &&& step_ok(running, evs[0], acts[0])
        &&& trace_ok(next_running(running, evs[0]), evs.drop_first(), acts.drop_first())
    }
}

/// Whether a bridge that starts `running` still runs after `evs`.
pub open spec fn running_after(running: bool, evs: Seq<Event>) -> bool
    decreases evs.len(),
{
    if evs.len() == 0 {
        running
    } else {
        running_after(next_running(running, evs[0]), evs.drop_first())
    }
}

/// The entries that `acts` put on the inbound queue, in order.
pub open spec fn inbound_entries(acts: Seq<Action>) -> Seq<Result<Message, BridgeError>>
    decreases acts.len(),
{
    if acts.len() == 0 {
        Seq::empty()
    } else {
        let rest = inbound_entries(acts.drop_first());
        match acts[0] {
            Action::Deliver(e) => seq![e] + rest,
            Action::Close(Some(e)) => seq![Err(e)] + rest,
            _ => rest,
        }
    }
}

/// The frames that `acts` write to the transport, in order.
pub open spec fn written(acts: Seq<Action>) -> Seq<String>
    decreases acts.len(),
{
    if acts.len() == 0 {
        Seq::empty()
    } else {
        let rest = written(acts.drop_first());
        match acts[0] {
            Action::Write(t) => seq![t] + rest,
            _ => rest,
        }
    }
}

impl Bridge {
    /// A bridge that has just started.
    pub fn new() -> (r: Bridge)
        ensures
            r@,
    {
        Bridge { running: true }
    }

    pub fn is_running(&self) -> (r: bool)
        ensures
            r == self@,
    {
        self.running
    }

    /// Decides what to do about one event. A text frame is decoded and its
    /// result, message or error, delivered; other frames are dropped; a
    /// submitted message is encoded and written. A read failure delivers its
    /// error and ends the bridge; the peer closing, an upstream error, a write
    /// failure or the outbound queue being dropped end it with nothing
    /// delivered (an upstream error's cause is not kept). Once ended, the
    /// bridge refuses every event.
    pub fn step(&mut self, ev: Event) -> (act: Action)
        ensures
            step_ok(old(self)@, ev, act),
            final(self)@ == next_running(old(self)@, ev),
    {
        if !self.running {
            return Action::Rejected;
        }
        match ev {
            Event::TextFrame(t) => Action::Deliver(decode(t.as_str())),
            Event::OtherFrame => Action::Discard,
            Event::ReadFailed(e) => {
                self.running = false;
                Action::Close(Some(BridgeError::TransportReadFailure(e)))
            },
            Event::Submitted(m) => Action::Write(encode(m)),
            _ => {
                self.running = false;
                Action::Close(None)
            },
        }
    }
}


proof fn lemma_unfold_two(r: bool, evs: Seq<Event>, acts: Seq<Action>)
    requires
        evs.len() >= 1,
        trace_ok(r, evs, acts),
    ensures
        acts.len() == evs.len(),
        step_ok(r, evs[0], acts[0]),
        trace_ok(next_running(r, evs[0]), evs.drop_first(), acts.drop_first()),
        running_after(r, evs) == running_after(next_running(r, evs[0]), evs.drop_first()),
{
}

/// A malformed text frame does not end the connection: after one malformed
/// and one well-formed text frame, the inbound queue holds exactly an error
/// and then the decoded message, and the bridge still runs.
pub proof fn lemma_malformed_frame_contained(a: String, b: String, acts: Seq<Action>)
    requires
        message_of_text(a@) is None,
        message_of_text(b@) is Some,
        trace_ok(true, seq![Event::TextFrame(a), Event::TextFrame(b)], acts),
    ensures
        inbound_entries(acts).len() == 2,
        inbound_entries(acts)[0] is Err,
        inbound_entries(acts)[0]->Err_0 is MalformedMessage,
        inbound_entries(acts)[1] is Ok,
        inbound_entries(acts)[1]->Ok_0@ == message_of_text(b@)->0,
        running_after(true, seq![Event::TextFrame(a), Event::TextFrame(b)]),
{
    let evs = seq![Event::TextFrame(a), Event::TextFrame(b)];
    lemma_unfold_two(true, evs, acts);
    let evs1 = evs.drop_first();
    let acts1 = acts.drop_first();
    lemma_unfold_two(true, evs1, acts1);
    assert(evs1.drop_first().len() == 0);
    assert(acts1.drop_first().len() == 0);
    assert(inbound_entries(acts1.drop_first()) =~= Seq::empty());
    assert(inbound_entries(acts1) =~= seq![acts1[0]->Deliver_0]);
    assert(inbound_entries(acts) =~= seq![acts[0]->Deliver_0, acts1[0]->Deliver_0]);
}

/// A frame that is not text puts nothing on the inbound queue: with one
/// between two text frames, only the two text frames' entries appear, in
/// order.
pub proof fn lemma_other_frame_discarded(a: String, b: String, acts: Seq<Action>)
    requires
        trace_ok(true, seq![Event::TextFrame(a), Event::OtherFrame, Event::TextFrame(b)], acts),
    ensures
        inbound_entries(acts).len() == 2,
        delivers(inbound_entries(acts)[0], message_of_text(a@)),
        delivers(inbound_entries(acts)[1], message_of_text(b@)),
{
    let evs = seq![Event::TextFrame(a), Event::OtherFrame, Event::TextFrame(b)];
    lemma_unfold_two(true, evs, acts);
    let evs1 = evs.drop_first();
    let acts1 = acts.drop_first();
    lemma_unfold_two(true, evs1, acts1);
    let evs2 = evs1.drop_first();
    let acts2 = acts1.drop_first();
    lemma_unfold_two(true, evs2, acts2);
    assert(acts2.drop_first().len() == 0);
    assert(inbound_entries(acts2.drop_first()) =~= Seq::empty());
    assert(inbound_entries(acts2) =~= seq![acts2[0]->Deliver_0]);
    assert(inbound_entries(acts1) =~= seq![acts2[0]->Deliver_0]);
    assert(inbound_entries(acts) =~= seq![acts[0]->Deliver_0, acts2[0]->Deliver_0]);
}

/// The events that submit `ms` one after another.
pub open spec fn submissions(ms: Seq<Message>) -> Seq<Event> {
    Seq::new(ms.len(), |i: int| Event::Submitted(ms[i]))
}

/// `t` is the JSON text of a value that encodes `m` and decodes back to it.
pub open spec fn frame_decodes_to(t: String, m: MessageView) -> bool {
    exists|j: Json| encodes(m, j) && t@ == json_text(j) && message_of_json(j) == Some(m)
}

/// Submitted notifications are written in submission order, one frame each,
/// and each frame is the JSON text of a value that decodes back to its
/// notification.
pub proof fn lemma_outbound_order(ms: Seq<Message>, acts: Seq<Action>)
    requires
        forall|i: int| 0 <= i < ms.len() ==> (#[trigger] ms[i])@ is Notification,
        trace_ok(true, submissions(ms), acts),
    ensures
        written(acts).len() == ms.len(),
        running_after(true, submissions(ms)),
        forall|i: int|
            0 <= i < ms.len() ==> frame_decodes_to(#[trigger] written(acts)[i], ms[i]@),
    decreases ms.len(),
{
    let evs = submissions(ms);
    if ms.len() > 0 {
        lemma_unfold_two(true, evs, acts);
        let rest = ms.drop_first();
        assert(evs.drop_first() =~= submissions(rest));
        lemma_outbound_order(rest, acts.drop_first());
        let w = written(acts);
        assert(w =~= seq![acts[0]->Write_0] + written(acts.drop_first()));
        assert forall|i: int| 0 <= i < ms.len() implies frame_decodes_to(
            #[trigger] written(acts)[i],
            ms[i]@,
        ) by {
            if i == 0 {
                assert(evs[0] == Event::Submitted(ms[0]));
                assert(writes(acts[0]->Write_0, ms[0]@));
                let j = choose|j: Json| encodes(ms[0]@, j) && acts[0]->Write_0@ == json_text(j);
                lemma_round_trip(ms[0]@, j);
                assert(w[0] == acts[0]->Write_0);
            } else {
                assert(rest[i - 1] == ms[i]);
                assert(w[i] == written(acts.drop_first())[i - 1]);
            }
        }
    }
}

proof fn lemma_ended_refuses(evs: Seq<Event>, acts: Seq<Action>)
    requires
        trace_ok(false, evs, acts),
    ensures
        forall|k: int| 0 <= k < acts.len() ==> #[trigger] acts[k] is Rejected,
        inbound_entries(acts) == Seq::<Result<Message, BridgeError>>::empty(),
        written(acts) == Seq::<String>::empty(),
    decreases evs.len(),
{
    if evs.len() > 0 {
        lemma_ended_refuses(evs.drop_first(), acts.drop_first());
        assert forall|k: int| 0 <= k < acts.len() implies #[trigger] acts[k] is Rejected by {
            if k > 0 {
                assert(acts[k] == acts.drop_first()[k - 1]);
            }
        }
    }
}

proof fn lemma_trace_split(r: bool, a: Seq<Event>, b: Seq<Event>, acts: Seq<Action>)
    requires
        trace_ok(r, a + b, acts),
    ensures
        acts.len() == a.len() + b.len(),
        trace_ok(r, a, acts.take(a.len() as int)),
        trace_ok(running_after(r, a), b, acts.skip(a.len() as int)),
        inbound_entries(acts) == inbound_entries(acts.take(a.len() as int)) + inbound_entries(
            acts.skip(a.len() as int),
        ),
    decreases a.len(),
{
    if a.len() == 0 {
        assert(a + b =~= b);
        assert(acts.skip(0) =~= acts);
        assert(acts.take(0) =~= Seq::<Action>::empty());
        assert(inbound_entries(acts.take(0)) =~= Seq::empty());
        if b.len() == 0 {
            assert(acts.len() == 0);
        }
    } else {
        assert((a + b).drop_first() =~= a.drop_first() + b);
        lemma_trace_split(next_running(r, a[0]), a.drop_first(), b, acts.drop_first());
        let n = a.len() as int;
        assert(acts.take(n).drop_first() =~= acts.drop_first().take(n - 1));
        assert(acts.skip(n) =~= acts.drop_first().skip(n - 1));
        assert(acts.take(n)[0] == acts[0]);
        assert(inbound_entries(acts) =~= inbound_entries(acts.take(n)) + inbound_entries(
            acts.skip(n),
        ));
    }
}

/// When the peer closes the transport, the bridge ends: the close is
/// answered by closing both queues, nothing more reaches the inbound queue,
/// and every later event, a submitted message included, is refused.
pub proof fn lemma_peer_close_ends_bridge(pre: Seq<Event>, post: Seq<Event>, acts: Seq<Action>)
    requires
        running_after(true, pre),
        trace_ok(true, pre + seq![Event::PeerClosed] + post, acts),
    ensures
        acts[pre.len() as int] == Action::Close(None),
        !running_after(true, pre + seq![Event::PeerClosed] + post),
        forall|k: int| pre.len() < k < acts.len() ==> #[trigger] acts[k] is Rejected,
        inbound_entries(acts) == inbound_entries(acts.take(pre.len() as int)),
{
    let c = seq![Event::PeerClosed];
    let n = pre.len() as int;
    assert(pre + c + post =~= pre + (c + post));
    lemma_trace_split(true, pre, c + post, acts);
    let tail = acts.skip(n);
    lemma_unfold_two(true, c + post, tail);
    assert((c + post)[0] == Event::PeerClosed);
    assert((c + post).drop_first() =~= post);
    lemma_ended_refuses(post, tail.drop_first());
    assert forall|k: int| pre.len() < k < acts.len() implies #[trigger] acts[k] is Rejected by {
        assert(acts[k] == tail.drop_first()[k - n - 1]);
    }
    assert(inbound_entries(tail) =~= Seq::empty());
    assert(inbound_entries(acts) =~= inbound_entries(acts.take(n)));
    lemma_running_after_split(true, pre, c + post);
    lemma_ended_stays(post);
}

proof fn lemma_running_after_split(r: bool, a: Seq<Event>, b: Seq<Event>)
    ensures
        running_after(r, a + b) == running_after(running_after(r, a), b),
    decreases a.len(),
{
    if a.len() == 0 {
        assert(a + b =~= b);
    } else {
        assert((a + b).drop_first() =~= a.drop_first() + b);
        lemma_running_after_split(next_running(r, a[0]), a.drop_first(), b);
    }
}

proof fn lemma_ended_stays(evs: Seq<Event>)
    ensures
        !running_after(false, evs),
    decreases evs.len(),
{
    if evs.len() > 0 {
        lemma_ended_stays(evs.drop_first());
    }
}

} // verus!
