//! The composition root and its cooperative control loop. The engine owns
//! the relays' state, the subscriptions, the outbox and the UI feed; what it
//! decides to do outside (open a socket, transmit a frame, write to the
//! store) is queued for the embedder to perform.
use vstd::prelude::*;
use crate::error::CoreError;
use crate::json::{decode_event_fields, json_event_fields, json_quoted, quote_json, EventFieldsView};
use crate::outbox::{ok_items, ok_writes, OutboxQueue};
use crate::relay::{event_frame_text, reconnect_due, req_text, ConnectionState, Frame, MessageView, RelayConnection, RelayMessage, RelayView};
use crate::signer::{InternalSigner, SignedEvent, UnsignedEvent};
use crate::subscription::{eose_reissue, eose_subs, SubView, SubscriptionManager};
use crate::types::{ops_view, rows_view, OpView, StorageOp, UiRow, UiRowView};

verus! {

/// Event kind of a channel creation.
pub const KIND_CHANNEL_CREATE: u16 = 40;

/// Event kind of a channel message.
pub const KIND_CHANNEL_MESSAGE: u16 = 42;

/// Event kind of an encrypted direct message.
pub const KIND_DIRECT_MESSAGE: u16 = 4;

pub open spec fn relays_view(v: Seq<RelayConnection>) -> Seq<RelayView> {
    v.map_values(|r: RelayConnection| r@)
}

pub open spec fn sends_view(v: Seq<(usize, String)>) -> Seq<(int, Seq<char>)> {
    v.map_values(|p: (usize, String)| (p.0 as int, p.1@))
}

pub open spec fn indices_view(v: Seq<usize>) -> Seq<int> {
    v.map_values(|i: usize| i as int)
}

/// The transmissions of `text` to the connected relays among the first `n`,
/// in relay order.
pub open spec fn sends_to(relays: Seq<RelayView>, text: Seq<char>, n: int) -> Seq<(int, Seq<char>)>
    decreases n,
{
    if n <= 0 {
        Seq::empty()
    } else {
        let s = sends_to(relays, text, n - 1);
        if relays[n - 1].state == ConnectionState::Connected { s.push((n - 1, text)) } else { s }
    }
}

/// The transmissions of a broadcast of `text`: one to each connected relay,
/// in relay order.
pub open spec fn broadcast_sends(relays: Seq<RelayView>, text: Seq<char>) -> Seq<(int, Seq<char>)> {
    sends_to(relays, text, relays.len() as int)
}

/// The relays whose reconnect is due among the first `n`, in order.
pub open spec fn due_to(relays: Seq<RelayView>, now: int, n: int) -> Seq<int>
    decreases n,
{
    if n <= 0 {
        Seq::empty()
    } else {
        let s = due_to(relays, now, n - 1);
        if reconnect_due(relays[n - 1], now) && relays[n - 1].state == ConnectionState::Disconnected { s.push(n - 1) } else { s }
    }
}

/// The disconnected relays among the first `n`, in order.
pub open spec fn disconnected_to(relays: Seq<RelayView>, n: int) -> Seq<int>
    decreases n,
{
    if n <= 0 {
        Seq::empty()
    } else {
        let s = disconnected_to(relays, n - 1);
        if relays[n - 1].state == ConnectionState::Disconnected { s.push(n - 1) } else { s }
    }
}

/// A relay after the reconnect check of a tick at `now`.
pub open spec fn reconnected(r: RelayView, now: int) -> RelayView {
    if reconnect_due(r, now) && r.state == ConnectionState::Disconnected {
        RelayView { state: ConnectionState::Connecting, last_attempt: now, ..r }
    } else {
        r
    }
}

/// Whether an inbound event carries what the engine reads: a string id,
/// pubkey and content, a signed time and a 16-bit kind.
pub open spec fn well_formed(f: EventFieldsView) -> bool {
    f.id is Some && f.pubkey is Some && f.content is Some && f.created_at is Some
        && f.kind is Some && f.kind->0 <= u16::MAX
}

/// The fields of an inbound event's JSON when it parses and is well formed;
/// none otherwise (such an event is dropped).
pub open spec fn accepted_fields(event_json: Seq<char>) -> Option<EventFieldsView> {
    match json_event_fields(event_json) {
        Some(f) => if well_formed(f) { Some(f) } else { None },
        None => None,
    }
}

/// The id under which an inbound event is stored.
pub open spec fn stored_id(f: EventFieldsView) -> Seq<char> {
    f.id->0
}

/// The UI row of an inbound event.
pub open spec fn row_of(f: EventFieldsView) -> UiRowView {
    UiRowView {
        id: f.id->0,
        kind: f.kind->0 as u16,
        pubkey: f.pubkey->0,
        created_at: f.created_at->0,
        content: f.content->0,
        image_url: None,
    }
}

/// The content of a channel creation: the JSON object of its name, about
/// text and picture, members in sorted order.
pub open spec fn channel_metadata_text(name: Seq<char>, about: Seq<char>, picture: Seq<char>) -> Seq<char> {
    "{\"about\":"@ + json_quoted(about) + ",\"name\":"@ + json_quoted(name) + ",\"picture\":"@ + json_quoted(picture) + "}"@
}

/// What happened on a relay's socket.
#[derive(Debug, Clone, Copy, PartialEq, Eq, Structural)]
pub enum SocketEvent {
    Opened,
    Closed,
    Message,
}

/// The engine's state after it handles one inbound message at `now`: an
/// event with a new id is saved and appended to the feed; an
/// end-of-stored-events signal counts on its subscription and, when the
/// window widens, the new REQ is broadcast; an acknowledgement goes to the
/// outbox (an accepted one carries no message); anything else changes
/// nothing.
pub open spec fn dispatch_one(v: CoreView, m: MessageView, now: int) -> CoreView {
    match m {
        MessageView::Event { event_json, .. } => match accepted_fields(event_json) {
            Some(f) => if v.saved.contains(stored_id(f)) {
                v
            } else {
                CoreView {
                    saved: v.saved.insert(stored_id(f)),
                    writes: v.writes.push(OpView::SaveEvent { event_id: stored_id(f), event_json }),
                    feed: v.feed.push(row_of(f)),
                    ..v
                }
            },
            None => v,
        },
        MessageView::Eose { sub_id } => CoreView {
            subs: eose_subs(v.subs, sub_id, now),
            sends: match eose_reissue(v.subs, sub_id, now) {
                Some(filter) => v.sends + broadcast_sends(v.relays, req_text(sub_id, filter)),
                None => v.sends,
            },
            ..v
        },
        MessageView::Ack { event_id, accepted, message } => {
            let m = if accepted { Seq::empty() } else { message };
            CoreView {
                outbox: ok_items(v.outbox, event_id, accepted, m),
                writes: v.writes + ok_writes(v.outbox, event_id, accepted, m),
                ..v
            }
        },
        MessageView::Notice { .. } => v,
    }
}

/// The engine's state after it handles the messages in order.
pub open spec fn dispatch_all(v: CoreView, msgs: Seq<MessageView>, now: int) -> CoreView
    decreases msgs.len(),
{
    if msgs.len() == 0 {
        v
    } else {
        dispatch_one(dispatch_all(v, msgs.drop_last(), now), msgs.last(), now)
    }
}

/// The messages queued on the relays, relay by relay, each in arrival order.
pub open spec fn drained(rs: Seq<RelayView>) -> Seq<MessageView>
    decreases rs.len(),
{
    if rs.len() == 0 {
        Seq::empty()
    } else {
        drained(rs.drop_last()) + rs.last().queue
    }
}

/// The engine's state after the reconnect check and the draining of a tick
/// at `now`.
pub open spec fn reconnected_and_drained(v: CoreView, now: int) -> CoreView {
    CoreView {
        relays: Seq::new(v.relays.len(), |i: int| RelayView { queue: Seq::empty(), ..reconnected(v.relays[i], now) }),
        connects: v.connects + due_to(v.relays, now, v.relays.len() as int),
        ..v
    }
}

/// The engine's state after the outbox head, when queued, is broadcast.
pub open spec fn head_broadcast(v: CoreView) -> CoreView {
    if v.outbox.len() > 0 && v.outbox[0].status == crate::types::OutboxStatus::Queued {
        CoreView { sends: v.sends + broadcast_sends(v.relays, event_frame_text(v.outbox[0].event_json)), ..v }
    } else {
        v
    }
}

/// The engine's state after one tick at `now`.
pub open spec fn ticked(v: CoreView, now: int) -> CoreView {
    head_broadcast(dispatch_all(reconnected_and_drained(v, now), drained(v.relays), now))
}

proof fn lemma_drained_queues(a: Seq<RelayView>, b: Seq<RelayView>)
    requires
        a.len() == b.len(),
        forall|i: int| 0 <= i < a.len() ==> #[trigger] a[i].queue == b[i].queue,
    ensures
        drained(a) == drained(b),
    decreases a.len(),
{
    if a.len() > 0 {
        lemma_drained_queues(a.drop_last(), b.drop_last());
    }
}

/// A queued outbox entry for `event_json`, enqueued at `now`.
pub open spec fn queued_item(req_id: Seq<char>, event_json: Seq<char>, now: int) -> crate::types::ItemView {
    crate::types::ItemView {
        req_id,
        event_json,
        status: crate::types::OutboxStatus::Queued,
        last_try_at: now,
        retry_count: 0,
        error: None,
    }
}

/// Whether `after` is `before` with an event signed by `before`'s signer
/// queued under `req_id` at `now`: its id is `id`, the NIP-01 id of the
/// event's fields, and the entry holds the event's JSON with a signature
/// that verifies under the signer's public key.
pub open spec fn signed_and_queued(
    before: CoreView,
    after: CoreView,
    req_id: Seq<char>,
    now: int,
    created_at: int,
    kind: u16,
    tags: Seq<Seq<Seq<char>>>,
    content: Seq<char>,
    id: Seq<char>,
) -> bool {
    let pk = crate::signer::public_key_hex(before.signer->0);
    &&& before.signer is Some
    &&& id == crate::signer::event_id_of(pk, created_at, kind as int, tags, content)
    &&& exists|sig: Seq<char>| {
        let it = #[trigger] queued_item(req_id, crate::signer::event_text(id, pk, created_at, kind as int, tags, content, sig), now);
        &&& crate::signer::schnorr_verifies(pk, id, sig)
        &&& after == (CoreView { outbox: before.outbox.push(it), writes: before.writes.push(OpView::PutOutboxItem(it)), ..before })
    }
}

/// The tags of a direct message to `peer`.
pub open spec fn dm_tags(peer: Seq<char>) -> Seq<Seq<Seq<char>>> {
    seq![seq!["p"@, peer]]
}

/// The transmissions of the REQs of (subscription id, filter) pairs, in
/// order, each broadcast to the connected relays.
pub open spec fn pairs_sends(relays: Seq<RelayView>, pairs: Seq<(Seq<char>, Seq<char>)>) -> Seq<(int, Seq<char>)>
    decreases pairs.len(),
{
    if pairs.len() == 0 {
        Seq::empty()
    } else {
        pairs_sends(relays, pairs.drop_last()) + broadcast_sends(relays, req_text(pairs.last().0, pairs.last().1))
    }
}

pub ghost struct CoreView {
    pub relays: Seq<RelayView>,
    pub subs: Map<Seq<char>, SubView>,
    pub outbox: Seq<crate::types::ItemView>,
    pub feed: Seq<UiRowView>,
    pub saved: Set<Seq<char>>,
    pub sends: Seq<(int, Seq<char>)>,
    pub connects: Seq<int>,
    pub writes: Seq<OpView>,
    pub signer: Option<Seq<char>>,
}

/// The engine.
pub struct CoreHandle {
    relays: Vec<RelayConnection>,
    sub_mgr: SubscriptionManager,
    outbox: OutboxQueue,
    signer: Option<InternalSigner>,
    event_buffer: Vec<UiRow>,
    saved_ids: Vec<String>,
    sends: Vec<(usize, String)>,
    connects: Vec<usize>,
    writes: Vec<StorageOp>,
}

pub open spec fn ids_set(v: Seq<String>) -> Set<Seq<char>> {
    Set::new(|k: Seq<char>| exists|i: int| 0 <= i < v.len() && #[trigger] v[i]@ == k)
}

/// The event ids of the store writes that save events.
pub open spec fn saved_by(w: Seq<OpView>) -> Seq<Seq<char>>
    decreases w.len(),
{
    if w.len() == 0 {
        Seq::empty()
    } else {
        let s = saved_by(w.drop_last());
        match w.last() {
            OpView::SaveEvent { event_id, .. } => s.push(event_id),
            _ => s,
        }
    }
}

impl View for CoreHandle {
    type V = CoreView;

    closed spec fn view(&self) -> CoreView {
        CoreView {
            relays: relays_view(self.relays@),
            subs: self.sub_mgr@,
            outbox: self.outbox@.items,
            feed: rows_view(self.event_buffer@),
            saved: ids_set(self.saved_ids@),
            sends: sends_view(self.sends@),
            connects: indices_view(self.connects@),
            writes: ops_view(self.writes@),
            signer: match self.signer {
                Some(s) => Some(s.secret()),
                None => None,
            },
        }
    }
}

impl CoreHandle {
    pub closed spec fn wf(&self) -> bool {
        &&& forall|i: int| 0 <= i < self.relays@.len() ==> (#[trigger] self.relays@[i]).wf()
        &&& self.sub_mgr.wf()
        &&& self.outbox.wf()
        &&& self.outbox@.writes.len() == 0
        &&& match self.signer {
            Some(s) => s.wf(),
            None => true,
        }
    }

    /// An engine with one disconnected relay per URL and nothing else.
    pub fn init(relay_urls: Vec<String>) -> (r: Self)
        ensures
            r.wf(),
            r@.relays.len() == relay_urls@.len(),
            forall|i: int| 0 <= i < relay_urls@.len() ==> (#[trigger] r@.relays[i]).url == relay_urls@[i]@
                && r@.relays[i].state == ConnectionState::Disconnected,
            r@.subs.is_empty(),
            r@.outbox.len() == 0,
            r@.feed.len() == 0,
            r@.saved.is_empty(),
            r@.sends.len() == 0,
            r@.connects.len() == 0,
            r@.writes.len() == 0,
            r@.signer is None,
    {
        let mut relays: Vec<RelayConnection> = Vec::new();
        let mut i: usize = 0;
        while i < relay_urls.len()
            invariant
                i <= relay_urls@.len(),
                relays@.len() == i,
                forall|j: int| 0 <= j < i ==> (#[trigger] relays@[j]).wf() && relays@[j]@.url == relay_urls@[j]@
                    && relays@[j]@.state == ConnectionState::Disconnected,
            decreases relay_urls@.len() - i,
        {
            relays.push(RelayConnection::new(relay_urls[i].clone()));
            i += 1;
        }
        let r = CoreHandle {
            relays,
            sub_mgr: SubscriptionManager::new(),
            outbox: OutboxQueue::new(),
            signer: None,
            event_buffer: Vec::new(),
            saved_ids: Vec::new(),
            sends: Vec::new(),
            connects: Vec::new(),
            writes: Vec::new(),
        };
        assert(rows_view(r.event_buffer@) =~= Seq::empty());
        assert(ids_set(r.saved_ids@) =~= Set::empty());
        assert(sends_view(r.sends@) =~= Seq::empty());
        assert(indices_view(r.connects@) =~= Seq::empty());
        assert(ops_view(r.writes@) =~= Seq::empty());
        r
    }

    /// Attaches the internal signer, replacing any earlier one.
    pub fn set_signer(&mut self, signer: InternalSigner)
        requires
            old(self).wf(),
            signer.wf(),
        ensures
            final(self).wf(),
            final(self)@ == (CoreView { signer: Some(signer.secret()), ..old(self)@ }),
    {
        self.signer = Some(signer);
    }

    /// The signer's public key; none without a signer.
    pub fn get_public_key(&self) -> (r: Option<String>)
        requires
            self.wf(),
        ensures
            r is Some == self@.signer is Some,
            r is Some ==> r->0@ == crate::signer::public_key_hex(self@.signer->0),
    {
        match &self.signer {
            Some(s) => Some(s.get_public_key()),
            None => None,
        }
    }

    fn broadcast(&mut self, frame: &Frame)
        requires
            old(self).wf(),
        ensures
            final(self).wf(),
            final(self)@ == (CoreView { sends: old(self)@.sends + broadcast_sends(old(self)@.relays, crate::relay::frame_text(*frame)), ..old(self)@ }),
    {
        let ghost rv = self@.relays;
        let ghost s0 = self@.sends;
        let ghost text = crate::relay::frame_text(*frame);
        let mut i: usize = 0;
        while i < self.relays.len()
            invariant
                self.wf(),
                rv == relays_view(self.relays@),
                i <= self.relays@.len(),
                self@ == (CoreView { sends: s0 + sends_to(rv, text, i as int), ..old(self)@ }),
                text == crate::relay::frame_text(*frame),
            decreases self.relays@.len() - i,
        {
            assert(rv[i as int] == self.relays@[i as int]@);
            let ghost before = self.sends@;
            match self.relays[i].send(frame) {
                Some(t) => {
                    self.sends.push((i, t));
                    assert(sends_view(self.sends@) =~= sends_view(before).push((i as int, text)));
                },
                None => {},
            }
            assert(s0 + sends_to(rv, text, i as int + 1) =~= sends_view(self.sends@));
            i += 1;
        }
    }

    fn broadcast_pairs(&mut self, pairs: &Vec<(String, String)>)
        requires
            old(self).wf(),
        ensures
            final(self).wf(),
            final(self)@ == (CoreView { sends: final(self)@.sends, ..old(self)@ }),
            final(self)@.sends == old(self)@.sends + pairs_sends(old(self)@.relays, crate::subscription::pairs_view(pairs@)),
            pairs@.len() == 1 ==> final(self)@.sends == old(self)@.sends + broadcast_sends(old(self)@.relays, req_text(pairs@[0].0@, pairs@[0].1@)),
    {
        let ghost pv = crate::subscription::pairs_view(pairs@);
        let ghost rv = self@.relays;
        let mut i: usize = 0;
        while i < pairs.len()
            invariant
                self.wf(),
                i <= pairs@.len(),
                pv == crate::subscription::pairs_view(pairs@),
                rv == old(self)@.relays,
                self@ == (CoreView { sends: self@.sends, ..old(self)@ }),
                self@.sends == old(self)@.sends + pairs_sends(rv, pv.take(i as int)),
            decreases pairs@.len() - i,
        {
            let ghost s0 = self@.sends;
            let frame = Frame::Req { sub_id: pairs[i].0.clone(), filter_json: pairs[i].1.clone() };
            self.broadcast(&frame);
            proof {
                assert(pv.take(i as int + 1).drop_last() =~= pv.take(i as int));
                assert(pv.take(i as int + 1).last() == (pairs@[i as int].0@, pairs@[i as int].1@));
                assert(self@.sends =~= old(self)@.sends + pairs_sends(rv, pv.take(i as int + 1)));
            }
            i += 1;
        }
        proof {
            assert(pv.take(pairs@.len() as int) =~= pv);
            if pairs@.len() == 1 {
                assert(pv.drop_last() =~= Seq::empty());
                assert(pv.last() == (pairs@[0].0@, pairs@[0].1@));
                assert(pairs_sends(rv, pv.drop_last()) == Seq::<(int, Seq<char>)>::empty());
                let b = broadcast_sends(rv, req_text(pairs@[0].0@, pairs@[0].1@));
                assert(pairs_sends(rv, pv) == Seq::<(int, Seq<char>)>::empty() + b);
                assert(Seq::<(int, Seq<char>)>::empty() + b =~= b);
            }
        }
    }

    /// Begins a connection attempt on every relay that is disconnected; the
    /// embedder is asked to open their sockets.
    pub fn connect_all(&mut self, now: i64)
        requires
            old(self).wf(),
        ensures
            final(self).wf(),
            final(self)@.relays.len() == old(self)@.relays.len(),
            forall|i: int| 0 <= i < old(self)@.relays.len() ==> #[trigger] final(self)@.relays[i] == if old(self)@.relays[i].state == ConnectionState::Disconnected {
                RelayView { state: ConnectionState::Connecting, last_attempt: now as int, ..old(self)@.relays[i] }
            } else {
                old(self)@.relays[i]
            },
            final(self)@.connects == old(self)@.connects + disconnected_to(old(self)@.relays, old(self)@.relays.len() as int),
            final(self)@ == (CoreView { relays: final(self)@.relays, connects: final(self)@.connects, ..old(self)@ }),
    {
        let ghost rv = self@.relays;
        let mut i: usize = 0;
        while i < self.relays.len()
            invariant
                self.wf(),
                self@.relays.len() == rv.len(),
                i <= rv.len(),
                rv == old(self)@.relays,
                forall|j: int| 0 <= j < i ==> #[trigger] self@.relays[j] == if rv[j].state == ConnectionState::Disconnected {
                    RelayView { state: ConnectionState::Connecting, last_attempt: now as int, ..rv[j] }
                } else {
                    rv[j]
                },
                forall|j: int| i <= j < rv.len() ==> #[trigger] self@.relays[j] == rv[j],
                self@.connects == old(self)@.connects + disconnected_to(rv, i as int),
                self@ == (CoreView { relays: self@.relays, connects: self@.connects, ..old(self)@ }),
            decreases rv.len() - i,
        {
            let ghost before = self.relays@;
            let ghost cb = self.connects@;
            assert(relays_view(before)[i as int] == before[i as int]@);
            assert(self@.relays[i as int] == rv[i as int]);
            let mut r = self.relays.remove(i);
            assert(r == before[i as int]);
            assert(r@ == rv[i as int]);
            let opened = r.connect(now);
            self.relays.insert(i, r);
            assert(self.relays@ =~= before.update(i as int, r));
            assert(relays_view(self.relays@)[i as int] == r@);
            if opened {
                self.connects.push(i);
                assert(indices_view(self.connects@) =~= indices_view(cb).push(i as int));
            }
            proof {
                assert(self@.connects =~= old(self)@.connects + disconnected_to(rv, i as int + 1));
                assert forall|j: int| 0 <= j < self.relays@.len() implies (#[trigger] self.relays@[j]).wf() by {
                    if j != i as int { assert(self.relays@[j] == before[j]); }
                };
                assert forall|j: int| 0 <= j < i + 1 implies #[trigger] self@.relays[j] == if rv[j].state == ConnectionState::Disconnected {
                    RelayView { state: ConnectionState::Connecting, last_attempt: now as int, ..rv[j] }
                } else {
                    rv[j]
                } by {
                    if j < i {
                        assert(self.relays@[j] == before[j]);
                        assert(relays_view(before)[j] == before[j]@);
                    }
                };
                assert forall|j: int| i + 1 <= j < rv.len() implies #[trigger] self@.relays[j] == rv[j] by {
                    assert(self.relays@[j] == before[j]);
                    assert(relays_view(before)[j] == before[j]@);
                    assert(relays_view(before)[j] == rv[j]);
                };
                assert(relays_view(self.relays@).len() == rv.len());
            }
            i += 1;
        }
    }

    /// Opens the subscription to a channel's messages at `now` and
    /// broadcasts its REQ to the connected relays.
    pub fn open_channel(&mut self, channel_id: &str, now: i64)
        requires
            old(self).wf(),
        ensures
            final(self).wf(),
            ({
                let id = crate::subscription::channel_sub_id(channel_id@);
                let sub = crate::subscription::fresh_sub(id, crate::subscription::ShapeView::Channel { channel_id: channel_id@ }, now as int);
                &&& final(self)@.subs == old(self)@.subs.insert(id, sub)
                &&& final(self)@.sends == old(self)@.sends + broadcast_sends(old(self)@.relays, req_text(id, sub.filter_json))
            }),
            final(self)@ == (CoreView { subs: final(self)@.subs, sends: final(self)@.sends, ..old(self)@ }),
    {
        let pairs = self.sub_mgr.open_channel(channel_id, now);
        assert(pairs@.len() == 1) by {
            assert(crate::subscription::pairs_view(pairs@).len() == 1);
        };
        assert(crate::subscription::pairs_view(pairs@)[0] == (pairs@[0].0@, pairs@[0].1@));
        self.broadcast_pairs(&pairs);
    }

    /// Opens both halves of a direct-message thread between `self_pubkey`
    /// and `peer` and broadcasts their REQs.
    pub fn open_dm_as(&mut self, peer: &str, self_pubkey: &str, now: i64)
        requires
            old(self).wf(),
        ensures
            final(self).wf(),
            ({
                let out_id = crate::subscription::dm_sub_id(peer@);
                let back_id = crate::subscription::dm_reverse_sub_id(peer@);
                let out = crate::subscription::fresh_sub(out_id, crate::subscription::ShapeView::Dm { author: self_pubkey@, recipient: peer@ }, now as int);
                let back = crate::subscription::fresh_sub(back_id, crate::subscription::ShapeView::Dm { author: peer@, recipient: self_pubkey@ }, now as int);
                &&& final(self)@.subs == old(self)@.subs.insert(out_id, out).insert(back_id, back)
                &&& final(self)@.sends == old(self)@.sends
                    + broadcast_sends(old(self)@.relays, req_text(out_id, out.filter_json))
                    + broadcast_sends(old(self)@.relays, req_text(back_id, back.filter_json))
                &&& final(self)@ == (CoreView { subs: final(self)@.subs, sends: final(self)@.sends, ..old(self)@ })
            }),
    {
        let pairs = self.sub_mgr.open_dm(peer, self_pubkey, now);
        let ghost pv = crate::subscription::pairs_view(pairs@);
        self.broadcast_pairs(&pairs);
        proof {
            let rv = old(self)@.relays;
            let p1 = pv.drop_last();
            assert(p1.drop_last() =~= Seq::empty());
            assert(p1.last() == pv[0]);
            assert(pv.last() == pv[1]);
            assert(pairs_sends(rv, p1.drop_last()) == Seq::<(int, Seq<char>)>::empty());
            let b0 = broadcast_sends(rv, req_text(pv[0].0, pv[0].1));
            assert(pairs_sends(rv, p1) == Seq::<(int, Seq<char>)>::empty() + b0);
            assert(Seq::<(int, Seq<char>)>::empty() + b0 =~= b0);
            assert(self@.sends =~= old(self)@.sends + broadcast_sends(rv, req_text(pv[0].0, pv[0].1)) + broadcast_sends(rv, req_text(pv[1].0, pv[1].1)));
        }
    }

    /// Opens both halves of a direct-message thread with `peer` under the
    /// signer's public key and broadcasts their REQs; an error without a
    /// signer.
    pub fn open_dm(&mut self, peer: &str, now: i64) -> (r: Result<(), CoreError>)
        requires
            old(self).wf(),
        ensures
            final(self).wf(),
            r is Err <==> old(self)@.signer is None,
            r is Err ==> final(self)@ == old(self)@,
            r is Ok ==> ({
                let me = crate::signer::public_key_hex(old(self)@.signer->0);
                let out_id = crate::subscription::dm_sub_id(peer@);
                let back_id = crate::subscription::dm_reverse_sub_id(peer@);
                let out = crate::subscription::fresh_sub(out_id, crate::subscription::ShapeView::Dm { author: me, recipient: peer@ }, now as int);
                let back = crate::subscription::fresh_sub(back_id, crate::subscription::ShapeView::Dm { author: peer@, recipient: me }, now as int);
                &&& final(self)@.subs == old(self)@.subs.insert(out_id, out).insert(back_id, back)
                &&& final(self)@.sends == old(self)@.sends
                    + broadcast_sends(old(self)@.relays, req_text(out_id, out.filter_json))
                    + broadcast_sends(old(self)@.relays, req_text(back_id, back.filter_json))
                &&& final(self)@ == (CoreView { subs: final(self)@.subs, sends: final(self)@.sends, ..old(self)@ })
            }),
    {
        let me = match self.get_public_key() {
            Some(pk) => pk,
            None => return Err(CoreError::Other("No signer available".to_string())),
        };
        self.open_dm_as(peer, me.as_str(), now);
        Ok(())
    }

    fn absorb_outbox_writes(&mut self)
        requires
            old(self).outbox.wf(),
            forall|i: int| 0 <= i < old(self).relays@.len() ==> (#[trigger] old(self).relays@[i]).wf(),
            old(self).sub_mgr.wf(),
            match old(self).signer {
                Some(s) => s.wf(),
                None => true,
            },
        ensures
            final(self).wf(),
            final(self)@ == (CoreView { writes: old(self)@.writes + old(self).outbox@.writes, ..old(self)@ }),
    {
        let mut w = self.outbox.take_writes();
        let ghost before = self.writes@;
        let ghost taken = w@;
        self.writes.append(&mut w);
        assert(ops_view(self.writes@) =~= ops_view(before) + ops_view(taken));
    }

    /// Queues a signed event's JSON in the outbox under `req_id` and returns
    /// its id; an error, changing nothing, when `req_id` is already queued.
    pub fn enqueue_signed(&mut self, signed: &SignedEvent, req_id: String, now: i64) -> (r: Result<String, CoreError>)
        requires
            old(self).wf(),
        ensures
            final(self).wf(),
            r is Err <==> crate::outbox::has_req(old(self)@.outbox, req_id@),
            r is Err ==> final(self)@ == old(self)@,
            r is Ok ==> r->Ok_0@ == signed.id@,
            r is Ok ==> ({
                let it = crate::types::ItemView {
                    req_id: req_id@,
                    event_json: crate::signer::signed_event_text(*signed),
                    status: crate::types::OutboxStatus::Queued,
                    last_try_at: now as int,
                    retry_count: 0,
                    error: None,
                };
                &&& final(self)@.outbox == old(self)@.outbox.push(it)
                &&& final(self)@.writes == old(self)@.writes.push(OpView::PutOutboxItem(it))
                &&& final(self)@ == (CoreView { outbox: final(self)@.outbox, writes: final(self)@.writes, ..old(self)@ })
            }),
    {
        let json = signed.to_json();
        match self.outbox.enqueue(json, req_id, now) {
            Ok(_) => {
                self.absorb_outbox_writes();
                Ok(signed.id.clone())
            },
            Err(e) => Err(e),
        }
    }

    /// The unsigned kind-40 event that creates a channel at `now`.
    pub fn channel_creation_event(name: &str, about: &str, picture: &str, now: i64) -> (r: UnsignedEvent)
        ensures
            r.kind == KIND_CHANNEL_CREATE,
            r.content@ == channel_metadata_text(name@, about@, picture@),
            r.tags@.len() == 0,
            r.created_at == now,
    {
        let mut content = String::from_str("{\"about\":");
        content.append(quote_json(about).as_str());
        content.append(",\"name\":");
        content.append(quote_json(name).as_str());
        content.append(",\"picture\":");
        content.append(quote_json(picture).as_str());
        content.append("}");
        UnsignedEvent { kind: KIND_CHANNEL_CREATE, content, tags: Vec::new(), created_at: now }
    }

    /// The unsigned kind-42 event of a message to a channel at `now`, tagged
    /// `["e", channel_id]`.
    pub fn public_message_event(channel_id: &str, content: &str, now: i64) -> (r: UnsignedEvent)
        ensures
            r.kind == KIND_CHANNEL_MESSAGE,
            r.content@ == content@,
            crate::signer::tags_view(r.tags@) == seq![seq!["e"@, channel_id@]],
            r.created_at == now,
    {
        let tag = vec![String::from_str("e"), channel_id.to_string()];
        let tags = vec![tag];
        assert(crate::signer::tags_view(tags@) =~= seq![seq!["e"@, channel_id@]]) by {
            assert(crate::signer::strings_view(tag@) =~= seq!["e"@, channel_id@]);
        };
        UnsignedEvent { kind: KIND_CHANNEL_MESSAGE, content: content.to_string(), tags, created_at: now }
    }

    /// The unsigned kind-4 event of a direct message to `peer` at `now`,
    /// tagged `["p", peer]`, whose content is the ciphertext.
    pub fn direct_message_event(peer: &str, ciphertext: String, now: i64) -> (r: UnsignedEvent)
        ensures
            r.kind == KIND_DIRECT_MESSAGE,
            r.content@ == ciphertext@,
            crate::signer::tags_view(r.tags@) == seq![seq!["p"@, peer@]],
            r.created_at == now,
    {
        let tag = vec![String::from_str("p"), peer.to_string()];
        let tags = vec![tag];
        assert(crate::signer::tags_view(tags@) =~= seq![seq!["p"@, peer@]]) by {
            assert(crate::signer::strings_view(tag@) =~= seq!["p"@, peer@]);
        };
        UnsignedEvent { kind: KIND_DIRECT_MESSAGE, content: ciphertext, tags, created_at: now }
    }

    fn sign_and_enqueue(&mut self, unsigned: UnsignedEvent, req_id: String, now: i64) -> (r: Result<String, CoreError>)
        requires
            old(self).wf(),
        ensures
            final(self).wf(),
            r is Ok <==> old(self)@.signer is Some && !crate::outbox::has_req(old(self)@.outbox, req_id@),
            r is Err ==> final(self)@ == old(self)@,
            r is Ok ==> signed_and_queued(old(self)@, final(self)@, req_id@, now as int, unsigned.created_at as int, unsigned.kind,
                crate::signer::tags_view(unsigned.tags@), unsigned.content@, r->Ok_0@),
    {
        let ghost rid = req_id@;
        let ghost ucreated = unsigned.created_at;
        let ghost ukind = unsigned.kind;
        let ghost utags = crate::signer::tags_view(unsigned.tags@);
        let ghost ucontent = unsigned.content@;
        let signed = match &self.signer {
            Some(s) => s.sign_event(unsigned),
            None => return Err(CoreError::Other("No signer available".to_string())),
        };
        match signed {
            Ok(e) => {
                let r = self.enqueue_signed(&e, req_id, now);
                proof {
                    if r is Ok {
                        let pk = crate::signer::public_key_hex(old(self)@.signer->0);
                        let it = queued_item(rid, crate::signer::event_text(e.id@, pk, ucreated as int, ukind as int, utags, ucontent, e.sig@), now as int);
                        assert(crate::signer::schnorr_verifies(pk, e.id@, e.sig@));
                        assert(self@ == (CoreView { outbox: old(self)@.outbox.push(it), writes: old(self)@.writes.push(OpView::PutOutboxItem(it)), ..old(self)@ }));
                    }
                }
                r
            },
            Err(err) => Err(err),
        }
    }

    /// Creates a channel: signs the kind-40 event whose content is the
    /// channel's metadata object, queues it under `req_id`, and returns its
    /// id. An error without a signer or when `req_id` is already queued.
    pub fn create_channel(&mut self, name: &str, about: &str, picture: &str, now: i64, req_id: String) -> (r: Result<String, CoreError>)
        requires
            old(self).wf(),
        ensures
            final(self).wf(),
            r is Ok <==> old(self)@.signer is Some && !crate::outbox::has_req(old(self)@.outbox, req_id@),
            r is Err ==> final(self)@ == old(self)@,
            r is Ok ==> signed_and_queued(old(self)@, final(self)@, req_id@, now as int, now as int, KIND_CHANNEL_CREATE,
                Seq::empty(), channel_metadata_text(name@, about@, picture@), r->Ok_0@),
    {
        let unsigned = Self::channel_creation_event(name, about, picture, now);
        assert(crate::signer::tags_view(unsigned.tags@) =~= Seq::empty());
        self.sign_and_enqueue(unsigned, req_id, now)
    }

    /// Sends a message to a channel: signs the kind-42 event tagged
    /// `["e", channel_id]`, queues it under `req_id`, and returns its id.
    pub fn send_public(&mut self, channel_id: &str, content: &str, now: i64, req_id: String) -> (r: Result<String, CoreError>)
        requires
            old(self).wf(),
        ensures
            final(self).wf(),
            r is Ok <==> old(self)@.signer is Some && !crate::outbox::has_req(old(self)@.outbox, req_id@),
            r is Err ==> final(self)@ == old(self)@,
            r is Ok ==> signed_and_queued(old(self)@, final(self)@, req_id@, now as int, now as int, KIND_CHANNEL_MESSAGE,
                seq![seq!["e"@, channel_id@]], content@, r->Ok_0@),
    {
        let unsigned = Self::public_message_event(channel_id, content, now);
        self.sign_and_enqueue(unsigned, req_id, now)
    }

    /// Sends a direct message: encrypts it for `peer` (NIP-04), signs the
    /// kind-4 event tagged `["p", peer]`, queues it under `req_id`, and
    /// returns its id.
    pub fn send_dm(&mut self, peer: &str, plaintext: &str, now: i64, req_id: String) -> (r: Result<String, CoreError>)
        requires
            old(self).wf(),
        ensures
            final(self).wf(),
            r is Ok <==> old(self)@.signer is Some && !crate::outbox::has_req(old(self)@.outbox, req_id@)
                && crate::signer::nip04_peer_accepted(peer@),
            r is Err ==> final(self)@ == old(self)@,
            r is Ok ==> exists|ciphertext: Seq<char>| {
                &&& crate::signer::nip04_plaintext(old(self)@.signer->0, peer@, ciphertext) == Some(plaintext@)
                &&& #[trigger] signed_and_queued(old(self)@, final(self)@, req_id@, now as int, now as int, KIND_DIRECT_MESSAGE,
                    dm_tags(peer@), ciphertext, r->Ok_0@)
            },
    {
        let ciphertext = match &self.signer {
            Some(s) => match s.nip04_encrypt(peer, plaintext) {
                Ok(c) => c,
                Err(e) => return Err(e),
            },
            None => return Err(CoreError::Other("No signer available".to_string())),
        };
        let ghost ct = ciphertext@;
        let unsigned = Self::direct_message_event(peer, ciphertext, now);
        let r = self.sign_and_enqueue(unsigned, req_id, now);
        proof {
            if r is Ok {
                assert(signed_and_queued(old(self)@, self@, req_id@, now as int, now as int, KIND_DIRECT_MESSAGE,
                    dm_tags(peer@), ct, r->Ok_0@));
            }
        }
        r
    }

    /// Removes and returns up to `max` rows of the UI feed, oldest first.
    pub fn poll_events(&mut self, max: u32) -> (r: Vec<UiRow>)
        requires
            old(self).wf(),
        ensures
            final(self).wf(),
            ({
                let n = if (max as int) < old(self)@.feed.len() { max as int } else { old(self)@.feed.len() as int };
                &&& rows_view(r@) == old(self)@.feed.take(n)
                &&& final(self)@ == (CoreView { feed: old(self)@.feed.skip(n), ..old(self)@ })
            }),
    {
        let n: usize = if (max as usize) < self.event_buffer.len() { max as usize } else { self.event_buffer.len() };
        let ghost all = self.event_buffer@;
        let mut rest = self.event_buffer.split_off(n);
        core::mem::swap(&mut rest, &mut self.event_buffer);
        assert(rows_view(rest@) =~= rows_view(all).take(n as int));
        assert(rows_view(self.event_buffer@) =~= rows_view(all).skip(n as int));
        rest
    }

    fn has_saved(&self, id: &String) -> (r: bool)
        ensures
            r == self@.saved.contains(id@),
    {
        let mut i: usize = 0;
        while i < self.saved_ids.len()
            invariant
                i <= self.saved_ids@.len(),
                forall|j: int| 0 <= j < i ==> self.saved_ids@[j]@ != id@,
            decreases self.saved_ids@.len() - i,
        {
            if self.saved_ids[i] == *id {
                assert(ids_set(self.saved_ids@).contains(id@));
                return true;
            }
            i += 1;
        }
        false
    }

    /// Handles one inbound message at `now`. A well-formed event (string id,
    /// pubkey and content, a time and a 16-bit kind) is accepted once per id: the first time, it is saved to the store and
    /// appended to the UI feed; again, or unparseable, it is dropped. An
    /// end-of-stored-events signal is counted and, when the window widens,
    /// the new REQ is broadcast. An acknowledgement goes to the outbox. A
    /// notice changes nothing.
    pub fn process_relay_message(&mut self, msg: &RelayMessage, now: i64)
        requires
            old(self).wf(),
        ensures
            final(self).wf(),
            final(self)@.relays == old(self)@.relays,
            final(self)@.connects == old(self)@.connects,
            final(self)@.signer == old(self)@.signer,
            old(self)@.saved.subset_of(final(self)@.saved),
            final(self)@.sends.len() >= old(self)@.sends.len(),
            final(self)@.sends.subrange(0, old(self)@.sends.len() as int) == old(self)@.sends,
            final(self)@ == dispatch_one(old(self)@, msg@, now as int),
            match msg@ {
                MessageView::Event { event_json, .. } => match accepted_fields(event_json) {
                    Some(f) => if old(self)@.saved.contains(stored_id(f)) {
                        final(self)@ == old(self)@
                    } else {
                        final(self)@ == (CoreView {
                            saved: old(self)@.saved.insert(stored_id(f)),
                            writes: old(self)@.writes.push(OpView::SaveEvent { event_id: stored_id(f), event_json }),
                            feed: old(self)@.feed.push(row_of(f)),
                            ..old(self)@
                        })
                    },
                    None => final(self)@ == old(self)@,
                },
                MessageView::Eose { sub_id } => {
                    &&& final(self)@.subs == eose_subs(old(self)@.subs, sub_id, now as int)
                    &&& final(self)@.sends == match eose_reissue(old(self)@.subs, sub_id, now as int) {
                        Some(filter) => old(self)@.sends + broadcast_sends(old(self)@.relays, req_text(sub_id, filter)),
                        None => old(self)@.sends,
                    }
                    &&& final(self)@ == (CoreView { subs: final(self)@.subs, sends: final(self)@.sends, ..old(self)@ })
                },
                MessageView::Ack { event_id, accepted, message } => {
                    let m = if accepted { Seq::empty() } else { message };
                    &&& final(self)@.outbox == ok_items(old(self)@.outbox, event_id, accepted, m)
                    &&& final(self)@.writes == old(self)@.writes + ok_writes(old(self)@.outbox, event_id, accepted, m)
                    &&& final(self)@ == (CoreView { outbox: final(self)@.outbox, writes: final(self)@.writes, ..old(self)@ })
                },
                MessageView::Notice { .. } => final(self)@ == old(self)@,
            },
    {
        match msg {
            RelayMessage::Event { sub_id: _, event_json } => {
                let fields = match decode_event_fields(event_json.as_str()) {
                    Some(f) => f,
                    None => return,
                };
                let (id, kind, pubkey, created_at, content) = match (&fields.id, fields.kind, &fields.pubkey, fields.created_at, &fields.content) {
                    (Some(id), Some(k), Some(p), Some(c), Some(t)) => {
                        if k > u16::MAX as u64 {
                            return;
                        }
                        (id.clone(), k as u16, p.clone(), c, t.clone())
                    },
                    _ => return,
                };
                if self.has_saved(&id) {
                    return;
                }
                let row = UiRow { id: id.clone(), kind, pubkey, created_at, content, image_url: None };
                let ghost ids0 = self.saved_ids@;
                let ghost w0 = self.writes@;
                let ghost b0 = self.event_buffer@;
                self.saved_ids.push(id.clone());
                self.writes.push(StorageOp::SaveEvent { event_id: id, event_json: event_json.clone() });
                self.event_buffer.push(row);
                proof {
                    let k = stored_id(accepted_fields(event_json@)->0);
                    assert(ids_set(self.saved_ids@) =~= ids_set(ids0).insert(k)) by {
                        assert forall|x: Seq<char>| #[trigger] ids_set(self.saved_ids@).contains(x) <==> ids_set(ids0).insert(k).contains(x) by {
                            if ids_set(self.saved_ids@).contains(x) {
                                let j = choose|j: int| 0 <= j < self.saved_ids@.len() && #[trigger] self.saved_ids@[j]@ == x;
                                if j < ids0.len() { assert(self.saved_ids@[j] == ids0[j]); }
                            }
                            if ids_set(ids0).contains(x) {
                                let j = choose|j: int| 0 <= j < ids0.len() && #[trigger] ids0[j]@ == x;
                                assert(self.saved_ids@[j] == ids0[j]);
                            }
                            if x == k { assert(self.saved_ids@[ids0.len() as int]@ == x); }
                        };
                    };
                    assert(ops_view(self.writes@) =~= ops_view(w0).push(OpView::SaveEvent { event_id: k, event_json: event_json@ }));
                    assert(rows_view(self.event_buffer@) =~= rows_view(b0).push(row_of(accepted_fields(event_json@)->0)));
                }
            },
            RelayMessage::Eose { sub_id } => {
                match self.sub_mgr.on_eose(sub_id.as_str(), now) {
                    Some(pairs) => {
                        assert(pairs@.len() == 1) by {
                            assert(crate::subscription::pairs_view(pairs@).len() == 1);
                        };
                        assert(pairs@[0].0@ == sub_id@ && pairs@[0].1@ == eose_reissue(old(self)@.subs, sub_id@, now as int)->0) by {
                            assert(crate::subscription::pairs_view(pairs@)[0] == (pairs@[0].0@, pairs@[0].1@));
                        };
                        self.broadcast_pairs(&pairs);
                        assert(self@.sends.subrange(0, old(self)@.sends.len() as int) =~= old(self)@.sends);
                    },
                    None => {},
                }
            },
            RelayMessage::Ack { event_id, accepted, message } => {
                if *accepted {
                    self.outbox.on_ok(event_id.as_str(), true, "");
                    proof { reveal_strlit(""); }
                    assert(""@ =~= Seq::<char>::empty());
                } else {
                    self.outbox.on_ok(event_id.as_str(), false, message.as_str());
                }
                self.absorb_outbox_writes();
            },
            RelayMessage::Notice { message: _ } => {},
        }
    }

    fn with_relay(&mut self, i: usize, event: SocketEvent, text: &str)
        requires
            old(self).wf(),
            i < old(self)@.relays.len(),
        ensures
            final(self).wf(),
            final(self)@ == (CoreView { relays: final(self)@.relays, ..old(self)@ }),
            final(self)@.relays.len() == old(self)@.relays.len(),
            forall|j: int| 0 <= j < old(self)@.relays.len() && j != i ==> #[trigger] final(self)@.relays[j] == old(self)@.relays[j],
            ({
                let r = old(self)@.relays[i as int];
                let dropped = RelayView {
                    state: ConnectionState::Disconnected,
                    backoff: if r.state == ConnectionState::Connecting { r.backoff.advanced() } else { r.backoff },
                    ..r
                };
                final(self)@.relays[i as int] == if event == SocketEvent::Opened {
                    RelayView { state: ConnectionState::Connected, backoff: r.backoff.reset(), ..r }
                } else if event == SocketEvent::Closed {
                    dropped
                } else {
                    RelayView {
                        queue: match crate::relay::parsed_message(text@) {
                            Some(m) => r.queue.push(m),
                            None => r.queue,
                        },
                        ..r
                    }
                }
            }),
    {
        let ghost before = self.relays@;
        assert(relays_view(before)[i as int] == before[i as int]@);
        let mut r = self.relays.remove(i);
        assert(r == before[i as int]);
        if event == SocketEvent::Opened {
            r.on_open();
        } else if event == SocketEvent::Closed {
            r.on_close();
        } else {
            r.on_message(text);
        }
        self.relays.insert(i, r);
        assert(self.relays@ =~= before.update(i as int, r));
        proof {
            assert(relays_view(self.relays@)[i as int] == r@);
            assert forall|j: int| 0 <= j < self.relays@.len() implies (#[trigger] self.relays@[j]).wf() by {
                if j != i as int { assert(self.relays@[j] == before[j]); }
            };
            assert forall|j: int| 0 <= j < before.len() && j != i implies #[trigger] self@.relays[j] == old(self)@.relays[j] by {
                assert(self.relays@[j] == before[j]);
                assert(relays_view(before)[j] == before[j]@);
            };
        }
    }

    /// The socket of relay `i` opened.
    pub fn on_socket_open(&mut self, i: usize)
        requires
            old(self).wf(),
            i < old(self)@.relays.len(),
        ensures
            final(self).wf(),
            final(self)@ == (CoreView {
                relays: old(self)@.relays.update(i as int, RelayView {
                    state: ConnectionState::Connected,
                    backoff: old(self)@.relays[i as int].backoff.reset(),
                    ..old(self)@.relays[i as int]
                }),
                ..old(self)@
            }),
    {
        self.with_relay(i, SocketEvent::Opened, "");
        assert(self@.relays =~= old(self)@.relays.update(i as int, self@.relays[i as int]));
    }

    /// The socket of relay `i` closed or failed; a failure before it opened
    /// advances its backoff.
    pub fn on_socket_close(&mut self, i: usize)
        requires
            old(self).wf(),
            i < old(self)@.relays.len(),
        ensures
            final(self).wf(),
            final(self)@ == (CoreView {
                relays: old(self)@.relays.update(i as int, RelayView {
                    state: ConnectionState::Disconnected,
                    backoff: if old(self)@.relays[i as int].state == ConnectionState::Connecting {
                        old(self)@.relays[i as int].backoff.advanced()
                    } else {
                        old(self)@.relays[i as int].backoff
                    },
                    ..old(self)@.relays[i as int]
                }),
                ..old(self)@
            }),
    {
        self.with_relay(i, SocketEvent::Closed, "");
        assert(self@.relays =~= old(self)@.relays.update(i as int, self@.relays[i as int]));
    }

    /// A text frame arrived on the socket of relay `i`; it is queued when
    /// understood and dropped otherwise.
    pub fn on_socket_message(&mut self, i: usize, text: &str)
        requires
            old(self).wf(),
            i < old(self)@.relays.len(),
        ensures
            final(self).wf(),
            final(self)@ == (CoreView {
                relays: old(self)@.relays.update(i as int, RelayView {
                    queue: match crate::relay::parsed_message(text@) {
                        Some(m) => old(self)@.relays[i as int].queue.push(m),
                        None => old(self)@.relays[i as int].queue,
                    },
                    ..old(self)@.relays[i as int]
                }),
                ..old(self)@
            }),
    {
        self.with_relay(i, SocketEvent::Message, text);
        assert(self@.relays =~= old(self)@.relays.update(i as int, self@.relays[i as int]));
    }

    /// Restores the outbox entries read back from the store at startup.
    pub fn load_pending(&mut self, items: Vec<crate::types::OutboxItem>)
        requires
            old(self).wf(),
        ensures
            final(self).wf(),
            final(self)@ == (CoreView {
                outbox: crate::outbox::loaded(old(self)@.outbox, crate::types::items_view(items@)),
                ..old(self)@
            }),
    {
        self.outbox.load_pending(items);
    }

    /// One pass of the outbox over its entries at `now` (retry budget, wait
    /// for acknowledgement, transmission when some relay is connected); each
    /// frame it transmits is broadcast to the connected relays.
    pub fn process_outbox(&mut self, now: i64)
        requires
            old(self).wf(),
        ensures
            final(self).wf(),
            ({
                let c = exists|i: int| 0 <= i < old(self)@.relays.len() && (#[trigger] old(self)@.relays[i]).state == ConnectionState::Connected;
                &&& final(self)@.outbox == crate::outbox::processed(old(self)@.outbox, now as int, c)
                &&& final(self)@.writes == old(self)@.writes + crate::outbox::processed_writes(old(self)@.outbox, now as int, c)
            }),
            final(self)@.relays == old(self)@.relays,
            final(self)@.subs == old(self)@.subs,
            final(self)@.saved == old(self)@.saved,
    {
        let ghost rv = self@.relays;
        let frames = self.outbox.process(&self.relays, now);
        proof {
            let a = exists|i: int| 0 <= i < self.relays@.len() && (#[trigger] self.relays@[i])@.state == ConnectionState::Connected;
            let b = exists|i: int| 0 <= i < rv.len() && (#[trigger] rv[i]).state == ConnectionState::Connected;
            if a {
                let i = choose|i: int| 0 <= i < self.relays@.len() && (#[trigger] self.relays@[i])@.state == ConnectionState::Connected;
                assert(rv[i] == self.relays@[i]@);
            }
            if b {
                let i = choose|i: int| 0 <= i < rv.len() && (#[trigger] rv[i]).state == ConnectionState::Connected;
                assert(rv[i] == self.relays@[i]@);
                assert(self.relays@[i]@.state == ConnectionState::Connected);
            }
            assert(a == b);
        }
        self.absorb_outbox_writes();
        let ghost mid = self@;
        let mut k: usize = 0;
        while k < frames.len()
            invariant
                self.wf(),
                k <= frames@.len(),
                self@ == (CoreView { sends: self@.sends, ..mid }),
            decreases frames@.len() - k,
        {
            self.broadcast(&frames[k]);
            k += 1;
        }
    }

    /// Rearms, at `now`, the failed outbox entries whose delay has passed.
    pub fn retry_failed(&mut self, now: i64)
        requires
            old(self).wf(),
        ensures
            final(self).wf(),
            final(self)@.outbox.len() == old(self)@.outbox.len(),
            forall|i: int| 0 <= i < old(self)@.outbox.len() ==> #[trigger] final(self)@.outbox[i] == crate::outbox::rearmed(old(self)@.outbox[i], now as int),
            final(self)@.relays == old(self)@.relays,
            final(self)@.sends == old(self)@.sends,
    {
        self.outbox.retry_failed(now);
        self.absorb_outbox_writes();
    }

    /// The relays, in order.
    pub fn relays(&self) -> (r: &Vec<RelayConnection>)
        ensures
            relays_view(r@) == self@.relays,
    {
        &self.relays
    }

    /// The outbox.
    pub fn outbox(&self) -> (r: &OutboxQueue)
        ensures
            r@.items == self@.outbox,
    {
        &self.outbox
    }

    /// The subscriptions.
    pub fn subscriptions(&self) -> (r: &SubscriptionManager)
        ensures
            r@ == self@.subs,
    {
        &self.sub_mgr
    }

    /// Removes and returns the transmissions decided so far: each is the
    /// index of a relay and the text to send on its socket.
    pub fn take_sends(&mut self) -> (r: Vec<(usize, String)>)
        requires
            old(self).wf(),
        ensures
            final(self).wf(),
            sends_view(r@) == old(self)@.sends,
            final(self)@ == (CoreView { sends: Seq::empty(), ..old(self)@ }),
    {
        let mut r = Vec::new();
        core::mem::swap(&mut r, &mut self.sends);
        assert(sends_view(self.sends@) =~= Seq::empty());
        r
    }

    /// Removes and returns the relays whose sockets are to be opened.
    pub fn take_connects(&mut self) -> (r: Vec<usize>)
        requires
            old(self).wf(),
        ensures
            final(self).wf(),
            indices_view(r@) == old(self)@.connects,
            final(self)@ == (CoreView { connects: Seq::empty(), ..old(self)@ }),
    {
        let mut r = Vec::new();
        core::mem::swap(&mut r, &mut self.connects);
        assert(indices_view(self.connects@) =~= Seq::empty());
        r
    }

    /// Removes and returns the store writes decided so far, in order.
    pub fn take_storage_writes(&mut self) -> (r: Vec<StorageOp>)
        requires
            old(self).wf(),
        ensures
            final(self).wf(),
            ops_view(r@) == old(self)@.writes,
            final(self)@ == (CoreView { writes: Seq::empty(), ..old(self)@ }),
    {
        let mut r = Vec::new();
        core::mem::swap(&mut r, &mut self.writes);
        assert(ops_view(self.writes@) =~= Seq::empty());
        r
    }

    /// One cooperative step at `now`: begins the reconnects that are due,
    /// drains every relay's inbound messages in relay order and handles them
    /// in arrival order, then broadcasts the outbox head when it is queued.
    /// Every event id that the step saves was not saved before, and none is
    /// saved twice.
    pub fn tick(&mut self, now: i64)
        requires
            old(self).wf(),
        ensures
            final(self).wf(),
            final(self)@ == ticked(old(self)@, now as int),
            final(self)@.relays.len() == old(self)@.relays.len(),
            forall|i: int| 0 <= i < old(self)@.relays.len() ==> #[trigger] final(self)@.relays[i]
                == (RelayView { queue: Seq::empty(), ..reconnected(old(self)@.relays[i], now as int) }),
            final(self)@.connects == old(self)@.connects + due_to(old(self)@.relays, now as int, old(self)@.relays.len() as int),
            final(self)@.signer == old(self)@.signer,
            old(self)@.saved.subset_of(final(self)@.saved),
            saved_by(final(self)@.writes).len() >= saved_by(old(self)@.writes).len(),
            saved_by(final(self)@.writes).subrange(0, saved_by(old(self)@.writes).len() as int) == saved_by(old(self)@.writes),
            ({
                let fresh = saved_by(final(self)@.writes).skip(saved_by(old(self)@.writes).len() as int);
                &&& fresh.no_duplicates()
                &&& forall|k: int| 0 <= k < fresh.len() ==> !old(self)@.saved.contains(#[trigger] fresh[k]) && final(self)@.saved.contains(fresh[k])
            }),
            final(self)@.sends.len() >= old(self)@.sends.len(),
            final(self)@.sends.subrange(0, old(self)@.sends.len() as int) == old(self)@.sends,
            final(self)@.outbox.len() > 0 && final(self)@.outbox[0].status == crate::types::OutboxStatus::Queued ==> ({
                let b = broadcast_sends(final(self)@.relays, event_frame_text(final(self)@.outbox[0].event_json));
                &&& final(self)@.sends.len() >= b.len()
                &&& final(self)@.sends.subrange(final(self)@.sends.len() - b.len(), final(self)@.sends.len() as int) == b
            }),
    {
        let ghost rv0 = self@.relays;
        // Reconnects that are due.
        let mut i: usize = 0;
        while i < self.relays.len()
            invariant
                self.wf(),
                self@.relays.len() == rv0.len(),
                i <= rv0.len(),
                rv0 == old(self)@.relays,
                forall|j: int| 0 <= j < i ==> #[trigger] self@.relays[j] == reconnected(rv0[j], now as int),
                forall|j: int| i <= j < rv0.len() ==> #[trigger] self@.relays[j] == rv0[j],
                self@.connects == old(self)@.connects + due_to(rv0, now as int, i as int),
                self@ == (CoreView { relays: self@.relays, connects: self@.connects, ..old(self)@ }),
            decreases rv0.len() - i,
        {
            let ghost before = self.relays@;
            let ghost cb = self.connects@;
            assert(relays_view(before)[i as int] == before[i as int]@);
            let mut r = self.relays.remove(i);
            assert(r == before[i as int]);
            let opened = r.reconnect_if_needed(now);
            self.relays.insert(i, r);
            assert(self.relays@ =~= before.update(i as int, r));
            assert(relays_view(self.relays@)[i as int] == r@);
            if opened {
                self.connects.push(i);
                assert(indices_view(self.connects@) =~= indices_view(cb).push(i as int));
            }
            proof {
                assert(self@.connects =~= old(self)@.connects + due_to(rv0, now as int, i as int + 1));
                assert forall|j: int| 0 <= j < self.relays@.len() implies (#[trigger] self.relays@[j]).wf() by {
                    if j != i as int { assert(self.relays@[j] == before[j]); }
                };
                assert forall|j: int| 0 <= j < i + 1 implies #[trigger] self@.relays[j] == reconnected(rv0[j], now as int) by {
                    if j < i {
                        assert(self.relays@[j] == before[j]);
                        assert(relays_view(before)[j] == before[j]@);
                    }
                };
                assert forall|j: int| i + 1 <= j < rv0.len() implies #[trigger] self@.relays[j] == rv0[j] by {
                    assert(self.relays@[j] == before[j]);
                    assert(relays_view(before)[j] == before[j]@);
                };
            }
            i += 1;
        }
        // Drain every relay, in relay order.
        let ghost rv1 = self@.relays;
        let ghost mid = self@;
        let mut all: Vec<RelayMessage> = Vec::new();
        let mut i: usize = 0;
        while i < self.relays.len()
            invariant
                self.wf(),
                self@.relays.len() == rv1.len(),
                i <= rv1.len(),
                rv1 == mid.relays,
                forall|j: int| 0 <= j < i ==> #[trigger] self@.relays[j] == (RelayView { queue: Seq::empty(), ..rv1[j] }),
                forall|j: int| i <= j < rv1.len() ==> #[trigger] self@.relays[j] == rv1[j],
                self@ == (CoreView { relays: self@.relays, ..mid }),
                crate::relay::messages_view(all@) == drained(rv1.take(i as int)),
            decreases rv1.len() - i,
        {
            let ghost before = self.relays@;
            assert(relays_view(before)[i as int] == before[i as int]@);
            let mut r = self.relays.remove(i);
            assert(r == before[i as int]);
            let ghost all0 = all@;
            let mut msgs = r.drain_messages();
            let ghost got = msgs@;
            self.relays.insert(i, r);
            all.append(&mut msgs);
            proof {
                assert(rv1.take(i as int + 1).drop_last() =~= rv1.take(i as int));
                assert(rv1.take(i as int + 1).last() == rv1[i as int]);
                assert(rv1[i as int] == before[i as int]@);
                assert(crate::relay::messages_view(all@) =~= crate::relay::messages_view(all0) + crate::relay::messages_view(got));
            }
            assert(self.relays@ =~= before.update(i as int, r));
            assert(relays_view(self.relays@)[i as int] == r@);
            proof {
                assert forall|j: int| 0 <= j < self.relays@.len() implies (#[trigger] self.relays@[j]).wf() by {
                    if j != i as int { assert(self.relays@[j] == before[j]); }
                };
                assert forall|j: int| 0 <= j < i + 1 implies #[trigger] self@.relays[j] == (RelayView { queue: Seq::empty(), ..rv1[j] }) by {
                    if j < i {
                        assert(self.relays@[j] == before[j]);
                        assert(relays_view(before)[j] == before[j]@);
                    }
                };
                assert forall|j: int| i + 1 <= j < rv1.len() implies #[trigger] self@.relays[j] == rv1[j] by {
                    assert(self.relays@[j] == before[j]);
                    assert(relays_view(before)[j] == before[j]@);
                };
            }
            i += 1;
        }
        let ghost rv2 = self@.relays;
        let ghost v2 = self@;
        let ghost msgs = crate::relay::messages_view(all@);
        proof {
            assert(rv1.take(rv1.len() as int) =~= rv1);
            assert forall|j: int| 0 <= j < rv0.len() implies #[trigger] rv1[j].queue == rv0[j].queue by {
                assert(rv1[j] == reconnected(rv0[j], now as int));
            };
            lemma_drained_queues(rv1, rv0);
            assert(self@.relays =~= reconnected_and_drained(old(self)@, now as int).relays);
            assert(v2 == reconnected_and_drained(old(self)@, now as int));
        }
        // Handle the messages in order.
        let ghost saved0 = self@.saved;
        let ghost w0 = self@.writes;
        let mut k: usize = 0;
        while k < all.len()
            invariant
                self.wf(),
                self@.relays == rv2,
                self@.connects == mid.connects,
                self@.signer == mid.signer,
                saved0 == old(self)@.saved,
                w0 == old(self)@.writes,
                self@.sends.len() >= old(self)@.sends.len(),
                self@.sends.subrange(0, old(self)@.sends.len() as int) == old(self)@.sends,
                saved0.subset_of(self@.saved),
                saved_by(self@.writes).len() >= saved_by(w0).len(),
                saved_by(self@.writes).subrange(0, saved_by(w0).len() as int) == saved_by(w0),
                saved_by(self@.writes).skip(saved_by(w0).len() as int).no_duplicates(),
                forall|q: int| 0 <= q < saved_by(self@.writes).skip(saved_by(w0).len() as int).len() ==>
                    !saved0.contains(#[trigger] saved_by(self@.writes).skip(saved_by(w0).len() as int)[q])
                    && self@.saved.contains(saved_by(self@.writes).skip(saved_by(w0).len() as int)[q]),
                k <= all@.len(),
                msgs == crate::relay::messages_view(all@),
                self@ == dispatch_all(v2, msgs.take(k as int), now as int),
            decreases all@.len() - k,
        {
            let ghost wb = self@.writes;
            let ghost sb = self@.saved;
            let ghost snd = self@.sends;
            self.process_relay_message(&all[k], now);
            assert(self@.sends.subrange(0, old(self)@.sends.len() as int) =~= snd.subrange(0, old(self)@.sends.len() as int));
            proof {
                lemma_saved_step(wb, self@.writes, sb, self@.saved, saved0, saved_by(w0).len() as int, all@[k as int]@, now as int, self@, old(self)@);
                assert(msgs.take(k as int + 1).drop_last() =~= msgs.take(k as int));
                assert(msgs.take(k as int + 1).last() == all@[k as int]@);
            }
            k += 1;
        }
        // Broadcast the outbox head.
        assert(msgs.take(all@.len() as int) =~= msgs);
        let ghost s_before = self@.sends;
        match self.outbox.dequeue() {
            Some(event_json) => {
                let frame = Frame::Event { event_json };
                self.broadcast(&frame);
                assert(self@.sends.subrange(s_before.len() as int, self@.sends.len() as int)
                    =~= broadcast_sends(self@.relays, event_frame_text(self@.outbox[0].event_json)));
            },
            None => {},
        }
        proof {
            assert forall|i: int| 0 <= i < old(self)@.relays.len() implies #[trigger] self@.relays[i]
                == (RelayView { queue: Seq::empty(), ..reconnected(old(self)@.relays[i], now as int) }) by {
                assert(rv1[i] == reconnected(old(self)@.relays[i], now as int));
            };
        }
    }
}


proof fn lemma_saved_by_push(w: Seq<OpView>, op: OpView)
    ensures
        saved_by(w.push(op)) == match op {
            OpView::SaveEvent { event_id, .. } => saved_by(w).push(event_id),
            _ => saved_by(w),
        },
{
    assert(w.push(op).drop_last() =~= w);
}

proof fn lemma_saved_by_ok(w: Seq<OpView>, items: Seq<crate::types::ItemView>, event_id: Seq<char>, accepted: bool, message: Seq<char>)
    ensures
        saved_by(w + ok_writes(items, event_id, accepted, message)) == saved_by(w),
{
    let o = ok_writes(items, event_id, accepted, message);
    if o.len() == 0 {
        assert(w + o =~= w);
    } else if o.len() == 1 {
        assert(w + o =~= w.push(o[0]));
        lemma_saved_by_push(w, o[0]);
    } else {
        assert(w + o =~= w.push(o[0]).push(o[1]));
        lemma_saved_by_push(w, o[0]);
        lemma_saved_by_push(w.push(o[0]), o[1]);
    }
}

proof fn lemma_saved_step(
    wb: Seq<OpView>,
    wa: Seq<OpView>,
    sb: Set<Seq<char>>,
    sa: Set<Seq<char>>,
    saved0: Set<Seq<char>>,
    n0: int,
    msg: MessageView,
    now: int,
    after: CoreView,
    start: CoreView,
)
    requires
        saved0.subset_of(sb),
        0 <= n0 <= saved_by(wb).len(),
        saved_by(wb).skip(n0).no_duplicates(),
        forall|q: int| 0 <= q < saved_by(wb).skip(n0).len() ==> !saved0.contains(#[trigger] saved_by(wb).skip(n0)[q]) && sb.contains(saved_by(wb).skip(n0)[q]),
        sb.subset_of(sa),
        wa == after.writes,
        sa == after.saved,
        match msg {
            MessageView::Event { event_json, .. } => match accepted_fields(event_json) {
                Some(f) => if sb.contains(stored_id(f)) {
                    wa == wb && sa == sb
                } else {
                    wa == wb.push(OpView::SaveEvent { event_id: stored_id(f), event_json }) && sa == sb.insert(stored_id(f))
                },
                None => wa == wb && sa == sb,
            },
            MessageView::Ack { event_id, accepted, message } => exists|items: Seq<crate::types::ItemView>, m: Seq<char>| wa == wb + ok_writes(items, event_id, accepted, m),
            _ => wa == wb,
        },
    ensures
        saved_by(wa).len() >= saved_by(wb).len(),
        saved_by(wa).subrange(0, saved_by(wb).len() as int) == saved_by(wb),
        saved_by(wa).skip(n0).no_duplicates(),
        forall|q: int| 0 <= q < saved_by(wa).skip(n0).len() ==> !saved0.contains(#[trigger] saved_by(wa).skip(n0)[q]) && sa.contains(saved_by(wa).skip(n0)[q]),
{
    let pb = saved_by(wb);
    match msg {
        MessageView::Ack { event_id, accepted, message } => {
            let (items, m) = choose|items: Seq<crate::types::ItemView>, m: Seq<char>| wa == wb + ok_writes(items, event_id, accepted, m);
            lemma_saved_by_ok(wb, items, event_id, accepted, m);
            assert(pb.subrange(0, pb.len() as int) =~= pb);
        },
        MessageView::Event { event_json, .. } => {
            if wa == wb {
                assert(pb.subrange(0, pb.len() as int) =~= pb);
            } else {
                let f = accepted_fields(event_json)->0;
                let id = stored_id(f);
                lemma_saved_by_push(wb, OpView::SaveEvent { event_id: id, event_json });
                let pa = saved_by(wa);
                assert(pa == pb.push(id));
                assert(pa.subrange(0, pb.len() as int) =~= pb);
                assert(pa.skip(n0) =~= pb.skip(n0).push(id));
                let t = pb.skip(n0);
                assert forall|a: int, b: int| 0 <= a < pa.skip(n0).len() && 0 <= b < pa.skip(n0).len() && a != b implies pa.skip(n0)[a] != pa.skip(n0)[b] by {
                    if a < t.len() && b < t.len() {
                        assert(pa.skip(n0)[a] == t[a] && pa.skip(n0)[b] == t[b]);
                    } else if a < t.len() {
                        assert(pa.skip(n0)[a] == t[a]);
                        assert(sb.contains(t[a]));
                    } else {
                        assert(pa.skip(n0)[b] == t[b]);
                        assert(sb.contains(t[b]));
                    }
                };
                assert forall|q: int| 0 <= q < pa.skip(n0).len() implies !saved0.contains(#[trigger] pa.skip(n0)[q]) && sa.contains(pa.skip(n0)[q]) by {
                    if q < t.len() {
                        assert(pa.skip(n0)[q] == t[q]);
                    }
                };
            }
        },
        _ => {
            assert(pb.subrange(0, pb.len() as int) =~= pb);
        },
    }
}

/// Whether a text opens as a REQ or an EVENT frame.
pub open spec fn known_frame(t: Seq<char>) -> bool {
    ||| (t.len() >= "[\"REQ\","@.len() && t.subrange(0, "[\"REQ\","@.len() as int) == "[\"REQ\","@)
    ||| (t.len() >= "[\"EVENT\","@.len() && t.subrange(0, "[\"EVENT\","@.len() as int) == "[\"EVENT\","@)
}

/// Whether every transmission is of a REQ or an EVENT frame.
pub open spec fn known_frames(s: Seq<(int, Seq<char>)>) -> bool {
    forall|i: int| 0 <= i < s.len() ==> known_frame(#[trigger] s[i].1)
}

proof fn lemma_sends_to_text(relays: Seq<RelayView>, text: Seq<char>, n: int)
    ensures
        forall|i: int| 0 <= i < sends_to(relays, text, n).len() ==> #[trigger] sends_to(relays, text, n)[i].1 == text,
    decreases n,
{
    if n > 0 {
        lemma_sends_to_text(relays, text, n - 1);
        let p = sends_to(relays, text, n - 1);
        if relays[n - 1].state == ConnectionState::Connected {
            assert forall|i: int| 0 <= i < p.push((n - 1, text)).len() implies #[trigger] p.push((n - 1, text))[i].1 == text by {
                if i < p.len() { assert(p.push((n - 1, text))[i] == p[i]); }
            };
        }
    }
}

proof fn lemma_broadcast_known(s: Seq<(int, Seq<char>)>, relays: Seq<RelayView>, text: Seq<char>)
    requires
        known_frames(s),
        known_frame(text),
    ensures
        known_frames(s + broadcast_sends(relays, text)),
{
    let b = broadcast_sends(relays, text);
    lemma_sends_to_text(relays, text, relays.len() as int);
    assert forall|i: int| 0 <= i < (s + b).len() implies known_frame(#[trigger] (s + b)[i].1) by {
        if i < s.len() {
            assert((s + b)[i] == s[i]);
        } else {
            assert((s + b)[i] == b[i - s.len()]);
        }
    };
}

proof fn lemma_req_known(sub_id: Seq<char>, filter: Seq<char>)
    ensures
        known_frame(req_text(sub_id, filter)),
{
    let h = "[\"REQ\","@;
    let rest = json_quoted(sub_id) + ","@ + filter + "]"@;
    assert(req_text(sub_id, filter) =~= h + rest);
    assert((h + rest).subrange(0, h.len() as int) =~= h);
}

proof fn lemma_event_known(json: Seq<char>)
    ensures
        known_frame(event_frame_text(json)),
{
    let h = "[\"EVENT\","@;
    let rest = json + "]"@;
    assert(event_frame_text(json) =~= h + rest);
    assert((h + rest).subrange(0, h.len() as int) =~= h);
}

proof fn lemma_dispatch_known(v: CoreView, msgs: Seq<MessageView>, now: int)
    requires
        known_frames(v.sends),
    ensures
        known_frames(dispatch_all(v, msgs, now).sends),
        dispatch_all(v, msgs, now).relays == v.relays,
    decreases msgs.len(),
{
    if msgs.len() > 0 {
        lemma_dispatch_known(v, msgs.drop_last(), now);
        let u = dispatch_all(v, msgs.drop_last(), now);
        match msgs.last() {
            MessageView::Eose { sub_id } => {
                match eose_reissue(u.subs, sub_id, now) {
                    Some(filter) => {
                        lemma_req_known(sub_id, filter);
                        lemma_broadcast_known(u.sends, u.relays, req_text(sub_id, filter));
                    },
                    None => {},
                }
            },
            _ => {},
        }
    }
}

/// Every frame that a tick transmits is a REQ or an EVENT frame: a tick
/// starting from transmissions that all are leaves them all so.
pub proof fn tick_sends_known_frames(v: CoreView, now: int)
    requires
        known_frames(v.sends),
    ensures
        known_frames(ticked(v, now).sends),
{
    let v1 = reconnected_and_drained(v, now);
    lemma_dispatch_known(v1, drained(v.relays), now);
    let v2 = dispatch_all(v1, drained(v.relays), now);
    if v2.outbox.len() > 0 && v2.outbox[0].status == crate::types::OutboxStatus::Queued {
        lemma_event_known(v2.outbox[0].event_json);
        lemma_broadcast_known(v2.sends, v2.relays, event_frame_text(v2.outbox[0].event_json));
    }
}

/// Handling a well-formed event whose id is not saved yet saves
/// it: the write is the last one and its id is now saved.
pub proof fn new_event_is_saved(v: CoreView, sub_id: Seq<char>, event_json: Seq<char>, now: int)
    requires
        accepted_fields(event_json) is Some,
        !v.saved.contains(stored_id(accepted_fields(event_json)->0)),
    ensures
        ({
            let id = stored_id(accepted_fields(event_json)->0);
            let after = dispatch_one(v, MessageView::Event { sub_id, event_json }, now);
            &&& after.saved.contains(id)
            &&& after.writes == v.writes.push(OpView::SaveEvent { event_id: id, event_json })
            &&& after.feed == v.feed.push(row_of(accepted_fields(event_json)->0))
        }),
{
}

/// Whether a message is an event that the engine accepts, with id `id`.
pub open spec fn accepted_event_id(m: MessageView, id: Seq<char>) -> bool {
    m matches MessageView::Event { event_json, .. } && accepted_fields(event_json) is Some
        && stored_id(accepted_fields(event_json)->0) == id
}

proof fn lemma_saved_grows(v: CoreView, msgs: Seq<MessageView>, now: int)
    ensures
        v.saved.subset_of(dispatch_all(v, msgs, now).saved),
    decreases msgs.len(),
{
    if msgs.len() > 0 {
        lemma_saved_grows(v, msgs.drop_last(), now);
        let u = dispatch_all(v, msgs.drop_last(), now);
        assert(u.saved.subset_of(dispatch_one(u, msgs.last(), now).saved));
    }
}

/// Every well-formed event among the handled messages ends up saved: after
/// handling them, its id is among the saved ids (each saved exactly once,
/// since a saved id is never saved again).
pub proof fn dispatched_events_are_saved(v: CoreView, msgs: Seq<MessageView>, now: int)
    ensures
        forall|k: int, id: Seq<char>| 0 <= k < msgs.len() && #[trigger] accepted_event_id(msgs[k], id)
            ==> dispatch_all(v, msgs, now).saved.contains(id),
    decreases msgs.len(),
{
    if msgs.len() > 0 {
        let p = msgs.drop_last();
        dispatched_events_are_saved(v, p, now);
        let u = dispatch_all(v, p, now);
        assert forall|k: int, id: Seq<char>| 0 <= k < msgs.len() && #[trigger] accepted_event_id(msgs[k], id)
            implies dispatch_all(v, msgs, now).saved.contains(id) by {
            assert(dispatch_all(v, msgs, now) == dispatch_one(u, msgs.last(), now));
            assert(u.saved.subset_of(dispatch_one(u, msgs.last(), now).saved));
            if k < p.len() {
                assert(msgs[k] == p[k]);
                assert(u.saved.contains(id));
            } else {
                assert(msgs[k] == msgs.last());
            }
        };
    }
}

} // verus!
