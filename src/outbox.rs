//! The durable send queue: signed events wait here until a relay
//! acknowledges them, with a bounded retry budget. Every change that the
//! persistent store must mirror is queued as a write for the embedder.
use vstd::prelude::*;
use crate::error::CoreError;
use crate::json::{decode_event_fields, json_event_fields};
use crate::relay::{Frame, RelayConnection};
use crate::types::{items_view, ops_view, ItemView, OpView, OutboxItem, OutboxStatus, StorageOp};

verus! {

/// The number of transmissions an entry may have.
pub const MAX_RETRY_COUNT: u32 = 5;

/// Seconds to wait for an acknowledgement before transmitting again, and the
/// unit of the linear delay before a failed entry is rearmed.
pub const RETRY_DELAY_SECONDS: i64 = 5;

/// The error recorded on an entry whose retry budget ran out.
pub open spec fn exhausted_message() -> Seq<char> {
    "Max retry count exceeded"@
}

/// The `id` member of an event's JSON, when it has a string one.
pub open spec fn event_id_of(event_json: Seq<char>) -> Option<Seq<char>> {
    match json_event_fields(event_json) {
        Some(f) => f.id,
        None => None,
    }
}

/// Whether an entry's retry budget is spent.
pub open spec fn exhausted(it: ItemView) -> bool {
    it.retry_count >= MAX_RETRY_COUNT
}

/// Whether an entry that was sent is still within its wait for an
/// acknowledgement at `now`.
pub open spec fn awaiting_ack(it: ItemView, now: int) -> bool {
    it.status == OutboxStatus::Sent && now - it.last_try_at < RETRY_DELAY_SECONDS
}

/// Whether one processing pass at `now` transmits the entry, given whether
/// some relay is connected.
pub open spec fn transmits(it: ItemView, now: int, connected: bool) -> bool {
    !exhausted(it) && it.status != OutboxStatus::Error && !awaiting_ack(it, now) && connected
}

/// What one processing pass leaves of an entry: none once its budget is
/// spent; sent, with its count raised, when it is transmitted; else as it was.
pub open spec fn step_kept(it: ItemView, now: int, connected: bool) -> Option<ItemView> {
    if exhausted(it) {
        None
    } else if transmits(it, now, connected) {
        Some(ItemView { status: OutboxStatus::Sent, last_try_at: now, retry_count: it.retry_count + 1, ..it })
    } else {
        Some(it)
    }
}

/// The store write of one processing pass over an entry.
pub open spec fn step_write(it: ItemView, now: int, connected: bool) -> Option<OpView> {
    if exhausted(it) {
        Some(OpView::SetOutboxStatus { req_id: it.req_id, status: OutboxStatus::Error, error: Some(exhausted_message()) })
    } else if transmits(it, now, connected) {
        Some(OpView::SetOutboxStatus { req_id: it.req_id, status: OutboxStatus::Sent, error: None })
    } else {
        None
    }
}

pub open spec fn push_opt<A>(s: Seq<A>, o: Option<A>) -> Seq<A> {
    match o {
        Some(x) => s.push(x),
        None => s,
    }
}

/// The entries left by one processing pass, in order.
pub open spec fn processed(items: Seq<ItemView>, now: int, connected: bool) -> Seq<ItemView>
    decreases items.len(),
{
    if items.len() == 0 {
        Seq::empty()
    } else {
        push_opt(processed(items.drop_last(), now, connected), step_kept(items.last(), now, connected))
    }
}

/// The event JSON transmitted by one processing pass, in order.
pub open spec fn processed_sends(items: Seq<ItemView>, now: int, connected: bool) -> Seq<Seq<char>>
    decreases items.len(),
{
    if items.len() == 0 {
        Seq::empty()
    } else {
        let rest = processed_sends(items.drop_last(), now, connected);
        if transmits(items.last(), now, connected) { rest.push(items.last().event_json) } else { rest }
    }
}

/// The store writes of one processing pass, in order.
pub open spec fn processed_writes(items: Seq<ItemView>, now: int, connected: bool) -> Seq<OpView>
    decreases items.len(),
{
    if items.len() == 0 {
        Seq::empty()
    } else {
        push_opt(processed_writes(items.drop_last(), now, connected), step_write(items.last(), now, connected))
    }
}

/// Whether a failed entry is rearmed at `now`: budget left and at least
/// five seconds per transmission so far have passed.
pub open spec fn rearms(it: ItemView, now: int) -> bool {
    it.status == OutboxStatus::Error && it.retry_count < MAX_RETRY_COUNT
        && now - it.last_try_at >= RETRY_DELAY_SECONDS * it.retry_count
}

pub open spec fn rearmed(it: ItemView, now: int) -> ItemView {
    if rearms(it, now) { ItemView { status: OutboxStatus::Queued, error: None, ..it } } else { it }
}

/// The index of the first entry whose event has the id `event_id`, from
/// `from` on; -1 when there is none.
pub open spec fn match_index(items: Seq<ItemView>, event_id: Seq<char>, from: int) -> int
    decreases items.len() - from,
{
    if from < 0 || from >= items.len() {
        -1
    } else if event_id_of(items[from].event_json) == Some(event_id) {
        from
    } else {
        match_index(items, event_id, from + 1)
    }
}

proof fn lemma_match_index(items: Seq<ItemView>, event_id: Seq<char>, from: int)
    requires
        0 <= from,
    ensures
        match_index(items, event_id, from) == -1 || (from <= match_index(items, event_id, from) < items.len()),
    decreases items.len() - from,
{
    if from < items.len() && event_id_of(items[from].event_json) != Some(event_id) {
        lemma_match_index(items, event_id, from + 1);
    }
}

/// Whether a restored entry is taken back into the queue.
pub open spec fn restorable(it: ItemView) -> bool {
    (it.status == OutboxStatus::Queued || it.status == OutboxStatus::Sent) && it.retry_count <= MAX_RETRY_COUNT
}

pub open spec fn has_req(items: Seq<ItemView>, req_id: Seq<char>) -> bool {
    exists|i: int| 0 <= i < items.len() && #[trigger] items[i].req_id == req_id
}

/// The queue after restoring `given` after `start`, in order.
pub open spec fn loaded(start: Seq<ItemView>, given: Seq<ItemView>) -> Seq<ItemView>
    decreases given.len(),
{
    if given.len() == 0 {
        start
    } else {
        let s = loaded(start, given.drop_last());
        let x = given.last();
        if restorable(x) && !has_req(s, x.req_id) { s.push(x) } else { s }
    }
}

/// The entries after an acknowledgement of `event_id`: the first entry
/// with that event id leaves when accepted, and becomes a failed entry
/// carrying `message` when rejected; no match changes nothing.
pub open spec fn ok_items(items: Seq<ItemView>, event_id: Seq<char>, accepted: bool, message: Seq<char>) -> Seq<ItemView> {
    let k = match_index(items, event_id, 0);
    if k < 0 {
        items
    } else if accepted {
        items.remove(k)
    } else {
        items.update(k, ItemView { status: OutboxStatus::Error, error: Some(message), ..items[k] })
    }
}

/// The store writes of an acknowledgement: an accepted entry is recorded
/// acknowledged, then deleted; a rejected one is recorded failed with the
/// message.
pub open spec fn ok_writes(items: Seq<ItemView>, event_id: Seq<char>, accepted: bool, message: Seq<char>) -> Seq<OpView> {
    let k = match_index(items, event_id, 0);
    if k < 0 {
        Seq::empty()
    } else if accepted {
        seq![
            OpView::SetOutboxStatus { req_id: items[k].req_id, status: OutboxStatus::Acknowledged, error: None },
            OpView::DeleteOutboxItem { req_id: items[k].req_id },
        ]
    } else {
        seq![OpView::SetOutboxStatus { req_id: items[k].req_id, status: OutboxStatus::Error, error: Some(message) }]
    }
}

pub ghost struct OutboxView {
    pub items: Seq<ItemView>,
    pub writes: Seq<OpView>,
}

/// The send queue.
pub struct OutboxQueue {
    pending: Vec<OutboxItem>,
    writes: Vec<StorageOp>,
}

impl View for OutboxQueue {
    type V = OutboxView;

    closed spec fn view(&self) -> OutboxView {
        OutboxView { items: items_view(self.pending@), writes: ops_view(self.writes@) }
    }
}

/// The invariant of the queue: no entry has more transmissions than the
/// budget, and none is acknowledged (those leave the queue).
pub open spec fn queue_wf(items: Seq<ItemView>) -> bool {
    &&& forall|i: int| 0 <= i < items.len() ==> #[trigger] items[i].retry_count <= MAX_RETRY_COUNT
        && items[i].status != OutboxStatus::Acknowledged
    &&& req_ids_unique(items)
}

/// Whether no two entries share a request id.
pub open spec fn req_ids_unique(items: Seq<ItemView>) -> bool {
    forall|i: int, j: int| 0 <= i < items.len() && 0 <= j < items.len() && #[trigger] items[i].req_id == #[trigger] items[j].req_id ==> i == j
}

/// A processing pass keeps every entry within the retry budget, keeps
/// acknowledged entries out of the queue, and keeps request ids distinct.
pub proof fn processing_keeps_retry_budget(items: Seq<ItemView>, now: int, connected: bool)
    requires
        queue_wf(items),
    ensures
        queue_wf(processed(items, now, connected)),
        forall|k: int| 0 <= k < processed(items, now, connected).len() ==> has_req(items, #[trigger] processed(items, now, connected)[k].req_id),
    decreases items.len(),
{
    if items.len() > 0 {
        let t = items.drop_last();
        assert forall|i: int| 0 <= i < t.len() implies #[trigger] t[i].retry_count <= MAX_RETRY_COUNT && t[i].status != OutboxStatus::Acknowledged by {
            assert(t[i] == items[i]);
        };
        assert forall|i: int, j: int| 0 <= i < t.len() && 0 <= j < t.len() && #[trigger] t[i].req_id == #[trigger] t[j].req_id implies i == j by {
            assert(t[i] == items[i] && t[j] == items[j]);
        };
        processing_keeps_retry_budget(t, now, connected);
        let x = items.last();
        assert(x == items[items.len() - 1]);
        let p = processed(t, now, connected);
        assert forall|k: int| 0 <= k < p.len() implies #[trigger] p[k].req_id != x.req_id && has_req(items, p[k].req_id) by {
            assert(has_req(t, p[k].req_id));
            let j = choose|j: int| 0 <= j < t.len() && #[trigger] t[j].req_id == p[k].req_id;
            assert(t[j] == items[j]);
        };
        match step_kept(x, now, connected) {
            Some(y) => {
                let q = p.push(y);
                assert(q == processed(items, now, connected));
                assert forall|i: int, j: int| 0 <= i < q.len() && 0 <= j < q.len() && #[trigger] q[i].req_id == #[trigger] q[j].req_id implies i == j by {
                    if i < p.len() { assert(q[i] == p[i]); }
                    if j < p.len() { assert(q[j] == p[j]); }
                };
                assert forall|k: int| 0 <= k < q.len() implies has_req(items, #[trigger] q[k].req_id) by {
                    if k < p.len() { assert(q[k] == p[k]); } else { assert(items[items.len() - 1].req_id == q[k].req_id); }
                };
            },
            None => {},
        }
    }
}

/// An accepted acknowledgement removes the entry it matches: no entry with
/// its request id stays in the queue.
pub proof fn accepted_entry_leaves_queue(items: Seq<ItemView>, event_id: Seq<char>, message: Seq<char>)
    requires
        queue_wf(items),
        match_index(items, event_id, 0) >= 0,
    ensures
        !has_req(ok_items(items, event_id, true, message), items[match_index(items, event_id, 0)].req_id),
        ok_items(items, event_id, true, message).len() == items.len() - 1,
{
    lemma_match_index(items, event_id, 0);
    let k = match_index(items, event_id, 0);
    let r = items.remove(k);
    if has_req(r, items[k].req_id) {
        let j = choose|j: int| 0 <= j < r.len() && #[trigger] r[j].req_id == items[k].req_id;
        let j2 = if j < k { j } else { j + 1 };
        assert(r[j] == items[j2]);
    }
}

impl OutboxQueue {
    pub open spec fn wf(&self) -> bool {
        queue_wf(self@.items)
    }

    pub fn new() -> (r: Self)
        ensures
            r.wf(),
            r@.items.len() == 0,
            r@.writes.len() == 0,
    {
        let r = OutboxQueue { pending: Vec::new(), writes: Vec::new() };
        assert(items_view(r.pending@) =~= Seq::empty());
        assert(ops_view(r.writes@) =~= Seq::empty());
        r
    }

    fn has_req_id(&self, req_id: &String) -> (r: bool)
        ensures
            r == has_req(self@.items, req_id@),
    {
        let mut i: usize = 0;
        while i < self.pending.len()
            invariant
                i <= self.pending@.len(),
                forall|j: int| 0 <= j < i ==> self.pending@[j].req_id@ != req_id@,
            decreases self.pending@.len() - i,
        {
            if self.pending[i].req_id == *req_id {
                assert(self@.items[i as int].req_id == req_id@);
                return true;
            }
            i += 1;
        }
        proof {
            assert forall|j: int| 0 <= j < self@.items.len() implies #[trigger] self@.items[j].req_id != req_id@ by {
                assert(self@.items[j] == self.pending@[j]@);
            };
        }
        false
    }

    /// Queues an event's JSON under `req_id` at `now`: queued, no
    /// transmission yet, and a write to store the entry. Fails, changing
    /// nothing, when an entry with that `req_id` is already queued.
    pub fn enqueue(&mut self, event_json: String, req_id: String, now: i64) -> (r: Result<String, CoreError>)
        requires
            old(self).wf(),
        ensures
            final(self).wf(),
            has_req(old(self)@.items, req_id@) <==> r is Err,
            r is Err ==> final(self)@ == old(self)@,
            r is Ok ==> r->Ok_0@ == req_id@,
            r is Ok ==> ({
                let it = ItemView {
                    req_id: req_id@,
                    event_json: event_json@,
                    status: OutboxStatus::Queued,
                    last_try_at: now as int,
                    retry_count: 0,
                    error: None,
                };
                &&& final(self)@.items == old(self)@.items.push(it)
                &&& final(self)@.writes == old(self)@.writes.push(OpView::PutOutboxItem(it))
            }),
    {
        if self.has_req_id(&req_id) {
            return Err(CoreError::Other("Duplicate request id".to_string()));
        }
        let item = OutboxItem {
            req_id: req_id.clone(),
            event_json,
            status: OutboxStatus::Queued,
            last_try_at: now,
            retry_count: 0,
            error: None,
        };
        let ghost oi = self.pending@;
        let ghost ow = self.writes@;
        self.writes.push(StorageOp::PutOutboxItem(item.copy()));
        self.pending.push(item);
        assert(items_view(self.pending@) =~= items_view(oi).push(item@));
        assert(ops_view(self.writes@) =~= ops_view(ow).push(OpView::PutOutboxItem(item@)));
        Ok(req_id)
    }

    /// Restores entries read back from the store at startup. Entries that are
    /// queued or sent, within their budget, and whose `req_id` is not queued
    /// yet are appended in order; the others are left out.
    pub fn load_pending(&mut self, items: Vec<OutboxItem>)
        requires
            old(self).wf(),
        ensures
            final(self).wf(),
            final(self)@.writes == old(self)@.writes,
            final(self)@.items == loaded(old(self)@.items, items_view(items@)),
    {
        let ghost start = self@.items;
        let ghost given = items_view(items@);
        let mut k: usize = 0;
        while k < items.len()
            invariant
                queue_wf(self@.items),
                self@.writes == old(self)@.writes,
                start == old(self)@.items,
                given == items_view(items@),
                k <= items@.len(),
                self@.items == loaded(start, given.take(k as int)),
            decreases items@.len() - k,
        {
            let ghost pre = given.take(k as int);
            assert(given.take(k as int + 1).drop_last() =~= pre);
            assert(given.take(k as int + 1).last() == items@[k as int]@);
            let it = &items[k];
            let live = it.status == OutboxStatus::Queued || it.status == OutboxStatus::Sent;
            if live && it.retry_count <= MAX_RETRY_COUNT && !self.has_req_id(&it.req_id) {
                let ghost before = self@.items;
                let c = it.copy();
                self.pending.push(c);
                assert(self@.items =~= before.push(c@));
            }
            k += 1;
        }
        assert(given.take(items@.len() as int) =~= given);
    }

    /// The event JSON of the head entry when it is queued; the queue is left
    /// as it is.
    pub fn dequeue(&self) -> (r: Option<String>)
        ensures
            r is Some <==> self@.items.len() > 0 && self@.items[0].status == OutboxStatus::Queued,
            r is Some ==> r->0@ == self@.items[0].event_json,
    {
        if self.pending.len() > 0 && self.pending[0].status == OutboxStatus::Queued {
            Some(self.pending[0].event_json.clone())
        } else {
            None
        }
    }

    /// One pass over the queue at `now`, in order. An entry whose budget is
    /// spent becomes a terminal error and leaves the queue; a failed entry
    /// waits to be rearmed; a sent entry waits five seconds for its
    /// acknowledgement; any other entry is transmitted when some relay is
    /// connected, becoming sent with its count raised. Returns the frames to
    /// broadcast to the connected relays.
    pub fn process(&mut self, relays: &[RelayConnection], now: i64) -> (r: Vec<Frame>)
        requires
            old(self).wf(),
        ensures
            final(self).wf(),
            ({
                let c = exists|i: int| 0 <= i < relays@.len() && (#[trigger] relays@[i])@.state == crate::relay::ConnectionState::Connected;
                &&& final(self)@.items == processed(old(self)@.items, now as int, c)
                &&& final(self)@.writes == old(self)@.writes + processed_writes(old(self)@.items, now as int, c)
                &&& r@.len() == processed_sends(old(self)@.items, now as int, c).len()
                &&& forall|i: int| 0 <= i < r@.len() ==> (#[trigger] r@[i] is Event)
                    && r@[i]->Event_event_json@ == processed_sends(old(self)@.items, now as int, c)[i]
            }),
    {
        let mut connected = false;
        let mut j: usize = 0;
        while j < relays.len()
            invariant
                j <= relays@.len(),
                connected == exists|i: int| 0 <= i < j && (#[trigger] relays@[i])@.state == crate::relay::ConnectionState::Connected,
            decreases relays@.len() - j,
        {
            if relays[j].is_connected() {
                connected = true;
            }
            j += 1;
        }
        let ghost c = connected;
        let ghost n = now as int;
        let ghost items = self@.items;
        let ghost w0 = self@.writes;
        let mut kept: Vec<OutboxItem> = Vec::new();
        let mut frames: Vec<Frame> = Vec::new();
        let mut i: usize = 0;
        while i < self.pending.len()
            invariant
                items == items_view(self.pending@),
                queue_wf(items),
                i <= items.len(),
                items_view(kept@) == processed(items.take(i as int), n, c),
                ops_view(self.writes@) == w0 + processed_writes(items.take(i as int), n, c),
                frames@.len() == processed_sends(items.take(i as int), n, c).len(),
                forall|k: int| 0 <= k < frames@.len() ==> (#[trigger] frames@[k] is Event)
                    && frames@[k]->Event_event_json@ == processed_sends(items.take(i as int), n, c)[k],
                n == now as int,
                c == connected,
            decreases items.len() - i,
        {
            let ghost pre = items.take(i as int);
            let ghost nxt = items.take(i as int + 1);
            assert(nxt.drop_last() =~= pre);
            assert(nxt.last() == items[i as int]);
            let it = &self.pending[i];
            assert(it@ == items[i as int]);
            let ghost kept0 = kept@;
            let ghost frames0 = frames@;
            let ghost writes0 = self.writes@;
            if it.retry_count >= MAX_RETRY_COUNT {
                self.writes.push(StorageOp::SetOutboxStatus {
                    req_id: it.req_id.clone(),
                    status: OutboxStatus::Error,
                    error: Some("Max retry count exceeded".to_string()),
                });
                assert(ops_view(self.writes@) =~= ops_view(writes0).push(step_write(it@, n, c)->0));
            } else if it.status != OutboxStatus::Error
                && !(it.status == OutboxStatus::Sent && (now as i128 - it.last_try_at as i128) < RETRY_DELAY_SECONDS as i128)
                && connected {
                let mut sent = it.copy();
                sent.status = OutboxStatus::Sent;
                sent.last_try_at = now;
                sent.retry_count = it.retry_count + 1;
                self.writes.push(StorageOp::SetOutboxStatus { req_id: it.req_id.clone(), status: OutboxStatus::Sent, error: None });
                frames.push(Frame::Event { event_json: it.event_json.clone() });
                kept.push(sent);
                assert(ops_view(self.writes@) =~= ops_view(writes0).push(step_write(it@, n, c)->0));
                assert(items_view(kept@) =~= items_view(kept0).push(step_kept(it@, n, c)->0));
            } else {
                kept.push(it.copy());
                assert(items_view(kept@) =~= items_view(kept0).push(step_kept(it@, n, c)->0));
            }
            assert(ops_view(self.writes@) == w0 + processed_writes(nxt, n, c)) by {
                assert(w0 + processed_writes(pre, n, c) + seq![step_write(it@, n, c)->0] =~= w0 + processed_writes(pre, n, c).push(step_write(it@, n, c)->0));
            };
            i += 1;
        }
        assert(items.take(items.len() as int) =~= items);
        proof { processing_keeps_retry_budget(items, n, c); }
        self.pending = kept;
        frames
    }

    /// Handles a relay's acknowledgement of the event with id `event_id`. The
    /// first entry whose event has that id is found: when accepted it leaves
    /// the queue and the store records it acknowledged, then deletes it; when
    /// rejected it becomes a failed entry carrying `message`, which the store
    /// records. An id that matches no entry changes nothing.
    pub fn on_ok(&mut self, event_id: &str, accepted: bool, message: &str)
        requires
            old(self).wf(),
        ensures
            final(self).wf(),
            final(self)@.items == ok_items(old(self)@.items, event_id@, accepted, message@),
            final(self)@.writes == old(self)@.writes + ok_writes(old(self)@.items, event_id@, accepted, message@),
    {
        let ghost items = self@.items;
        let target = event_id.to_string();
        let mut i: usize = 0;
        let mut found: Option<usize> = None;
        while i < self.pending.len() && found.is_none()
            invariant
                items == items_view(self.pending@),
                i <= items.len(),
                target@ == event_id@,
                found is None ==> match_index(items, event_id@, 0) == match_index(items, event_id@, i as int),
                found is Some ==> found->0 < items.len() && match_index(items, event_id@, 0) == found->0 as int,
            decreases items.len() - i + (if found is None { 1int } else { 0int }),
        {
            assert(items[i as int] == self.pending@[i as int]@);
            let hit = match decode_event_fields(self.pending[i].event_json.as_str()) {
                Some(fields) => match fields.id {
                    Some(id) => id == target,
                    None => false,
                },
                None => false,
            };
            if hit {
                assert(event_id_of(items[i as int].event_json) == Some(event_id@));
                assert(match_index(items, event_id@, i as int) == i as int);
                found = Some(i);
            } else {
                assert(event_id_of(items[i as int].event_json) != Some(event_id@));
                assert(match_index(items, event_id@, i as int) == match_index(items, event_id@, i as int + 1));
                i += 1;
            }
        }
        proof { lemma_match_index(items, event_id@, 0); }
        let k = match found {
            Some(k) => k,
            None => {
                assert(match_index(items, event_id@, i as int) == -1);
                assert(self@.writes =~= old(self)@.writes + ok_writes(items, event_id@, accepted, message@));
                return;
            },
        };
        let ghost ow = self@.writes;
        let req_id = self.pending[k].req_id.clone();
        let ghost it = items[k as int];
        if accepted {
            let _ = self.pending.remove(k);
            self.writes.push(StorageOp::SetOutboxStatus { req_id: req_id.clone(), status: OutboxStatus::Acknowledged, error: None });
            self.writes.push(StorageOp::DeleteOutboxItem { req_id });
            let ghost ni = items.remove(k as int);
            assert(items_view(self.pending@) =~= ni);
            assert(self@.writes =~= ow + ok_writes(items, event_id@, accepted, message@));
            proof {
                assert forall|j: int| 0 <= j < ni.len() implies #[trigger] ni[j].retry_count <= MAX_RETRY_COUNT
                    && ni[j].status != OutboxStatus::Acknowledged by {
                    let j2 = if j < k as int { j } else { j + 1 };
                    assert(ni[j] == items[j2]);
                };
            }
        } else {
            let mut item = self.pending.remove(k);
            item.status = OutboxStatus::Error;
            item.error = Some(message.to_string());
            self.pending.insert(k, item);
            self.writes.push(StorageOp::SetOutboxStatus { req_id, status: OutboxStatus::Error, error: Some(message.to_string()) });
            let ghost ni = items.update(k as int, ItemView { status: OutboxStatus::Error, error: Some(message@), ..it });
            assert(items_view(self.pending@) =~= ni);
            assert(self@.writes =~= ow + ok_writes(items, event_id@, accepted, message@));
            proof {
                assert forall|j: int| 0 <= j < ni.len() implies #[trigger] ni[j].retry_count <= MAX_RETRY_COUNT
                    && ni[j].status != OutboxStatus::Acknowledged by {
                    if j != k as int { assert(ni[j] == items[j]); }
                };
            }
        }
    }

    /// Rearms, at `now`, every failed entry that has budget left and whose
    /// linear delay (five seconds per transmission so far) has passed: it is
    /// queued again, its error cleared, and the store records it.
    pub fn retry_failed(&mut self, now: i64)
        requires
            old(self).wf(),
        ensures
            final(self).wf(),
            final(self)@.items.len() == old(self)@.items.len(),
            forall|i: int| 0 <= i < old(self)@.items.len() ==> #[trigger] final(self)@.items[i] == rearmed(old(self)@.items[i], now as int),
            final(self)@.writes.len() >= old(self)@.writes.len(),
            final(self)@.writes.subrange(0, old(self)@.writes.len() as int) == old(self)@.writes,
            forall|i: int| old(self)@.writes.len() <= i < final(self)@.writes.len() ==> (#[trigger] final(self)@.writes[i] is SetOutboxStatus)
                && final(self)@.writes[i]->SetOutboxStatus_status == OutboxStatus::Queued,
    {
        let ghost items = self@.items;
        let ghost w0 = self@.writes;
        let mut i: usize = 0;
        while i < self.pending.len()
            invariant
                self.pending@.len() == items.len(),
                queue_wf(items),
                i <= items.len(),
                forall|j: int| 0 <= j < i ==> #[trigger] self.pending@[j]@ == rearmed(items[j], now as int),
                forall|j: int| i <= j < items.len() ==> #[trigger] self.pending@[j]@ == items[j],
                self@.writes.len() >= w0.len(),
                self@.writes.subrange(0, w0.len() as int) == w0,
                forall|j: int| w0.len() <= j < self@.writes.len() ==> (#[trigger] self@.writes[j] is SetOutboxStatus)
                    && self@.writes[j]->SetOutboxStatus_status == OutboxStatus::Queued,
            decreases items.len() - i,
        {
            let ghost before = self.pending@;
            let ghost wb = self@.writes;
            assert(before[i as int]@ == items[i as int]);
            if self.pending[i].status == OutboxStatus::Error && self.pending[i].retry_count < MAX_RETRY_COUNT {
                let elapsed: i128 = now as i128 - self.pending[i].last_try_at as i128;
                if elapsed >= RETRY_DELAY_SECONDS as i128 * self.pending[i].retry_count as i128 {
                    let mut item = self.pending.remove(i);
                    item.status = OutboxStatus::Queued;
                    item.error = None;
                    let op = StorageOp::SetOutboxStatus { req_id: item.req_id.clone(), status: OutboxStatus::Queued, error: None };
                    self.writes.push(op);
                    self.pending.insert(i, item);
                    assert(self.pending@ =~= before.update(i as int, item));
                    assert(self@.writes =~= wb.push(op@));
                    assert(self@.writes.subrange(0, w0.len() as int) =~= wb.subrange(0, w0.len() as int));
                }
            }
            proof {
                assert(self.pending@[i as int]@ == rearmed(items[i as int], now as int));
                assert forall|j: int| 0 <= j < i + 1 implies #[trigger] self.pending@[j]@ == rearmed(items[j], now as int) by {
                    if j < i { assert(self.pending@[j] == before[j]); }
                };
                assert forall|j: int| i + 1 <= j < items.len() implies #[trigger] self.pending@[j]@ == items[j] by {
                    assert(self.pending@[j] == before[j]);
                };
            }
            i += 1;
        }
        proof {
            assert forall|j: int| 0 <= j < items.len() implies #[trigger] self@.items[j] == rearmed(items[j], now as int) by {
                assert(self@.items[j] == self.pending@[j]@);
            };
            assert forall|j: int| 0 <= j < self@.items.len() implies #[trigger] self@.items[j].retry_count <= MAX_RETRY_COUNT
                && self@.items[j].status != OutboxStatus::Acknowledged by {
                assert(self@.items[j] == rearmed(items[j], now as int));
            };
        }
    }

    /// Removes and returns the store writes not yet handed out, in order.
    pub fn take_writes(&mut self) -> (r: Vec<StorageOp>)
        requires
            old(self).wf(),
        ensures
            final(self).wf(),
            ops_view(r@) == old(self)@.writes,
            final(self)@.items == old(self)@.items,
            final(self)@.writes.len() == 0,
    {
        let mut r = Vec::new();
        core::mem::swap(&mut r, &mut self.writes);
        assert(ops_view(self.writes@) =~= Seq::empty());
        r
    }

    /// The entries, in queue order.
    pub fn items(&self) -> (r: &Vec<OutboxItem>)
        ensures
            items_view(r@) == self@.items,
    {
        &self.pending
    }

    pub fn len(&self) -> (r: usize)
        ensures
            r == self@.items.len(),
    {
        self.pending.len()
    }

    pub fn is_empty(&self) -> (r: bool)
        ensures
            r == (self@.items.len() == 0),
    {
        self.pending.len() == 0
    }
}

/// The retry budget: an entry one transmission short of the budget that is
/// transmitted reaches the budget, and an entry at the budget is never
/// rearmed and becomes a terminal error at its next processing pass.
pub proof fn retry_budget_ends_in_error(it: ItemView, now: int, later: int, connected: bool)
    requires
        it.retry_count == MAX_RETRY_COUNT - 1,
        transmits(it, now, connected),
    ensures
        step_kept(it, now, connected)->0.retry_count == MAX_RETRY_COUNT,
        !rearms(step_kept(it, now, connected)->0, later),
        step_kept(step_kept(it, now, connected)->0, later, connected) is None,
        step_write(step_kept(it, now, connected)->0, later, connected) == Some(OpView::SetOutboxStatus {
            req_id: it.req_id,
            status: OutboxStatus::Error,
            error: Some(exhausted_message()),
        }),
{
}

} // verus!
