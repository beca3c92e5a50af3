//! Records shared by the engine's components.
use vstd::prelude::*;

verus! {

/// A row of the UI feed.
#[derive(Debug, Clone)]
pub struct UiRow {
    pub id: String,
    pub kind: u16,
    pub pubkey: String,
    pub created_at: i64,
    pub content: String,
    pub image_url: Option<String>,
}

/// An entry of the durable send queue.
#[derive(Debug, Clone)]
pub struct OutboxItem {
    pub req_id: String,
    pub event_json: String,
    pub status: OutboxStatus,
    pub last_try_at: i64,
    pub retry_count: u32,
    pub error: Option<String>,
}

/// Delivery status of an outbox entry.
#[derive(Debug, Clone, Copy, PartialEq, Eq, Structural)]
pub enum OutboxStatus {
    Queued,
    Sent,
    Acknowledged,
    Error,
}

/// An event as the store keeps it.
#[derive(Debug, Clone)]
pub struct StoredEvent {
    pub id: String,
    pub kind: u16,
    pub pubkey: String,
    pub created_at: i64,
    pub content: String,
    pub tags: Vec<Vec<String>>,
    pub sig: String,
    pub relay_hint: Option<String>,
    pub inserted_at: i64,
}

/// A query on stored events; an absent field does not restrict.
#[derive(Debug, Clone)]
pub struct StorageFilter {
    pub kinds: Option<Vec<u16>>,
    pub authors: Option<Vec<String>>,
    pub since: Option<i64>,
    pub until: Option<i64>,
    pub limit: Option<u32>,
}

impl StorageFilter {
    /// The filter that restricts nothing.
    pub fn any() -> (r: StorageFilter)
        ensures
            r.kinds is None && r.authors is None && r.since is None && r.until is None && r.limit is None,
    {
        StorageFilter { kinds: None, authors: None, since: None, until: None, limit: None }
    }
}

/// A direct-message conversation with one peer.
#[derive(Debug, Clone)]
pub struct DmThread {
    pub peer: String,
    pub last_seen: i64,
    pub last_msg_at: i64,
}

/// The time range of a subscription; it only ever grows backwards.
#[derive(Debug, Clone, Copy)]
pub struct TimeWindow {
    pub since: i64,
    pub until: Option<i64>,
}

/// `x` held to the range of `i64`.
pub open spec fn clamp_i64(x: int) -> int {
    if x < i64::MIN { i64::MIN as int } else if x > i64::MAX { i64::MAX as int } else { x }
}

/// `a - b`, held to the range of `i64`.
pub fn sub_clamped(a: i64, b: i64) -> (r: i64)
    ensures
        r as int == clamp_i64(a - b),
{
    let d: i128 = a as i128 - b as i128;
    if d < i64::MIN as i128 {
        i64::MIN
    } else if d > i64::MAX as i128 {
        i64::MAX
    } else {
        d as i64
    }
}

impl TimeWindow {
    pub fn new(since: i64) -> (r: Self)
        ensures
            r.since == since,
            r.until is None,
    {
        TimeWindow { since, until: None }
    }

    /// Moves the start of the window back by `additional_seconds`, held to
    /// the range of `i64`.
    pub fn extend(&mut self, additional_seconds: i64)
        ensures
            final(self).since as int == clamp_i64(old(self).since - additional_seconds),
            final(self).until == old(self).until,
    {
        self.since = sub_clamped(self.since, additional_seconds);
    }
}

pub ghost struct ItemView {
    pub req_id: Seq<char>,
    pub event_json: Seq<char>,
    pub status: OutboxStatus,
    pub last_try_at: int,
    pub retry_count: nat,
    pub error: Option<Seq<char>>,
}

pub open spec fn opt_string_view(o: Option<String>) -> Option<Seq<char>> {
    match o {
        Some(s) => Some(s@),
        None => None,
    }
}

impl View for OutboxItem {
    type V = ItemView;

    open spec fn view(&self) -> ItemView {
        ItemView {
            req_id: self.req_id@,
            event_json: self.event_json@,
            status: self.status,
            last_try_at: self.last_try_at as int,
            retry_count: self.retry_count as nat,
            error: opt_string_view(self.error),
        }
    }
}

pub open spec fn items_view(v: Seq<OutboxItem>) -> Seq<ItemView> {
    v.map_values(|i: OutboxItem| i@)
}

/// A write that the engine asks of the persistent store.
#[derive(Debug, Clone)]
pub enum StorageOp {
    /// Store a new outbox entry.
    PutOutboxItem(OutboxItem),
    /// Record the status (and error) of an outbox entry.
    SetOutboxStatus { req_id: String, status: OutboxStatus, error: Option<String> },
    /// Remove an outbox entry.
    DeleteOutboxItem { req_id: String },
    /// Store an event under its id.
    SaveEvent { event_id: String, event_json: String },
}

pub ghost enum OpView {
    PutOutboxItem(ItemView),
    SetOutboxStatus { req_id: Seq<char>, status: OutboxStatus, error: Option<Seq<char>> },
    DeleteOutboxItem { req_id: Seq<char> },
    SaveEvent { event_id: Seq<char>, event_json: Seq<char> },
}

impl View for StorageOp {
    type V = OpView;

    open spec fn view(&self) -> OpView {
        match self {
            StorageOp::PutOutboxItem(i) => OpView::PutOutboxItem(i@),
            StorageOp::SetOutboxStatus { req_id, status, error } =>
                OpView::SetOutboxStatus { req_id: req_id@, status: *status, error: opt_string_view(*error) },
            StorageOp::DeleteOutboxItem { req_id } => OpView::DeleteOutboxItem { req_id: req_id@ },
            StorageOp::SaveEvent { event_id, event_json } => OpView::SaveEvent { event_id: event_id@, event_json: event_json@ },
        }
    }
}

pub open spec fn ops_view(v: Seq<StorageOp>) -> Seq<OpView> {
    v.map_values(|o: StorageOp| o@)
}

/// A copy of a string option.
pub fn copy_opt(o: &Option<String>) -> (r: Option<String>)
    ensures
        opt_string_view(r) == opt_string_view(*o),
{
    match o {
        Some(s) => Some(s.clone()),
        None => None,
    }
}

impl OutboxItem {
    /// A copy of the entry.
    pub fn copy(&self) -> (r: OutboxItem)
        ensures
            r@ == self@,
    {
        OutboxItem {
            req_id: self.req_id.clone(),
            event_json: self.event_json.clone(),
            status: self.status,
            last_try_at: self.last_try_at,
            retry_count: self.retry_count,
            error: copy_opt(&self.error),
        }
    }
}

pub ghost struct UiRowView {
    pub id: Seq<char>,
    pub kind: u16,
    pub pubkey: Seq<char>,
    pub created_at: i64,
    pub content: Seq<char>,
    pub image_url: Option<Seq<char>>,
}

impl View for UiRow {
    type V = UiRowView;

    open spec fn view(&self) -> UiRowView {
        UiRowView {
            id: self.id@,
            kind: self.kind,
            pubkey: self.pubkey@,
            created_at: self.created_at,
            content: self.content@,
            image_url: opt_string_view(self.image_url),
        }
    }
}

pub open spec fn rows_view(v: Seq<UiRow>) -> Seq<UiRowView> {
    v.map_values(|r: UiRow| r@)
}

} // verus!
