//! One relay connection: its lifecycle, reconnect backoff, inbound framing
//! and outbound frames. The socket itself lives with the embedder, which
//! reports socket events here and performs the transmissions decided here.
use vstd::prelude::*;
use crate::error::CoreError;
use crate::json::{decode_json_array, json_array_items, json_quoted, quote_json, slots_view, JsonSlot, JsonSlotView};

verus! {

/// Connection state of a relay.
#[derive(Debug, Clone, Copy, PartialEq, Eq, Structural)]
pub enum ConnectionState {
    Disconnected,
    Connecting,
    Connected,
}

/// The reconnect delay schedule: starts at one second, doubles on each
/// advance, is capped at sixty seconds, and resets to one second.
#[derive(Debug, Clone)]
pub struct ExponentialBackoff {
    current_delay: u32,
    max_delay: u32,
    min_delay: u32,
}

pub ghost struct BackoffView {
    pub current: nat,
    pub min: nat,
    pub max: nat,
}

impl BackoffView {
    pub open spec fn wf(self) -> bool {
        self.min == 1 && self.max == 60 && 1 <= self.current <= 60
    }

    /// The schedule after one advance.
    pub open spec fn advanced(self) -> BackoffView {
        BackoffView {
            current: if 2 * self.current <= self.max { 2 * self.current } else { self.max },
            ..self
        }
    }

    /// The schedule after a reset.
    pub open spec fn reset(self) -> BackoffView {
        BackoffView { current: self.min, ..self }
    }
}

/// The schedule of a fresh connection.
pub open spec fn initial_backoff() -> BackoffView {
    BackoffView { current: 1, min: 1, max: 60 }
}

impl View for ExponentialBackoff {
    type V = BackoffView;

    closed spec fn view(&self) -> BackoffView {
        BackoffView {
            current: self.current_delay as nat,
            min: self.min_delay as nat,
            max: self.max_delay as nat,
        }
    }
}

impl ExponentialBackoff {
    pub fn new() -> (r: Self)
        ensures
            r@ == initial_backoff(),
    {
        ExponentialBackoff { current_delay: 1, max_delay: 60, min_delay: 1 }
    }

    /// The delay now in force, in seconds.
    pub fn current_delay(&self) -> (r: u32)
        ensures
            r as nat == self@.current,
    {
        self.current_delay
    }

    /// Returns the delay now in force and advances the schedule.
    pub fn next_delay(&mut self) -> (r: u32)
        requires
            old(self)@.wf(),
        ensures
            r as nat == old(self)@.current,
            final(self)@ == old(self)@.advanced(),
            final(self)@.wf(),
    {
        let delay = self.current_delay;
        let doubled = self.current_delay * 2;
        self.current_delay = if doubled <= self.max_delay { doubled } else { self.max_delay };
        delay
    }

    /// Returns the schedule to its first delay.
    pub fn reset(&mut self)
        requires
            old(self)@.wf(),
        ensures
            final(self)@ == old(self)@.reset(),
            final(self)@.wf(),
    {
        self.current_delay = self.min_delay;
    }
}

/// Starting from a fresh schedule, three advances hand out 1, 2 and 4
/// seconds, and after a reset the next delay is 1 second again.
pub proof fn backoff_reset_after_advance(b: BackoffView)
    requires
        b == initial_backoff(),
    ensures
        b.current == 1,
        b.advanced().current == 2,
        b.advanced().advanced().current == 4,
        b.advanced().advanced().advanced().reset().current == 1,
        b.advanced().advanced().advanced().reset().advanced().wf(),
{
}

/// Under the schedule's invariant a reset always returns the delay to one
/// second, and an advance never passes sixty.
pub proof fn backoff_bounds(b: BackoffView)
    requires
        b.wf(),
    ensures
        b.reset().current == 1,
        b.reset().wf(),
        b.advanced().wf(),
        b.advanced().current <= 60,
{
}

/// A message received from a relay.
#[derive(Debug, Clone)]
pub enum RelayMessage {
    Event { sub_id: String, event_json: String },
    Eose { sub_id: String },
    Ack { event_id: String, accepted: bool, message: String },
    Notice { message: String },
}

pub ghost enum MessageView {
    Event { sub_id: Seq<char>, event_json: Seq<char> },
    Eose { sub_id: Seq<char> },
    Ack { event_id: Seq<char>, accepted: bool, message: Seq<char> },
    Notice { message: Seq<char> },
}

impl View for RelayMessage {
    type V = MessageView;

    open spec fn view(&self) -> MessageView {
        match self {
            RelayMessage::Event { sub_id, event_json } => MessageView::Event { sub_id: sub_id@, event_json: event_json@ },
            RelayMessage::Eose { sub_id } => MessageView::Eose { sub_id: sub_id@ },
            RelayMessage::Ack { event_id, accepted, message } => MessageView::Ack { event_id: event_id@, accepted: *accepted, message: message@ },
            RelayMessage::Notice { message } => MessageView::Notice { message: message@ },
        }
    }
}

/// The message that a relay frame's elements stand for: the first element is
/// the tag; `["EVENT", sub_id, event]`, `["EOSE", sub_id]`,
/// `["OK", event_id, accepted, message?]` and `["NOTICE", message]` are
/// understood, anything else is none. An OK without a fourth element, or
/// whose fourth element is not a string, carries an empty message.
pub open spec fn frame_message(items: Seq<JsonSlotView>) -> Option<MessageView> {
    if items.len() == 0 || items[0].string is None {
        None
    } else {
        let tag = items[0].string->0;
        if tag == "EVENT"@ {
            if items.len() < 3 || items[1].string is None {
                None
            } else {
                Some(MessageView::Event { sub_id: items[1].string->0, event_json: items[2].text })
            }
        } else if tag == "EOSE"@ {
            if items.len() < 2 || items[1].string is None {
                None
            } else {
                Some(MessageView::Eose { sub_id: items[1].string->0 })
            }
        } else if tag == "OK"@ {
            if items.len() < 3 || items[1].string is None || items[2].boolean is None {
                None
            } else {
                Some(MessageView::Ack {
                    event_id: items[1].string->0,
                    accepted: items[2].boolean->0,
                    message: if items.len() >= 4 && items[3].string is Some { items[3].string->0 } else { Seq::empty() },
                })
            }
        } else if tag == "NOTICE"@ {
            if items.len() < 2 || items[1].string is None {
                None
            } else {
                Some(MessageView::Notice { message: items[1].string->0 })
            }
        } else {
            None
        }
    }
}

/// The message that a relay's text frame stands for.
pub open spec fn parsed_message(text: Seq<char>) -> Option<MessageView> {
    match json_array_items(text) {
        Some(items) => frame_message(items),
        None => None,
    }
}

fn copy_string(s: &String) -> (r: String)
    ensures
        r@ == s@,
{
    s.clone()
}

fn slot_string(items: &Vec<JsonSlot>, i: usize) -> (r: Option<String>)
    requires
        i < items@.len(),
    ensures
        r is Some == items@[i as int].string is Some,
        r is Some ==> r->0@ == items@[i as int].string->0@,
{
    match &items[i].string {
        Some(s) => Some(copy_string(s)),
        None => None,
    }
}

fn is_tag(tag: &String, name: &str) -> (r: bool)
    ensures
        r == (tag@ == name@),
{
    let expected = String::from_str(name);
    *tag == expected
}

impl RelayMessage {
    /// Reads a frame from its decoded JSON array elements.
    pub fn from_items(items: &Vec<JsonSlot>) -> (r: Result<RelayMessage, CoreError>)
        ensures
            r is Ok <==> frame_message(slots_view(items@)) is Some,
            r is Ok ==> r->Ok_0@ == frame_message(slots_view(items@))->0,
            r is Err ==> r->Err_0 is ParseError,
    {
        let ghost v = slots_view(items@);
        assert(v.len() == items@.len());
        if items.len() == 0 {
            return Err(CoreError::ParseError("Empty message array".to_string()));
        }
        assert(v[0] == items@[0]@);
        let tag = match slot_string(items, 0) {
            Some(t) => t,
            None => return Err(CoreError::ParseError("Message type not a string".to_string())),
        };
        if is_tag(&tag, "EVENT") {
            if items.len() < 3 {
                return Err(CoreError::ParseError("Invalid EVENT message".to_string()));
            }
            assert(v[1] == items@[1]@ && v[2] == items@[2]@);
            match slot_string(items, 1) {
                Some(sub_id) => Ok(RelayMessage::Event { sub_id, event_json: copy_string(&items[2].text) }),
                None => Err(CoreError::ParseError("sub_id not a string".to_string())),
            }
        } else if is_tag(&tag, "EOSE") {
            if items.len() < 2 {
                return Err(CoreError::ParseError("Invalid EOSE message".to_string()));
            }
            assert(v[1] == items@[1]@);
            match slot_string(items, 1) {
                Some(sub_id) => Ok(RelayMessage::Eose { sub_id }),
                None => Err(CoreError::ParseError("sub_id not a string".to_string())),
            }
        } else if is_tag(&tag, "OK") {
            if items.len() < 3 {
                return Err(CoreError::ParseError("Invalid OK message".to_string()));
            }
            assert(v[1] == items@[1]@ && v[2] == items@[2]@);
            let event_id = match slot_string(items, 1) {
                Some(e) => e,
                None => return Err(CoreError::ParseError("event_id not a string".to_string())),
            };
            let accepted = match items[2].boolean {
                Some(b) => b,
                None => return Err(CoreError::ParseError("accepted not a bool".to_string())),
            };
            let message = if items.len() >= 4 {
                assert(v[3] == items@[3]@);
                match slot_string(items, 3) {
                    Some(m) => m,
                    None => String::new(),
                }
            } else {
                String::new()
            };
            Ok(RelayMessage::Ack { event_id, accepted, message })
        } else if is_tag(&tag, "NOTICE") {
            if items.len() < 2 {
                return Err(CoreError::ParseError("Invalid NOTICE message".to_string()));
            }
            assert(v[1] == items@[1]@);
            match slot_string(items, 1) {
                Some(message) => Ok(RelayMessage::Notice { message }),
                None => Err(CoreError::ParseError("message not a string".to_string())),
            }
        } else {
            Err(CoreError::ParseError("Unknown message type".to_string()))
        }
    }

    /// Reads a relay's text frame.
    pub fn parse(json: &str) -> (r: Result<RelayMessage, CoreError>)
        ensures
            r is Ok <==> parsed_message(json@) is Some,
            r is Ok ==> r->Ok_0@ == parsed_message(json@)->0,
            r is Err ==> r->Err_0 is ParseError,
    {
        match decode_json_array(json) {
            Some(items) => Self::from_items(&items),
            None => Err(CoreError::ParseError("Malformed JSON array".to_string())),
        }
    }
}

/// A frame that the engine sends to relays.
#[derive(Debug, Clone)]
pub enum Frame {
    Req { sub_id: String, filter_json: String },
    Event { event_json: String },
    Close { sub_id: String },
}

/// The opening of a frame's text, up to and including the comma after the
/// tag.
pub open spec fn frame_head(f: Frame) -> Seq<char> {
    match f {
        Frame::Req { .. } => "[\"REQ\","@,
        Frame::Event { .. } => "[\"EVENT\","@,
        Frame::Close { .. } => "[\"CLOSE\","@,
    }
}

/// The text of a REQ frame.
pub open spec fn req_text(sub_id: Seq<char>, filter_json: Seq<char>) -> Seq<char> {
    "[\"REQ\","@ + json_quoted(sub_id) + ","@ + filter_json + "]"@
}

/// The text of an EVENT frame.
pub open spec fn event_frame_text(event_json: Seq<char>) -> Seq<char> {
    "[\"EVENT\","@ + event_json + "]"@
}

/// The text of a frame: a JSON array of the tag and its arguments.
pub open spec fn frame_text(f: Frame) -> Seq<char> {
    match f {
        Frame::Req { sub_id, filter_json } => req_text(sub_id@, filter_json@),
        Frame::Event { event_json } => event_frame_text(event_json@),
        Frame::Close { sub_id } => frame_head(f) + json_quoted(sub_id@) + "]"@,
    }
}

impl Frame {
    /// The text to transmit.
    pub fn to_text(&self) -> (r: String)
        ensures
            r@ == frame_text(*self),
    {
        match self {
            Frame::Req { sub_id, filter_json } => {
                let mut s = String::from_str("[\"REQ\",");
                s.append(quote_json(sub_id.as_str()).as_str());
                s.append(",");
                s.append(filter_json.as_str());
                s.append("]");
                s
            },
            Frame::Event { event_json } => {
                let mut s = String::from_str("[\"EVENT\",");
                s.append(event_json.as_str());
                s.append("]");
                s
            },
            Frame::Close { sub_id } => {
                let mut s = String::from_str("[\"CLOSE\",");
                s.append(quote_json(sub_id.as_str()).as_str());
                s.append("]");
                s
            },
        }
    }
}

/// Every frame sent to the network is a JSON array whose first element is
/// `"REQ"`, `"EVENT"` or `"CLOSE"`.
pub proof fn frames_start_with_known_tag(f: Frame)
    ensures
        frame_text(f).len() >= frame_head(f).len(),
        frame_text(f).subrange(0, frame_head(f).len() as int) == frame_head(f),
        frame_head(f) == "[\"REQ\","@ || frame_head(f) == "[\"EVENT\","@ || frame_head(f) == "[\"CLOSE\","@,
{
    let h = frame_head(f);
    let t = frame_text(f);
    let rest = t.subrange(h.len() as int, t.len() as int);
    match f {
        Frame::Req { sub_id, filter_json } => {
            assert(t == h + (json_quoted(sub_id@) + ","@ + filter_json@ + "]"@));
            assert((h + (json_quoted(sub_id@) + ","@ + filter_json@ + "]"@)).subrange(0, h.len() as int) =~= h);
        },
        Frame::Event { event_json } => {
            assert(t == h + (event_json@ + "]"@));
            assert((h + (event_json@ + "]"@)).subrange(0, h.len() as int) =~= h);
        },
        Frame::Close { sub_id } => {
            assert(t == h + (json_quoted(sub_id@) + "]"@));
            assert((h + (json_quoted(sub_id@) + "]"@)).subrange(0, h.len() as int) =~= h);
        },
    }
}

/// One relay: its connection state, reconnect schedule, subscriptions and the
/// messages received and not yet drained.
pub struct RelayConnection {
    pub url: String,
    state: ConnectionState,
    backoff: ExponentialBackoff,
    subscriptions: Vec<(String, String)>,
    eose_received: Vec<String>,
    last_connect_attempt: i64,
    message_queue: Vec<RelayMessage>,
}

pub ghost struct RelayView {
    pub url: Seq<char>,
    pub state: ConnectionState,
    pub backoff: BackoffView,
    pub subscriptions: Map<Seq<char>, Seq<char>>,
    pub eose_received: Set<Seq<char>>,
    pub last_attempt: int,
    pub queue: Seq<MessageView>,
}

pub open spec fn messages_view(v: Seq<RelayMessage>) -> Seq<MessageView> {
    v.map_values(|m: RelayMessage| m@)
}

pub open spec fn pairs_map(v: Seq<(String, String)>) -> Map<Seq<char>, Seq<char>> {
    Map::new(
        |k: Seq<char>| exists|i: int| 0 <= i < v.len() && #[trigger] v[i].0@ == k,
        |k: Seq<char>| v[choose|i: int| 0 <= i < v.len() && #[trigger] v[i].0@ == k].1@,
    )
}

pub open spec fn keys_unique(v: Seq<(String, String)>) -> bool {
    forall|i: int, j: int| 0 <= i < v.len() && 0 <= j < v.len() && #[trigger] v[i].0@ == #[trigger] v[j].0@ ==> i == j
}

pub open spec fn strings_set(v: Seq<String>) -> Set<Seq<char>> {
    Set::new(|k: Seq<char>| exists|i: int| 0 <= i < v.len() && #[trigger] v[i]@ == k)
}

impl View for RelayConnection {
    type V = RelayView;

    closed spec fn view(&self) -> RelayView {
        RelayView {
            url: self.url@,
            state: self.state,
            backoff: self.backoff@,
            subscriptions: pairs_map(self.subscriptions@),
            eose_received: strings_set(self.eose_received@),
            last_attempt: self.last_connect_attempt as int,
            queue: messages_view(self.message_queue@),
        }
    }
}

/// Whether a relay's reconnect is due at `now`.
pub open spec fn reconnect_due(r: RelayView, now: int) -> bool {
    r.state != ConnectionState::Connected && now - r.last_attempt >= r.backoff.current
}

impl RelayConnection {
    /// The relay's invariant: its backoff stays between one and sixty
    /// seconds, and its subscriptions are keyed uniquely.
    pub open spec fn wf(&self) -> bool {
        self@.backoff.wf() && self.subscriptions_wf()
    }

    pub closed spec fn subscriptions_wf(&self) -> bool {
        keys_unique(self.subscriptions@)
    }

    pub fn new(url: String) -> (r: Self)
        ensures
            r.wf(),
            r@.url == url@,
            r@.state == ConnectionState::Disconnected,
            r@.backoff == initial_backoff(),
            r@.subscriptions.is_empty(),
            r@.eose_received.is_empty(),
            r@.last_attempt == 0,
            r@.queue.len() == 0,
    {
        let r = RelayConnection {
            url,
            state: ConnectionState::Disconnected,
            backoff: ExponentialBackoff::new(),
            subscriptions: Vec::new(),
            eose_received: Vec::new(),
            last_connect_attempt: 0,
            message_queue: Vec::new(),
        };
        assert(pairs_map(r.subscriptions@) =~= Map::empty());
        assert(strings_set(r.eose_received@) =~= Set::empty());
        assert(messages_view(r.message_queue@) =~= Seq::empty());
        r
    }

    pub fn state(&self) -> (r: ConnectionState)
        ensures
            r == self@.state,
    {
        self.state
    }

    pub fn is_connected(&self) -> (r: bool)
        ensures
            r == (self@.state == ConnectionState::Connected),
    {
        self.state == ConnectionState::Connected
    }

    /// The reconnect delay now in force, in seconds.
    pub fn current_backoff(&self) -> (r: u32)
        ensures
            r as nat == self@.backoff.current,
    {
        self.backoff.current_delay()
    }

    /// Begins a connection attempt at `now`. Returns whether the embedder is
    /// to open a socket: not when the relay is already connecting or
    /// connected, which leaves it unchanged.
    pub fn connect(&mut self, now: i64) -> (r: bool)
        requires
            old(self).wf(),
        ensures
            final(self).wf(),
            r == (old(self)@.state == ConnectionState::Disconnected),
            !r ==> final(self)@ == old(self)@,
            r ==> final(self)@ == (RelayView { state: ConnectionState::Connecting, last_attempt: now as int, ..old(self)@ }),
    {
        if self.state == ConnectionState::Connecting || self.state == ConnectionState::Connected {
            return false;
        }
        self.state = ConnectionState::Connecting;
        self.last_connect_attempt = now;
        true
    }

    /// The text to transmit for `frame`: present only while connected, the
    /// frame being dropped otherwise.
    pub fn send(&self, frame: &Frame) -> (r: Option<String>)
        ensures
            r is Some == (self@.state == ConnectionState::Connected),
            r is Some ==> r->0@ == frame_text(*frame),
    {
        if self.is_connected() {
            Some(frame.to_text())
        } else {
            None
        }
    }

    fn find_subscription(&self, sub_id: &String) -> (r: Option<usize>)
        ensures
            r is Some ==> r->0 < self.subscriptions@.len() && self.subscriptions@[r->0 as int].0@ == sub_id@,
            r is None ==> forall|i: int| 0 <= i < self.subscriptions@.len() ==> self.subscriptions@[i].0@ != sub_id@,
    {
        let mut i: usize = 0;
        while i < self.subscriptions.len()
            invariant
                i <= self.subscriptions@.len(),
                forall|j: int| 0 <= j < i ==> self.subscriptions@[j].0@ != sub_id@,
            decreases self.subscriptions@.len() - i,
        {
            if self.subscriptions[i].0 == *sub_id {
                return Some(i);
            }
            i += 1;
        }
        None
    }

    /// Records the filter of a subscription, replacing an earlier one of the
    /// same id.
    pub fn add_subscription(&mut self, sub_id: String, filter_json: String)
        requires
            old(self).wf(),
        ensures
            final(self).wf(),
            final(self)@ == (RelayView { subscriptions: old(self)@.subscriptions.insert(sub_id@, filter_json@), ..old(self)@ }),
    {
        let ghost old_subs = self.subscriptions@;
        let ghost k = sub_id@;
        let ghost val = filter_json@;
        match self.find_subscription(&sub_id) {
            Some(i) => {
                self.subscriptions.set(i, (sub_id, filter_json));
                proof {
                    let ns = self.subscriptions@;
                    assert forall|a: int, b: int| 0 <= a < ns.len() && 0 <= b < ns.len() && #[trigger] ns[a].0@ == #[trigger] ns[b].0@ implies a == b by {
                        if a != i as int && b != i as int {
                            assert(ns[a] == old_subs[a] && ns[b] == old_subs[b]);
                        } else if a == i as int && b != i as int {
                            assert(old_subs[i as int].0@ == ns[b].0@ && ns[b] == old_subs[b]);
                        } else if a != i as int && b == i as int {
                            assert(old_subs[i as int].0@ == ns[a].0@ && ns[a] == old_subs[a]);
                        }
                    };
                    assert(pairs_map(ns) =~= pairs_map(old_subs).insert(k, val)) by {
                        assert forall|key: Seq<char>| #[trigger] pairs_map(ns).dom().contains(key) <==> pairs_map(old_subs).insert(k, val).dom().contains(key) by {
                            if pairs_map(ns).dom().contains(key) {
                                let j = choose|j: int| 0 <= j < ns.len() && #[trigger] ns[j].0@ == key;
                                if j != i as int { assert(old_subs[j] == ns[j]); }
                            }
                            if pairs_map(old_subs).dom().contains(key) && key != k {
                                let j = choose|j: int| 0 <= j < old_subs.len() && #[trigger] old_subs[j].0@ == key;
                                assert(j != i as int);
                                assert(ns[j] == old_subs[j]);
                            }
                            if key == k { assert(ns[i as int].0@ == k); }
                        };
                        assert forall|key: Seq<char>| #[trigger] pairs_map(ns).dom().contains(key) implies pairs_map(ns)[key] == pairs_map(old_subs).insert(k, val)[key] by {
                            let j = choose|j: int| 0 <= j < ns.len() && #[trigger] ns[j].0@ == key;
                            if key == k {
                                assert(ns[i as int].0@ == k);
                                assert(j == i as int);
                            } else {
                                assert(j != i as int);
                                assert(ns[j] == old_subs[j]);
                                let j2 = choose|j2: int| 0 <= j2 < old_subs.len() && #[trigger] old_subs[j2].0@ == key;
                                assert(j2 == j);
                            }
                        };
                    };
                }
            },
            None => {
                self.subscriptions.push((sub_id, filter_json));
                proof {
                    let ns = self.subscriptions@;
                    assert forall|a: int, b: int| 0 <= a < ns.len() && 0 <= b < ns.len() && #[trigger] ns[a].0@ == #[trigger] ns[b].0@ implies a == b by {
                        if a < old_subs.len() && b < old_subs.len() {
                            assert(ns[a] == old_subs[a] && ns[b] == old_subs[b]);
                        } else if a < old_subs.len() {
                            assert(ns[a] == old_subs[a]);
                        } else if b < old_subs.len() {
                            assert(ns[b] == old_subs[b]);
                        }
                    };
                    assert(pairs_map(ns) =~= pairs_map(old_subs).insert(k, val)) by {
                        let n = old_subs.len() as int;
                        assert forall|key: Seq<char>| #[trigger] pairs_map(ns).dom().contains(key) <==> pairs_map(old_subs).insert(k, val).dom().contains(key) by {
                            if pairs_map(ns).dom().contains(key) {
                                let j = choose|j: int| 0 <= j < ns.len() && #[trigger] ns[j].0@ == key;
                                if j < n { assert(old_subs[j] == ns[j]); }
                            }
                            if pairs_map(old_subs).dom().contains(key) {
                                let j = choose|j: int| 0 <= j < old_subs.len() && #[trigger] old_subs[j].0@ == key;
                                assert(ns[j] == old_subs[j]);
                            }
                            if key == k { assert(ns[n].0@ == k); }
                        };
                        assert forall|key: Seq<char>| #[trigger] pairs_map(ns).dom().contains(key) implies pairs_map(ns)[key] == pairs_map(old_subs).insert(k, val)[key] by {
                            let j = choose|j: int| 0 <= j < ns.len() && #[trigger] ns[j].0@ == key;
                            if key == k {
                                assert(ns[n].0@ == k);
                                assert(j == n);
                            } else {
                                assert(j != n);
                                assert(ns[j] == old_subs[j]);
                                let j2 = choose|j2: int| 0 <= j2 < old_subs.len() && #[trigger] old_subs[j2].0@ == key;
                                assert(ns[j2] == old_subs[j2]);
                                assert(j2 == j);
                            }
                        };
                    };
                }
            },
        }
    }

    /// Records that the stored events of a subscription have all arrived.
    pub fn mark_eose(&mut self, sub_id: &str)
        requires
            old(self).wf(),
        ensures
            final(self).wf(),
            final(self)@ == (RelayView { eose_received: old(self)@.eose_received.insert(sub_id@), ..old(self)@ }),
    {
        let ghost old_v = self.eose_received@;
        self.eose_received.push(sub_id.to_string());
        proof {
            let nv = self.eose_received@;
            assert(strings_set(nv) =~= strings_set(old_v).insert(sub_id@)) by {
                assert forall|k: Seq<char>| #[trigger] strings_set(nv).contains(k) <==> strings_set(old_v).insert(sub_id@).contains(k) by {
                    if strings_set(nv).contains(k) {
                        let j = choose|j: int| 0 <= j < nv.len() && #[trigger] nv[j]@ == k;
                        if j < old_v.len() { assert(nv[j] == old_v[j]); }
                    }
                    if strings_set(old_v).contains(k) {
                        let j = choose|j: int| 0 <= j < old_v.len() && #[trigger] old_v[j]@ == k;
                        assert(nv[j] == old_v[j]);
                    }
                    if k == sub_id@ { assert(nv[old_v.len() as int]@ == k); }
                };
            };
        }
    }

    /// Whether the stored events of a subscription have all arrived.
    pub fn has_eose(&self, sub_id: &str) -> (r: bool)
        ensures
            r == self@.eose_received.contains(sub_id@),
    {
        let key = sub_id.to_string();
        let mut i: usize = 0;
        while i < self.eose_received.len()
            invariant
                i <= self.eose_received@.len(),
                key@ == sub_id@,
                forall|j: int| 0 <= j < i ==> self.eose_received@[j]@ != sub_id@,
            decreases self.eose_received@.len() - i,
        {
            if self.eose_received[i] == key {
                return true;
            }
            i += 1;
        }
        false
    }

    /// Reads a text frame that arrived on the socket and queues the message;
    /// a frame that is not understood is dropped.
    pub fn on_message(&mut self, text: &str)
        requires
            old(self).wf(),
        ensures
            final(self).wf(),
            final(self)@ == (RelayView {
                queue: match parsed_message(text@) {
                    Some(m) => old(self)@.queue.push(m),
                    None => old(self)@.queue,
                },
                ..old(self)@
            }),
    {
        match RelayMessage::parse(text) {
            Ok(msg) => {
                let ghost old_q = self.message_queue@;
                self.message_queue.push(msg);
                assert(messages_view(self.message_queue@) =~= messages_view(old_q).push(msg@));
            },
            Err(_) => {},
        }
    }

    /// Removes and returns the queued messages, in arrival order.
    pub fn drain_messages(&mut self) -> (r: Vec<RelayMessage>)
        requires
            old(self).wf(),
        ensures
            final(self).wf(),
            messages_view(r@) == old(self)@.queue,
            final(self)@ == (RelayView { queue: Seq::empty(), ..old(self)@ }),
    {
        let mut r = Vec::new();
        core::mem::swap(&mut r, &mut self.message_queue);
        assert(messages_view(self.message_queue@) =~= Seq::empty());
        r
    }

    /// The number of queued messages.
    pub fn message_count(&self) -> (r: usize)
        ensures
            r == self@.queue.len(),
    {
        self.message_queue.len()
    }

    /// Whether a reconnect is due at `now`: the relay is not connected and at
    /// least the current backoff delay has passed since the last attempt.
    pub fn needs_reconnect(&self, now: i64) -> (r: bool)
        requires
            self.wf(),
        ensures
            r == reconnect_due(self@, now as int),
    {
        if self.state == ConnectionState::Connected {
            return false;
        }
        let elapsed: i128 = now as i128 - self.last_connect_attempt as i128;
        elapsed >= self.backoff.current_delay() as i128
    }

    /// Begins a connection attempt when one is due at `now`; returns whether
    /// the embedder is to open a socket.
    pub fn reconnect_if_needed(&mut self, now: i64) -> (r: bool)
        requires
            old(self).wf(),
        ensures
            final(self).wf(),
            r == (reconnect_due(old(self)@, now as int) && old(self)@.state == ConnectionState::Disconnected),
            !r ==> final(self)@ == old(self)@,
            r ==> final(self)@ == (RelayView { state: ConnectionState::Connecting, last_attempt: now as int, ..old(self)@ }),
    {
        if self.needs_reconnect(now) {
            self.connect(now)
        } else {
            false
        }
    }

    /// The socket opened: the relay is connected and the backoff starts over.
    pub fn on_open(&mut self)
        requires
            old(self).wf(),
        ensures
            final(self).wf(),
            final(self)@ == (RelayView { state: ConnectionState::Connected, backoff: old(self)@.backoff.reset(), ..old(self)@ }),
    {
        self.state = ConnectionState::Connected;
        self.backoff.reset();
    }

    fn drop_connection(&mut self)
        requires
            old(self).wf(),
        ensures
            final(self).wf(),
            final(self)@ == (RelayView {
                state: ConnectionState::Disconnected,
                backoff: if old(self)@.state == ConnectionState::Connecting { old(self)@.backoff.advanced() } else { old(self)@.backoff },
                ..old(self)@
            }),
    {
        if self.state == ConnectionState::Connecting {
            let _ = self.backoff.next_delay();
        }
        self.state = ConnectionState::Disconnected;
    }

    /// The socket closed. A close before the socket opened is a failed
    /// attempt, which advances the backoff.
    pub fn on_close(&mut self)
        requires
            old(self).wf(),
        ensures
            final(self).wf(),
            final(self)@ == (RelayView {
                state: ConnectionState::Disconnected,
                backoff: if old(self)@.state == ConnectionState::Connecting { old(self)@.backoff.advanced() } else { old(self)@.backoff },
                ..old(self)@
            }),
    {
        self.drop_connection();
    }

    /// The socket failed; as for a close.
    pub fn on_error(&mut self, error: &str)
        requires
            old(self).wf(),
        ensures
            final(self).wf(),
            final(self)@ == (RelayView {
                state: ConnectionState::Disconnected,
                backoff: if old(self)@.state == ConnectionState::Connecting { old(self)@.backoff.advanced() } else { old(self)@.backoff },
                ..old(self)@
            }),
    {
        self.drop_connection();
    }
}

} // verus!
