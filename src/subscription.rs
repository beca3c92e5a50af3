//! Subscriptions to channels and direct-message threads, whose time windows
//! widen in stages as relays report the end of their stored events.
use vstd::prelude::*;
use crate::json::{json_quoted, quote_json};
use crate::text::{int_text, push_int};
use crate::types::{clamp_i64, sub_clamped, TimeWindow};

verus! {

/// How far back a subscription first reaches, in seconds.
pub const INITIAL_LOOKBACK: i64 = 600;

/// The events a subscription asks for.
#[derive(Debug, Clone)]
pub enum FilterShape {
    /// Messages of a public channel: kind 42 tagged `#e` with the channel id.
    Channel { channel_id: String },
    /// Direct messages of kind 4 by `author`, tagged `#p` with `recipient`.
    Dm { author: String, recipient: String },
}

pub ghost enum ShapeView {
    Channel { channel_id: Seq<char> },
    Dm { author: Seq<char>, recipient: Seq<char> },
}

impl View for FilterShape {
    type V = ShapeView;

    open spec fn view(&self) -> ShapeView {
        match self {
            FilterShape::Channel { channel_id } => ShapeView::Channel { channel_id: channel_id@ },
            FilterShape::Dm { author, recipient } => ShapeView::Dm { author: author@, recipient: recipient@ },
        }
    }
}

/// The filter JSON of a shape from `since` on, with its members in the
/// canonical (sorted) order.
pub open spec fn filter_text(shape: ShapeView, since: int) -> Seq<char> {
    match shape {
        ShapeView::Channel { channel_id } =>
            "{\"#e\":["@ + json_quoted(channel_id) + "],\"kinds\":[42],\"since\":"@ + int_text(since) + "}"@,
        ShapeView::Dm { author, recipient } =>
            "{\"#p\":["@ + json_quoted(recipient) + "],\"authors\":["@ + json_quoted(author) + "],\"kinds\":[4],\"since\":"@
                + int_text(since) + "}"@,
    }
}

/// Builds the filter JSON of a shape from `since` on.
pub fn filter_json(shape: &FilterShape, since: i64) -> (r: String)
    ensures
        r@ == filter_text(shape@, since as int),
{
    match shape {
        FilterShape::Channel { channel_id } => {
            let mut s = String::from_str("{\"#e\":[");
            s.append(quote_json(channel_id.as_str()).as_str());
            s.append("],\"kinds\":[42],\"since\":");
            push_int(&mut s, since);
            s.append("}");
            s
        },
        FilterShape::Dm { author, recipient } => {
            let mut s = String::from_str("{\"#p\":[");
            s.append(quote_json(recipient.as_str()).as_str());
            s.append("],\"authors\":[");
            s.append(quote_json(author.as_str()).as_str());
            s.append("],\"kinds\":[4],\"since\":");
            push_int(&mut s, since);
            s.append("}");
            s
        },
    }
}

/// The seconds by which the window widens at a stage (the EOSE count after
/// it was incremented); nothing beyond the fourth stage.
pub open spec fn extension_seconds(stage: nat) -> int {
    if stage == 1 { 3600 }
    else if stage == 2 { 86400 }
    else if stage == 3 { 604800 }
    else if stage == 4 { 2592000 }
    else { 0 }
}

/// Whether a stage still widens the window.
pub open spec fn widening_stage(stage: nat) -> bool {
    1 <= stage <= 4
}

/// An open subscription.
#[derive(Debug)]
pub struct ActiveSub {
    pub sub_id: String,
    pub filter_json: String,
    pub eose_count: u32,
    pub last_extended_at: i64,
    pub window: TimeWindow,
    pub shape: FilterShape,
}

pub ghost struct SubView {
    pub sub_id: Seq<char>,
    pub filter_json: Seq<char>,
    pub eose_count: nat,
    pub last_extended_at: int,
    pub since: int,
    pub shape: ShapeView,
}

impl View for ActiveSub {
    type V = SubView;

    open spec fn view(&self) -> SubView {
        SubView {
            sub_id: self.sub_id@,
            filter_json: self.filter_json@,
            eose_count: self.eose_count as nat,
            last_extended_at: self.last_extended_at as int,
            since: self.window.since as int,
            shape: self.shape@,
        }
    }
}

impl SubView {
    pub open spec fn wf(self) -> bool {
        self.filter_json == filter_text(self.shape, self.since)
    }

    /// The subscription after one widening at `now`.
    pub open spec fn extended(self, now: int) -> SubView {
        let since = clamp_i64(self.since - extension_seconds(self.eose_count));
        SubView { since, filter_json: filter_text(self.shape, since), last_extended_at: now, ..self }
    }

    /// The subscription after one more end-of-stored-events signal.
    pub open spec fn eose_marked(self) -> SubView {
        SubView { eose_count: if self.eose_count < u32::MAX { self.eose_count + 1 } else { self.eose_count }, ..self }
    }
}

/// A subscription just opened at `now`.
pub open spec fn fresh_sub(sub_id: Seq<char>, shape: ShapeView, now: int) -> SubView {
    let since = clamp_i64(now - INITIAL_LOOKBACK);
    SubView { sub_id, filter_json: filter_text(shape, since), eose_count: 0, last_extended_at: now, since, shape }
}

pub open spec fn channel_sub_id(channel_id: Seq<char>) -> Seq<char> {
    "ch:"@ + channel_id
}

pub open spec fn dm_sub_id(peer: Seq<char>) -> Seq<char> {
    "dm:"@ + peer
}

pub open spec fn dm_reverse_sub_id(peer: Seq<char>) -> Seq<char> {
    "dm:"@ + peer + ":r"@
}

/// The subscriptions after an end-of-stored-events signal on `sub_id` at
/// `now`.
pub open spec fn eose_subs(m: Map<Seq<char>, SubView>, sub_id: Seq<char>, now: int) -> Map<Seq<char>, SubView> {
    if !m.contains_key(sub_id) {
        m
    } else {
        let marked = m[sub_id].eose_marked();
        if widening_stage(marked.eose_count) { m.insert(sub_id, marked.extended(now)) } else { m.insert(sub_id, marked) }
    }
}

/// The widened filter to reissue after an end-of-stored-events signal, if
/// the window widened.
pub open spec fn eose_reissue(m: Map<Seq<char>, SubView>, sub_id: Seq<char>, now: int) -> Option<Seq<char>> {
    if m.contains_key(sub_id) && widening_stage(m[sub_id].eose_marked().eose_count) {
        Some(m[sub_id].eose_marked().extended(now).filter_json)
    } else {
        None
    }
}

pub open spec fn pairs_view(v: Seq<(String, String)>) -> Seq<(Seq<char>, Seq<char>)> {
    v.map_values(|p: (String, String)| (p.0@, p.1@))
}

pub open spec fn ids_unique(s: Seq<ActiveSub>) -> bool {
    forall|i: int, j: int| 0 <= i < s.len() && 0 <= j < s.len() && #[trigger] s[i].sub_id@ == #[trigger] s[j].sub_id@ ==> i == j
}

pub open spec fn subs_map(s: Seq<ActiveSub>) -> Map<Seq<char>, SubView> {
    Map::new(
        |k: Seq<char>| exists|i: int| 0 <= i < s.len() && #[trigger] s[i].sub_id@ == k,
        |k: Seq<char>| s[choose|i: int| 0 <= i < s.len() && #[trigger] s[i].sub_id@ == k]@,
    )
}

proof fn lemma_map_at(s: Seq<ActiveSub>, i: int)
    requires
        ids_unique(s),
        0 <= i < s.len(),
    ensures
        subs_map(s).contains_key(s[i].sub_id@),
        subs_map(s)[s[i].sub_id@] == s[i]@,
{
    let k = s[i].sub_id@;
    assert(subs_map(s).dom().contains(k));
    let j = choose|j: int| 0 <= j < s.len() && #[trigger] s[j].sub_id@ == k;
    assert(j == i);
}

proof fn lemma_update(s: Seq<ActiveSub>, i: int, x: ActiveSub)
    requires
        ids_unique(s),
        0 <= i < s.len(),
        x.sub_id@ == s[i].sub_id@,
    ensures
        ids_unique(s.update(i, x)),
        subs_map(s.update(i, x)) == subs_map(s).insert(x.sub_id@, x@),
{
    let t = s.update(i, x);
    let k = x.sub_id@;
    assert forall|a: int, b: int| 0 <= a < t.len() && 0 <= b < t.len() && #[trigger] t[a].sub_id@ == #[trigger] t[b].sub_id@ implies a == b by {
        assert(s[a].sub_id@ == t[a].sub_id@ && s[b].sub_id@ == t[b].sub_id@);
    };
    assert forall|key: Seq<char>| #[trigger] subs_map(t).dom().contains(key) <==> subs_map(s).insert(k, x@).dom().contains(key) by {
        if subs_map(t).dom().contains(key) {
            let j = choose|j: int| 0 <= j < t.len() && #[trigger] t[j].sub_id@ == key;
            assert(s[j].sub_id@ == key);
        }
        if subs_map(s).dom().contains(key) {
            let j = choose|j: int| 0 <= j < s.len() && #[trigger] s[j].sub_id@ == key;
            assert(t[j].sub_id@ == key);
        }
        if key == k {
            assert(t[i].sub_id@ == key);
        }
    };
    assert forall|key: Seq<char>| #[trigger] subs_map(t).dom().contains(key) implies subs_map(t)[key] == subs_map(s).insert(k, x@)[key] by {
        let j = choose|j: int| 0 <= j < t.len() && #[trigger] t[j].sub_id@ == key;
        lemma_map_at(t, j);
        if j == i {
        } else {
            assert(t[j] == s[j]);
            lemma_map_at(s, j);
        }
    };
    assert(subs_map(t) =~= subs_map(s).insert(k, x@));
}

proof fn lemma_push(s: Seq<ActiveSub>, x: ActiveSub)
    requires
        ids_unique(s),
        !subs_map(s).contains_key(x.sub_id@),
    ensures
        ids_unique(s.push(x)),
        subs_map(s.push(x)) == subs_map(s).insert(x.sub_id@, x@),
{
    let t = s.push(x);
    let k = x.sub_id@;
    let n = s.len() as int;
    assert forall|a: int, b: int| 0 <= a < t.len() && 0 <= b < t.len() && #[trigger] t[a].sub_id@ == #[trigger] t[b].sub_id@ implies a == b by {
        if a < n && b < n {
            assert(t[a] == s[a] && t[b] == s[b]);
        } else if a < n {
            assert(t[a] == s[a]);
            assert(subs_map(s).dom().contains(s[a].sub_id@));
        } else if b < n {
            assert(t[b] == s[b]);
            assert(subs_map(s).dom().contains(s[b].sub_id@));
        }
    };
    assert forall|key: Seq<char>| #[trigger] subs_map(t).dom().contains(key) <==> subs_map(s).insert(k, x@).dom().contains(key) by {
        if subs_map(t).dom().contains(key) {
            let j = choose|j: int| 0 <= j < t.len() && #[trigger] t[j].sub_id@ == key;
            if j < n { assert(t[j] == s[j]); }
        }
        if subs_map(s).dom().contains(key) {
            let j = choose|j: int| 0 <= j < s.len() && #[trigger] s[j].sub_id@ == key;
            assert(t[j] == s[j]);
        }
        if key == k {
            assert(t[n].sub_id@ == key);
        }
    };
    assert forall|key: Seq<char>| #[trigger] subs_map(t).dom().contains(key) implies subs_map(t)[key] == subs_map(s).insert(k, x@)[key] by {
        let j = choose|j: int| 0 <= j < t.len() && #[trigger] t[j].sub_id@ == key;
        lemma_map_at(t, j);
        if j < n {
            assert(t[j] == s[j]);
            lemma_map_at(s, j);
        }
    };
    assert(subs_map(t) =~= subs_map(s).insert(k, x@));
}

proof fn lemma_remove(s: Seq<ActiveSub>, i: int)
    requires
        ids_unique(s),
        0 <= i < s.len(),
    ensures
        ids_unique(s.remove(i)),
        subs_map(s.remove(i)) == subs_map(s).remove(s[i].sub_id@),
{
    let t = s.remove(i);
    let k = s[i].sub_id@;
    assert forall|a: int| 0 <= a < t.len() implies #[trigger] t[a] == s[if a < i { a } else { a + 1 }] by {};
    assert forall|a: int, b: int| 0 <= a < t.len() && 0 <= b < t.len() && #[trigger] t[a].sub_id@ == #[trigger] t[b].sub_id@ implies a == b by {
        let a2 = if a < i { a } else { a + 1 };
        let b2 = if b < i { b } else { b + 1 };
        assert(t[a] == s[a2] && t[b] == s[b2]);
    };
    assert forall|key: Seq<char>| #[trigger] subs_map(t).dom().contains(key) <==> subs_map(s).remove(k).dom().contains(key) by {
        if subs_map(t).dom().contains(key) {
            let j = choose|j: int| 0 <= j < t.len() && #[trigger] t[j].sub_id@ == key;
            let j2 = if j < i { j } else { j + 1 };
            assert(t[j] == s[j2]);
            assert(s[j2].sub_id@ == key);
        }
        if subs_map(s).dom().contains(key) && key != k {
            let j = choose|j: int| 0 <= j < s.len() && #[trigger] s[j].sub_id@ == key;
            assert(j != i);
            let j2 = if j < i { j } else { j - 1 };
            assert(t[j2] == s[j]);
        }
    };
    assert forall|key: Seq<char>| #[trigger] subs_map(t).dom().contains(key) implies subs_map(t)[key] == subs_map(s).remove(k)[key] by {
        let j = choose|j: int| 0 <= j < t.len() && #[trigger] t[j].sub_id@ == key;
        lemma_map_at(t, j);
        let j2 = if j < i { j } else { j + 1 };
        assert(t[j] == s[j2]);
        lemma_map_at(s, j2);
    };
    assert(subs_map(t) =~= subs_map(s).remove(k));
}

/// The set of open subscriptions, keyed by subscription id.
pub struct SubscriptionManager {
    active_subs: Vec<ActiveSub>,
    self_pubkey: Option<String>,
}

impl View for SubscriptionManager {
    type V = Map<Seq<char>, SubView>;

    closed spec fn view(&self) -> Map<Seq<char>, SubView> {
        subs_map(self.active_subs@)
    }
}

impl SubscriptionManager {
    pub closed spec fn wf(&self) -> bool {
        &&& ids_unique(self.active_subs@)
        &&& forall|i: int| 0 <= i < self.active_subs@.len() ==> (#[trigger] self.active_subs@[i])@.wf()
    }

    /// The public key of the local user, when known.
    pub closed spec fn self_key(&self) -> Option<Seq<char>> {
        match self.self_pubkey {
            Some(k) => Some(k@),
            None => None,
        }
    }

    pub fn new() -> (r: Self)
        ensures
            r.wf(),
            r@.is_empty(),
            r.self_key() is None,
    {
        let r = SubscriptionManager { active_subs: Vec::new(), self_pubkey: None };
        assert(subs_map(r.active_subs@) =~= Map::empty());
        r
    }

    pub fn set_self_pubkey(&mut self, pubkey: String)
        requires
            old(self).wf(),
        ensures
            final(self).wf(),
            final(self)@ == old(self)@,
            final(self).self_key() == Some(pubkey@),
    {
        self.self_pubkey = Some(pubkey);
    }

    fn find(&self, sub_id: &str) -> (r: Option<usize>)
        requires
            self.wf(),
        ensures
            r is Some <==> self@.contains_key(sub_id@),
            r is Some ==> r->0 < self.active_subs@.len() && self.active_subs@[r->0 as int].sub_id@ == sub_id@
                && self@[sub_id@] == self.active_subs@[r->0 as int]@,
    {
        let key = sub_id.to_string();
        let mut i: usize = 0;
        while i < self.active_subs.len()
            invariant
                self.wf(),
                key@ == sub_id@,
                i <= self.active_subs@.len(),
                forall|j: int| 0 <= j < i ==> self.active_subs@[j].sub_id@ != sub_id@,
            decreases self.active_subs@.len() - i,
        {
            if self.active_subs[i].sub_id == key {
                proof { lemma_map_at(self.active_subs@, i as int); }
                return Some(i);
            }
            i += 1;
        }
        proof {
            if self@.contains_key(sub_id@) {
                let j = choose|j: int| 0 <= j < self.active_subs@.len() && #[trigger] self.active_subs@[j].sub_id@ == sub_id@;
                assert(false);
            }
        }
        None
    }

    /// Opens (or reopens) a subscription, replacing one of the same id.
    fn install(&mut self, sub: ActiveSub)
        requires
            old(self).wf(),
            sub@.wf(),
        ensures
            final(self).wf(),
            final(self)@ == old(self)@.insert(sub@.sub_id, sub@),
            final(self).self_key() == old(self).self_key(),
    {
        let ghost s = self.active_subs@;
        match self.find(sub.sub_id.as_str()) {
            Some(i) => {
                proof { lemma_update(s, i as int, sub); }
                self.active_subs.set(i, sub);
                assert(self.active_subs@ == s.update(i as int, sub));
            },
            None => {
                proof { lemma_push(s, sub); }
                self.active_subs.push(sub);
            },
        }
        proof {
            assert forall|i: int| 0 <= i < self.active_subs@.len() implies (#[trigger] self.active_subs@[i])@.wf() by {
                if i < s.len() && self.active_subs@[i] != sub {
                    assert(self.active_subs@[i] == s[i]);
                }
            };
        }
    }

    fn new_sub(sub_id: String, shape: FilterShape, now: i64) -> (r: ActiveSub)
        ensures
            r@ == fresh_sub(sub_id@, shape@, now as int),
            r@.wf(),
    {
        let since = sub_clamped(now, INITIAL_LOOKBACK);
        let filter_json = filter_json(&shape, since);
        ActiveSub { sub_id, filter_json, eose_count: 0, last_extended_at: now, window: TimeWindow::new(since), shape }
    }

    /// Opens the subscription `ch:{channel_id}` to the channel's messages from
    /// ten minutes before `now`; returns the REQ to issue.
    pub fn open_channel(&mut self, channel_id: &str, now: i64) -> (r: Vec<(String, String)>)
        requires
            old(self).wf(),
        ensures
            final(self).wf(),
            final(self).self_key() == old(self).self_key(),
            final(self)@ == old(self)@.insert(
                channel_sub_id(channel_id@),
                fresh_sub(channel_sub_id(channel_id@), ShapeView::Channel { channel_id: channel_id@ }, now as int),
            ),
            pairs_view(r@) == seq![(
                channel_sub_id(channel_id@),
                fresh_sub(channel_sub_id(channel_id@), ShapeView::Channel { channel_id: channel_id@ }, now as int).filter_json,
            )],
    {
        let mut sub_id = String::from_str("ch:");
        sub_id.append(channel_id);
        let sub = Self::new_sub(sub_id.clone(), FilterShape::Channel { channel_id: channel_id.to_string() }, now);
        let pair = (sub.sub_id.clone(), sub.filter_json.clone());
        self.install(sub);
        let r = vec![pair];
        assert(pairs_view(r@) =~= seq![(pair.0@, pair.1@)]);
        r
    }

    /// Opens the two halves of a direct-message thread with `peer` from ten
    /// minutes before `now`: `dm:{peer}` for what the local user sent and
    /// `dm:{peer}:r` for what the peer sent; returns the REQs to issue.
    pub fn open_dm(&mut self, peer: &str, self_pubkey: &str, now: i64) -> (r: Vec<(String, String)>)
        requires
            old(self).wf(),
        ensures
            final(self).wf(),
            final(self).self_key() == old(self).self_key(),
            final(self)@ == old(self)@
                .insert(dm_sub_id(peer@), fresh_sub(dm_sub_id(peer@), ShapeView::Dm { author: self_pubkey@, recipient: peer@ }, now as int))
                .insert(dm_reverse_sub_id(peer@), fresh_sub(dm_reverse_sub_id(peer@), ShapeView::Dm { author: peer@, recipient: self_pubkey@ }, now as int)),
            pairs_view(r@) == seq![
                (dm_sub_id(peer@), fresh_sub(dm_sub_id(peer@), ShapeView::Dm { author: self_pubkey@, recipient: peer@ }, now as int).filter_json),
                (dm_reverse_sub_id(peer@), fresh_sub(dm_reverse_sub_id(peer@), ShapeView::Dm { author: peer@, recipient: self_pubkey@ }, now as int).filter_json),
            ],
    {
        let mut sub_id = String::from_str("dm:");
        sub_id.append(peer);
        let mut sub_id2 = sub_id.clone();
        sub_id2.append(":r");
        let out = Self::new_sub(sub_id, FilterShape::Dm { author: self_pubkey.to_string(), recipient: peer.to_string() }, now);
        let back = Self::new_sub(sub_id2, FilterShape::Dm { author: peer.to_string(), recipient: self_pubkey.to_string() }, now);
        let pair = (out.sub_id.clone(), out.filter_json.clone());
        let pair2 = (back.sub_id.clone(), back.filter_json.clone());
        self.install(out);
        self.install(back);
        let r = vec![pair, pair2];
        assert(pairs_view(r@) =~= seq![(pair.0@, pair.1@), (pair2.0@, pair2.1@)]);
        r
    }

    /// Counts one end-of-stored-events signal on a subscription; unknown ids
    /// are ignored.
    pub fn mark_eose(&mut self, sub_id: &str)
        requires
            old(self).wf(),
        ensures
            final(self).wf(),
            final(self).self_key() == old(self).self_key(),
            final(self)@ == if old(self)@.contains_key(sub_id@) {
                old(self)@.insert(sub_id@, old(self)@[sub_id@].eose_marked())
            } else {
                old(self)@
            },
    {
        match self.find(sub_id) {
            Some(i) => {
                let ghost s = self.active_subs@;
                let mut sub = self.active_subs.remove(i);
                assert(sub == s[i as int]);
                if sub.eose_count < u32::MAX {
                    sub.eose_count = sub.eose_count + 1;
                }
                self.active_subs.insert(i, sub);
                assert(self.active_subs@ =~= s.update(i as int, sub));
                proof {
                    lemma_update(s, i as int, sub);
                    assert forall|j: int| 0 <= j < self.active_subs@.len() implies (#[trigger] self.active_subs@[j])@.wf() by {
                        if j != i as int { assert(self.active_subs@[j] == s[j]); }
                    };
                }
            },
            None => {},
        }
    }

    /// Whether the subscription has a widening stage left to run: its EOSE
    /// count is 1, 2, 3 or 4.
    pub fn needs_extension(&self, sub_id: &str) -> (r: bool)
        requires
            self.wf(),
        ensures
            r == (self@.contains_key(sub_id@) && widening_stage(self@[sub_id@].eose_count)),
    {
        self.should_extend_window(sub_id)
    }

    /// Whether the subscription's window is to widen now.
    pub fn should_extend_window(&self, sub_id: &str) -> (r: bool)
        requires
            self.wf(),
        ensures
            r == (self@.contains_key(sub_id@) && widening_stage(self@[sub_id@].eose_count)),
    {
        match self.find(sub_id) {
            Some(i) => self.active_subs[i].eose_count >= 1 && self.active_subs[i].eose_count <= 4,
            None => false,
        }
    }

    /// Widens the subscription's window by the amount of its stage, rewrites
    /// its filter's `since` and returns the REQ to reissue under the same id;
    /// none (and no change) for an unknown id or when no stage is left.
    pub fn extend_window(&mut self, sub_id: &str, now: i64) -> (r: Option<Vec<(String, String)>>)
        requires
            old(self).wf(),
        ensures
            final(self).wf(),
            final(self).self_key() == old(self).self_key(),
            r is Some == (old(self)@.contains_key(sub_id@) && widening_stage(old(self)@[sub_id@].eose_count)),
            r is None ==> final(self)@ == old(self)@,
            r is Some ==> final(self)@ == old(self)@.insert(sub_id@, old(self)@[sub_id@].extended(now as int)),
            r is Some ==> pairs_view(r->0@) == seq![(sub_id@, old(self)@[sub_id@].extended(now as int).filter_json)],
    {
        let i = match self.find(sub_id) {
            Some(i) => i,
            None => return None,
        };
        let stage = self.active_subs[i].eose_count;
        let additional: i64 = if stage == 1 {
            3600
        } else if stage == 2 {
            86400
        } else if stage == 3 {
            604800
        } else if stage == 4 {
            2592000
        } else {
            return None;
        };
        let ghost s = self.active_subs@;
        let mut sub = self.active_subs.remove(i);
        assert(sub == s[i as int]);
        sub.window.extend(additional);
        sub.filter_json = filter_json(&sub.shape, sub.window.since);
        sub.last_extended_at = now;
        let pair = (sub.sub_id.clone(), sub.filter_json.clone());
        self.active_subs.insert(i, sub);
        assert(self.active_subs@ =~= s.update(i as int, sub));
        proof {
            lemma_update(s, i as int, sub);
            assert(sub@ == s[i as int]@.extended(now as int));
            assert forall|j: int| 0 <= j < self.active_subs@.len() implies (#[trigger] self.active_subs@[j])@.wf() by {
                if j != i as int { assert(self.active_subs@[j] == s[j]); }
            };
        }
        let r = vec![pair];
        assert(pairs_view(r@) =~= seq![(pair.0@, pair.1@)]);
        Some(r)
    }

    /// Handles an end-of-stored-events signal: counts it, then widens the
    /// window when a stage is left.
    pub fn on_eose(&mut self, sub_id: &str, now: i64) -> (r: Option<Vec<(String, String)>>)
        requires
            old(self).wf(),
        ensures
            final(self).wf(),
            final(self).self_key() == old(self).self_key(),
            !old(self)@.contains_key(sub_id@) ==> r is None && final(self)@ == old(self)@,
            old(self)@.contains_key(sub_id@) ==> ({
                let marked = old(self)@[sub_id@].eose_marked();
                if widening_stage(marked.eose_count) {
                    &&& final(self)@ == old(self)@.insert(sub_id@, marked.extended(now as int))
                    &&& r is Some
                    &&& pairs_view(r->0@) == seq![(sub_id@, marked.extended(now as int).filter_json)]
                } else {
                    final(self)@ == old(self)@.insert(sub_id@, marked) && r is None
                }
            }),
    {
        self.mark_eose(sub_id);
        if self.should_extend_window(sub_id) {
            let r = self.extend_window(sub_id, now);
            proof {
                if old(self)@.contains_key(sub_id@) {
                    assert(old(self)@.insert(sub_id@, old(self)@[sub_id@].eose_marked()).insert(sub_id@, old(self)@[sub_id@].eose_marked().extended(now as int))
                        =~= old(self)@.insert(sub_id@, old(self)@[sub_id@].eose_marked().extended(now as int)));
                }
            }
            r
        } else {
            None
        }
    }

    /// The open subscriptions.
    pub fn get_active_subs(&self) -> (r: Vec<&ActiveSub>)
        requires
            self.wf(),
        ensures
            r@.len() == self@.len(),
            forall|i: int| 0 <= i < r@.len() ==> #[trigger] self@.contains_key(r@[i].sub_id@) && self@[r@[i].sub_id@] == r@[i]@,
            forall|i: int, j: int| 0 <= i < r@.len() && 0 <= j < r@.len() && i != j ==> #[trigger] r@[i].sub_id@ != #[trigger] r@[j].sub_id@,
    {
        let mut r: Vec<&ActiveSub> = Vec::new();
        let mut i: usize = 0;
        while i < self.active_subs.len()
            invariant
                self.wf(),
                i <= self.active_subs@.len(),
                r@.len() == i,
                forall|j: int| 0 <= j < i ==> r@[j] == self.active_subs@[j],
            decreases self.active_subs@.len() - i,
        {
            r.push(&self.active_subs[i]);
            i += 1;
        }
        proof {
            assert forall|j: int| 0 <= j < r@.len() implies #[trigger] self@.contains_key(r@[j].sub_id@) && self@[r@[j].sub_id@] == r@[j]@ by {
                lemma_map_at(self.active_subs@, j);
            };
            lemma_len(self.active_subs@);
            assert forall|i: int, j: int| 0 <= i < r@.len() && 0 <= j < r@.len() && i != j implies #[trigger] r@[i].sub_id@ != #[trigger] r@[j].sub_id@ by {
                assert(r@[i] == self.active_subs@[i] && r@[j] == self.active_subs@[j]);
            };
        }
        r
    }

    /// Forgets a subscription.
    pub fn close_subscription(&mut self, sub_id: &str)
        requires
            old(self).wf(),
        ensures
            final(self).wf(),
            final(self).self_key() == old(self).self_key(),
            final(self)@ == old(self)@.remove(sub_id@),
    {
        match self.find(sub_id) {
            Some(i) => {
                let ghost s = self.active_subs@;
                proof { lemma_remove(s, i as int); }
                let _ = self.active_subs.remove(i);
                proof {
                    assert forall|j: int| 0 <= j < self.active_subs@.len() implies (#[trigger] self.active_subs@[j])@.wf() by {
                        let j2 = if j < i as int { j } else { j + 1 };
                        assert(self.active_subs@[j] == s[j2]);
                    };
                }
            },
            None => {
                assert(old(self)@.remove(sub_id@) =~= old(self)@);
            },
        }
    }
}

proof fn lemma_len(s: Seq<ActiveSub>)
    requires
        ids_unique(s),
    ensures
        subs_map(s).len() == s.len(),
    decreases s.len(),
{
    if s.len() == 0 {
        assert(subs_map(s) =~= Map::empty());
    } else {
        let t = s.drop_last();
        assert(ids_unique(t)) by {
            assert forall|a: int, b: int| 0 <= a < t.len() && 0 <= b < t.len() && #[trigger] t[a].sub_id@ == #[trigger] t[b].sub_id@ implies a == b by {
                assert(t[a] == s[a] && t[b] == s[b]);
            };
        };
        lemma_len(t);
        let x = s.last();
        assert(!subs_map(t).contains_key(x.sub_id@)) by {
            if subs_map(t).contains_key(x.sub_id@) {
                let j = choose|j: int| 0 <= j < t.len() && #[trigger] t[j].sub_id@ == x.sub_id@;
                assert(s[j] == t[j]);
                assert(s[s.len() - 1] == x);
            }
        };
        lemma_push(t, x);
        assert(t.push(x) == s);
        lemma_finite(t);
    }
}

proof fn lemma_finite(s: Seq<ActiveSub>)
    ensures
        subs_map(s).dom().finite(),
    decreases s.len(),
{
    let d = subs_map(s).dom();
    let f = Set::new(|i: int| 0 <= i < s.len()).map(|i: int| s[i].sub_id@);
    assert(d =~= f) by {
        assert forall|k: Seq<char>| d.contains(k) implies f.contains(k) by {
            let j = choose|j: int| 0 <= j < s.len() && #[trigger] s[j].sub_id@ == k;
            assert(Set::new(|i: int| 0 <= i < s.len()).contains(j));
        };
    };
    let r = Set::new(|i: int| 0 <= i < s.len());
    assert(r =~= vstd::set_lib::set_int_range(0, s.len() as int));
    vstd::set_lib::lemma_int_range(0, s.len() as int);
    r.lemma_map_finite(|i: int| s[i].sub_id@);
}

/// Widening never moves the start of a subscription's window forward, and
/// never lowers its EOSE count.
pub proof fn window_only_grows_backwards(v: SubView, now: int)
    requires
        i64::MIN <= v.since <= i64::MAX,
    ensures
        v.extended(now).since <= v.since,
        v.eose_marked().since == v.since,
        v.eose_marked().eose_count >= v.eose_count,
        v.extended(now).eose_count == v.eose_count,
{
}

/// After the fourth stage no further widening happens: a fifth signal leaves
/// no stage to run.
pub proof fn no_widening_after_fourth_stage(v: SubView)
    requires
        v.eose_count >= 4,
    ensures
        !widening_stage(v.eose_marked().eose_count),
{
}

} // verus!
