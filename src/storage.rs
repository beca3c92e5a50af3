//! An in-memory store with the key-value contract of the persistent one:
//! events by id, direct-message threads by peer, read cursors by scope,
//! outbox entries by request id, and the single encrypted keypair.
use vstd::prelude::*;
use crate::types::{
    items_view, opt_string_view, DmThread, ItemView, OpView, OutboxItem, OutboxStatus, StorageFilter, StorageOp, StoredEvent,
};
use crate::error::CoreError;
use crate::json::{decode_event_extra, decode_event_fields, json_event_extra, json_event_fields, EventExtraView, EventFieldsView};
use crate::signer::{strings_view, tags_view};

verus! {

pub ghost struct StoredEventView {
    pub id: Seq<char>,
    pub kind: u16,
    pub pubkey: Seq<char>,
    pub created_at: i64,
    pub content: Seq<char>,
    pub tags: Seq<Seq<Seq<char>>>,
    pub sig: Seq<char>,
    pub relay_hint: Option<Seq<char>>,
    pub inserted_at: i64,
}

impl View for StoredEvent {
    type V = StoredEventView;

    open spec fn view(&self) -> StoredEventView {
        StoredEventView {
            id: self.id@,
            kind: self.kind,
            pubkey: self.pubkey@,
            created_at: self.created_at,
            content: self.content@,
            tags: tags_view(self.tags@),
            sig: self.sig@,
            relay_hint: opt_string_view(self.relay_hint),
            inserted_at: self.inserted_at,
        }
    }
}

pub open spec fn events_view(v: Seq<StoredEvent>) -> Seq<StoredEventView> {
    v.map_values(|e: StoredEvent| e@)
}

fn copy_strings(v: &Vec<String>) -> (r: Vec<String>)
    ensures
        strings_view(r@) == strings_view(v@),
{
    let mut r: Vec<String> = Vec::new();
    let mut i: usize = 0;
    while i < v.len()
        invariant
            i <= v@.len(),
            strings_view(r@) == strings_view(v@.take(i as int)),
        decreases v@.len() - i,
    {
        let ghost r0 = r@;
        r.push(v[i].clone());
        assert(strings_view(r@) =~= strings_view(v@.take(i as int + 1))) by {
            assert(strings_view(r@) =~= strings_view(r0).push(v@[i as int]@));
            assert(v@.take(i as int + 1) =~= v@.take(i as int).push(v@[i as int]));
        };
        i += 1;
    }
    assert(v@.take(v@.len() as int) =~= v@);
    r
}

fn copy_tags(t: &Vec<Vec<String>>) -> (r: Vec<Vec<String>>)
    ensures
        tags_view(r@) == tags_view(t@),
{
    let mut r: Vec<Vec<String>> = Vec::new();
    let mut i: usize = 0;
    while i < t.len()
        invariant
            i <= t@.len(),
            tags_view(r@) == tags_view(t@.take(i as int)),
        decreases t@.len() - i,
    {
        let ghost r0 = r@;
        let c = copy_strings(&t[i]);
        r.push(c);
        assert(tags_view(r@) =~= tags_view(t@.take(i as int + 1))) by {
            assert(t@.take(i as int + 1) =~= t@.take(i as int).push(t@[i as int]));
            assert(r@ == r0.push(c));
            assert(tags_view(r0.push(c)) =~= tags_view(r0).push(strings_view(c@)));
            assert(tags_view(t@.take(i as int).push(t@[i as int])) =~= tags_view(t@.take(i as int)).push(strings_view(t@[i as int]@)));
        };
        i += 1;
    }
    assert(t@.take(t@.len() as int) =~= t@);
    r
}

impl StoredEvent {
    /// A copy of the event.
    pub fn copy(&self) -> (r: StoredEvent)
        ensures
            r@ == self@,
    {
        StoredEvent {
            id: self.id.clone(),
            kind: self.kind,
            pubkey: self.pubkey.clone(),
            created_at: self.created_at,
            content: self.content.clone(),
            tags: copy_tags(&self.tags),
            sig: self.sig.clone(),
            relay_hint: crate::types::copy_opt(&self.relay_hint),
            inserted_at: self.inserted_at,
        }
    }
}

/// Whether an event passes a filter: its kind among `kinds`, its author
/// among `authors`, and its time within `since` and `until`, each when set.
pub open spec fn passes(f: StorageFilter, e: StoredEventView) -> bool {
    &&& (match f.kinds {
        Some(k) => k@.contains(e.kind),
        None => true,
    })
    &&& (match f.authors {
        Some(a) => strings_view(a@).contains(e.pubkey),
        None => true,
    })
    &&& (match f.since {
        Some(s) => e.created_at >= s,
        None => true,
    })
    &&& (match f.until {
        Some(u) => e.created_at <= u,
        None => true,
    })
}

/// The events that pass the filter, in order.
pub open spec fn passing(f: StorageFilter, s: Seq<StoredEventView>) -> Seq<StoredEventView>
    decreases s.len(),
{
    if s.len() == 0 {
        s
    } else {
        let rest = passing(f, s.drop_last());
        if passes(f, s.last()) { rest.push(s.last()) } else { rest }
    }
}

/// The outbox entries that are queued or sent, in order.
pub open spec fn pending_items(s: Seq<ItemView>) -> Seq<ItemView>
    decreases s.len(),
{
    if s.len() == 0 {
        s
    } else {
        let rest = pending_items(s.drop_last());
        let x = s.last();
        if x.status == OutboxStatus::Queued || x.status == OutboxStatus::Sent { rest.push(x) } else { rest }
    }
}

/// Whether events are ordered newest first.
pub open spec fn newest_first(s: Seq<StoredEventView>) -> bool {
    forall|i: int, j: int| 0 <= i < j < s.len() ==> s[i].created_at >= s[j].created_at
}

pub ghost struct StoreView {
    pub events: Seq<StoredEventView>,
    pub saved: Map<Seq<char>, Seq<char>>,
    pub dm_threads: Seq<DmThreadView>,
    pub last_seen: Map<Seq<char>, i64>,
    pub outbox: Seq<ItemView>,
    pub keypair: Option<Seq<u8>>,
}

pub ghost struct DmThreadView {
    pub peer: Seq<char>,
    pub last_seen: i64,
    pub last_msg_at: i64,
}

impl View for DmThread {
    type V = DmThreadView;

    open spec fn view(&self) -> DmThreadView {
        DmThreadView { peer: self.peer@, last_seen: self.last_seen, last_msg_at: self.last_msg_at }
    }
}

pub open spec fn threads_view(v: Seq<DmThread>) -> Seq<DmThreadView> {
    v.map_values(|t: DmThread| t@)
}

pub open spec fn keyed_map<V>(v: Seq<(String, V)>) -> Map<Seq<char>, V> {
    Map::new(
        |k: Seq<char>| exists|i: int| 0 <= i < v.len() && #[trigger] v[i].0@ == k,
        |k: Seq<char>| v[choose|i: int| 0 <= i < v.len() && #[trigger] v[i].0@ == k].1,
    )
}

pub open spec fn keyed_unique<V>(v: Seq<(String, V)>) -> bool {
    forall|i: int, j: int| 0 <= i < v.len() && 0 <= j < v.len() && #[trigger] v[i].0@ == #[trigger] v[j].0@ ==> i == j
}

pub open spec fn text_pairs(v: Seq<(String, String)>) -> Seq<(String, Seq<char>)> {
    v.map_values(|p: (String, String)| (p.0, p.1@))
}

proof fn lemma_keyed_at<V>(v: Seq<(String, V)>, i: int)
    requires
        keyed_unique(v),
        0 <= i < v.len(),
    ensures
        keyed_map(v).contains_key(v[i].0@),
        keyed_map(v)[v[i].0@] == v[i].1,
{
    let k = v[i].0@;
    assert(keyed_map(v).dom().contains(k));
    let j = choose|j: int| 0 <= j < v.len() && #[trigger] v[j].0@ == k;
    assert(j == i);
}

proof fn lemma_keyed_update<V>(v: Seq<(String, V)>, i: int, x: (String, V))
    requires
        keyed_unique(v),
        0 <= i < v.len(),
        x.0@ == v[i].0@,
    ensures
        keyed_unique(v.update(i, x)),
        keyed_map(v.update(i, x)) == keyed_map(v).insert(x.0@, x.1),
{
    let t = v.update(i, x);
    assert forall|a: int, b: int| 0 <= a < t.len() && 0 <= b < t.len() && #[trigger] t[a].0@ == #[trigger] t[b].0@ implies a == b by {
        assert(v[a].0@ == t[a].0@ && v[b].0@ == t[b].0@);
    };
    assert forall|key: Seq<char>| #[trigger] keyed_map(t).dom().contains(key) <==> keyed_map(v).insert(x.0@, x.1).dom().contains(key) by {
        if keyed_map(t).dom().contains(key) {
            let j = choose|j: int| 0 <= j < t.len() && #[trigger] t[j].0@ == key;
            assert(v[j].0@ == key);
        }
        if keyed_map(v).dom().contains(key) {
            let j = choose|j: int| 0 <= j < v.len() && #[trigger] v[j].0@ == key;
            assert(t[j].0@ == key);
        }
        if key == x.0@ {
            assert(t[i].0@ == key);
        }
    };
    assert forall|key: Seq<char>| #[trigger] keyed_map(t).dom().contains(key) implies keyed_map(t)[key] == keyed_map(v).insert(x.0@, x.1)[key] by {
        let j = choose|j: int| 0 <= j < t.len() && #[trigger] t[j].0@ == key;
        lemma_keyed_at(t, j);
        if j != i {
            assert(t[j] == v[j]);
            lemma_keyed_at(v, j);
        }
    };
    assert(keyed_map(t) =~= keyed_map(v).insert(x.0@, x.1));
}

proof fn lemma_keyed_push<V>(v: Seq<(String, V)>, x: (String, V))
    requires
        keyed_unique(v),
        !keyed_map(v).contains_key(x.0@),
    ensures
        keyed_unique(v.push(x)),
        keyed_map(v.push(x)) == keyed_map(v).insert(x.0@, x.1),
{
    let t = v.push(x);
    let n = v.len() as int;
    assert forall|a: int, b: int| 0 <= a < t.len() && 0 <= b < t.len() && #[trigger] t[a].0@ == #[trigger] t[b].0@ implies a == b by {
        if a < n && b < n {
            assert(t[a] == v[a] && t[b] == v[b]);
        } else if a < n {
            assert(t[a] == v[a]);
            assert(keyed_map(v).dom().contains(v[a].0@));
        } else if b < n {
            assert(t[b] == v[b]);
            assert(keyed_map(v).dom().contains(v[b].0@));
        }
    };
    assert forall|key: Seq<char>| #[trigger] keyed_map(t).dom().contains(key) <==> keyed_map(v).insert(x.0@, x.1).dom().contains(key) by {
        if keyed_map(t).dom().contains(key) {
            let j = choose|j: int| 0 <= j < t.len() && #[trigger] t[j].0@ == key;
            if j < n { assert(t[j] == v[j]); }
        }
        if keyed_map(v).dom().contains(key) {
            let j = choose|j: int| 0 <= j < v.len() && #[trigger] v[j].0@ == key;
            assert(t[j] == v[j]);
        }
        if key == x.0@ {
            assert(t[n].0@ == key);
        }
    };
    assert forall|key: Seq<char>| #[trigger] keyed_map(t).dom().contains(key) implies keyed_map(t)[key] == keyed_map(v).insert(x.0@, x.1)[key] by {
        let j = choose|j: int| 0 <= j < t.len() && #[trigger] t[j].0@ == key;
        lemma_keyed_at(t, j);
        if j < n {
            assert(t[j] == v[j]);
            lemma_keyed_at(v, j);
        }
    };
    assert(keyed_map(t) =~= keyed_map(v).insert(x.0@, x.1));
}

/// The string entries of a tag, in order.
pub open spec fn tag_strings(t: Seq<Option<Seq<char>>>) -> Seq<Seq<char>>
    decreases t.len(),
{
    if t.len() == 0 {
        Seq::empty()
    } else {
        let rest = tag_strings(t.drop_last());
        match t.last() {
            Some(x) => rest.push(x),
            None => rest,
        }
    }
}

/// The tags that are arrays, each as its string entries, in order.
pub open spec fn tag_lists(t: Seq<Option<Seq<Option<Seq<char>>>>>) -> Seq<Seq<Seq<char>>>
    decreases t.len(),
{
    if t.len() == 0 {
        Seq::empty()
    } else {
        let rest = tag_lists(t.drop_last());
        match t.last() {
            Some(x) => rest.push(tag_strings(x)),
            None => rest,
        }
    }
}

/// The stored form of an event read from its JSON: a missing `id` falls
/// back to the id it is saved under; a missing kind, time or text reads as
/// zero or empty.
pub open spec fn stored_event_of(event_id: Seq<char>, f: EventFieldsView, x: EventExtraView, inserted_at: i64) -> StoredEventView {
    StoredEventView {
        id: match f.id {
            Some(id) => id,
            None => event_id,
        },
        kind: match f.kind {
            Some(k) => k as u16,
            None => 0,
        },
        pubkey: match f.pubkey {
            Some(p) => p,
            None => Seq::empty(),
        },
        created_at: match f.created_at {
            Some(c) => c,
            None => 0,
        },
        content: match f.content {
            Some(c) => c,
            None => Seq::empty(),
        },
        tags: match x.tags {
            Some(t) => tag_lists(t),
            None => Seq::empty(),
        },
        sig: match x.sig {
            Some(s) => s,
            None => Seq::empty(),
        },
        relay_hint: None,
        inserted_at,
    }
}

/// The stored event of a JSON text, when it parses and its kind, if any,
/// fits in 16 bits.
pub open spec fn parsed_stored_event(event_id: Seq<char>, event_json: Seq<char>, inserted_at: i64) -> Option<StoredEventView> {
    match (json_event_fields(event_json), json_event_extra(event_json)) {
        (Some(f), Some(x)) => if f.kind matches Some(k) && k > u16::MAX { None } else { Some(stored_event_of(event_id, f, x, inserted_at)) },
        _ => None,
    }
}

fn tag_entries(t: &Vec<Option<String>>) -> (r: Vec<String>)
    ensures
        strings_view(r@) == tag_strings(crate::json::entries_view(t@)),
{
    let ghost tv = crate::json::entries_view(t@);
    let mut r: Vec<String> = Vec::new();
    let mut i: usize = 0;
    while i < t.len()
        invariant
            i <= t@.len(),
            tv == crate::json::entries_view(t@),
            strings_view(r@) == tag_strings(tv.take(i as int)),
        decreases t@.len() - i,
    {
        let ghost r0 = r@;
        assert(tv.take(i as int + 1).drop_last() =~= tv.take(i as int));
        assert(tv.take(i as int + 1).last() == crate::json::opt_view(t@[i as int]));
        match &t[i] {
            Some(x) => {
                r.push(x.clone());
                assert(strings_view(r@) =~= strings_view(r0).push(x@));
            },
            None => {},
        }
        i += 1;
    }
    assert(tv.take(t@.len() as int) =~= tv);
    r
}

pub(crate) fn tag_vectors(t: &Vec<Option<Vec<Option<String>>>>) -> (r: Vec<Vec<String>>)
    ensures
        tags_view(r@) == tag_lists(crate::json::raw_tags_view(t@)),
{
    let ghost tv = crate::json::raw_tags_view(t@);
    let mut r: Vec<Vec<String>> = Vec::new();
    let mut i: usize = 0;
    while i < t.len()
        invariant
            i <= t@.len(),
            tv == crate::json::raw_tags_view(t@),
            tags_view(r@) == tag_lists(tv.take(i as int)),
        decreases t@.len() - i,
    {
        let ghost r0 = r@;
        assert(tv.take(i as int + 1).drop_last() =~= tv.take(i as int));
        assert(tv.take(i as int + 1).last() == tv[i as int]);
        match &t[i] {
            Some(x) => {
                let e = tag_entries(x);
                r.push(e);
                assert(tags_view(r@) =~= tags_view(r0).push(strings_view(e@)));
            },
            None => {},
        }
        i += 1;
    }
    assert(tv.take(t@.len() as int) =~= tv);
    r
}

fn or_empty(o: Option<String>) -> (r: String)
    ensures
        r@ == match crate::json::opt_view(o) {
            Some(s) => s,
            None => Seq::<char>::empty(),
        },
{
    match o {
        Some(s) => s,
        None => String::new(),
    }
}

/// Reads the stored form of an event from its JSON, saved under `event_id`
/// at `inserted_at` (milliseconds); a parse error when the JSON does not
/// parse or its kind does not fit in 16 bits.
pub fn stored_event_from_json(event_id: &str, event_json: &str, inserted_at: i64) -> (r: Result<StoredEvent, CoreError>)
    ensures
        r is Ok <==> parsed_stored_event(event_id@, event_json@, inserted_at) is Some,
        r is Ok ==> r->Ok_0@ == parsed_stored_event(event_id@, event_json@, inserted_at)->0,
        r is Err ==> r->Err_0 is ParseError,
{
    let f = match decode_event_fields(event_json) {
        Some(f) => f,
        None => return Err(CoreError::ParseError("Malformed event JSON".to_string())),
    };
    let x = match decode_event_extra(event_json) {
        Some(x) => x,
        None => return Err(CoreError::ParseError("Malformed event JSON".to_string())),
    };
    let tags = match &x.tags {
        Some(t) => tag_vectors(t),
        None => Vec::new(),
    };
    proof {
        if x.tags is None {
            assert(tags_view(tags@) =~= Seq::empty());
        }
    }
    let id = match f.id {
        Some(id) => id,
        None => event_id.to_string(),
    };
    let kind: u16 = match f.kind {
        Some(k) => {
            if k > u16::MAX as u64 {
                return Err(CoreError::ParseError("Kind out of range".to_string()));
            }
            k as u16
        },
        None => 0,
    };
    Ok(StoredEvent {
        id,
        kind,
        pubkey: or_empty(f.pubkey),
        created_at: match f.created_at {
            Some(c) => c,
            None => 0,
        },
        content: or_empty(f.content),
        tags,
        sig: or_empty(x.sig),
        relay_hint: None,
        inserted_at,
    })
}

/// Whether `r` is a selection of `events` by the filter: the events that
/// pass it, newest first, cut to the limit when one is set.
pub open spec fn selection(events: Seq<StoredEventView>, filter: StorageFilter, r: Seq<StoredEventView>) -> bool {
    exists|s: Seq<StoredEventView>| {
        &&& s.to_multiset() == passing(filter, events).to_multiset()
        &&& newest_first(s)
        &&& r == match filter.limit {
            Some(l) => if (l as int) < s.len() { s.take(l as int) } else { s },
            None => s,
        }
    }
}

fn filter_passes(filter: &StorageFilter, e: &StoredEvent) -> (r: bool)
    ensures
        r == passes(*filter, e@),
{
    match &filter.kinds {
        Some(kinds) => {
            let mut found = false;
            let mut i: usize = 0;
            while i < kinds.len()
                invariant
                    i <= kinds@.len(),
                    found == kinds@.take(i as int).contains(e.kind),
                decreases kinds@.len() - i,
            {
                assert(kinds@.take(i as int + 1) =~= kinds@.take(i as int).push(kinds@[i as int]));
                proof { lemma_contains_push(kinds@.take(i as int), kinds@[i as int], e.kind); }
                if kinds[i] == e.kind {
                    found = true;
                }
                i += 1;
            }
            assert(kinds@.take(kinds@.len() as int) =~= kinds@);
            assert(kinds@.take(0) =~= Seq::<u16>::empty());
            if !found {
                return false;
            }
        },
        None => {},
    }
    match &filter.authors {
        Some(authors) => {
            let mut found = false;
            let mut i: usize = 0;
            while i < authors.len()
                invariant
                    i <= authors@.len(),
                    found == strings_view(authors@.take(i as int)).contains(e.pubkey@),
                decreases authors@.len() - i,
            {
                assert(strings_view(authors@.take(i as int + 1)) =~= strings_view(authors@.take(i as int)).push(authors@[i as int]@));
                proof { lemma_contains_push(strings_view(authors@.take(i as int)), authors@[i as int]@, e.pubkey@); }
                if authors[i] == e.pubkey {
                    found = true;
                }
                i += 1;
            }
            assert(authors@.take(authors@.len() as int) =~= authors@);
            if !found {
                return false;
            }
        },
        None => {},
    }
    match filter.since {
        Some(s) => if e.created_at < s {
            return false;
        },
        None => {},
    }
    match filter.until {
        Some(u) => if e.created_at > u {
            return false;
        },
        None => {},
    }
    true
}

/// The events that pass the filter, newest first (events of the same time
/// in their order in `events`), at most `limit` of them when set.
pub fn select_events(events: &Vec<StoredEvent>, filter: &StorageFilter) -> (r: Vec<StoredEvent>)
ensures
    selection(events_view(events@), *filter, events_view(r@)),
{
    let ghost all = events_view(events@);
    let mut sorted: Vec<StoredEvent> = Vec::new();
    assert(events_view(sorted@) =~= Seq::empty());
    assert(all.take(0) =~= Seq::empty());
    let mut i: usize = 0;
    while i < events.len()
        invariant
            i <= events@.len(),
            all == events_view(events@),
            events_view(sorted@).to_multiset() == passing(*filter, all.take(i as int)).to_multiset(),
            newest_first(events_view(sorted@)),
        decreases events@.len() - i,
    {
        let ghost pre = all.take(i as int);
        assert(all.take(i as int + 1) =~= pre.push(all[i as int]));
        assert(all[i as int] == events@[i as int]@);
        assert(pre.push(all[i as int]).drop_last() =~= pre);
        let e = &events[i];
        if filter_passes(filter, e) {
            let ghost sv = events_view(sorted@);
            // Insert after every event at least as new.
            let mut pos: usize = 0;
            while pos < sorted.len() && sorted[pos].created_at >= e.created_at
                invariant
                    pos <= sorted@.len(),
                    forall|j: int| 0 <= j < pos ==> sorted@[j].created_at >= e.created_at,
                decreases sorted@.len() - pos,
            {
                pos += 1;
            }
            assert(pos == sv.len() || sv[pos as int].created_at < e.created_at) by {
                if pos < sv.len() {
                    assert(sv[pos as int] == sorted@[pos as int]@);
                }
            };
            let c = e.copy();
            sorted.insert(pos, c);
            proof {
                assert(events_view(sorted@) =~= sv.insert(pos as int, e@));
                sv.insert_ensures(pos as int, e@);
                let t = sv.insert(pos as int, e@);
                assert(t.remove(pos as int) =~= sv);
                t.to_multiset_ensures();
                sv.push(e@).to_multiset_ensures();
                sv.to_multiset_ensures();
                assert(t.to_multiset() =~= sv.to_multiset().insert(e@));
                assert(passing(*filter, pre.push(all[i as int])) == passing(*filter, pre).push(all[i as int]));
                passing(*filter, pre).to_multiset_ensures();
                assert forall|a: int, b: int| 0 <= a < b < t.len() implies t[a].created_at >= t[b].created_at by {
                    if b < pos { assert(t[a] == sv[a] && t[b] == sv[b]); }
                    else if b == pos as int { assert(t[a] == sv[a]); }
                    else if a == pos as int {
                        assert(t[b] == sv[b - 1]);
                        assert(sv[pos as int].created_at < e.created_at);
                        if b - 1 > pos as int {
                            assert(sv[pos as int].created_at >= sv[b - 1].created_at);
                        }
                    }
                    else if a < pos { assert(t[a] == sv[a] && t[b] == sv[b - 1]); }
                    else { assert(t[a] == sv[a - 1] && t[b] == sv[b - 1]); }
                };
            }
        } else {
            proof {
                assert(passing(*filter, pre.push(all[i as int])) == passing(*filter, pre));
            }
        }
        i += 1;
    }
    assert(all.take(all.len() as int) =~= all);
    let ghost s = events_view(sorted@);
    match filter.limit {
        Some(l) => {
            if (l as usize) < sorted.len() {
                sorted.truncate(l as usize);
                assert(events_view(sorted@) =~= s.take(l as int));
            }
        },
        None => {},
    }
    sorted
}

/// The threads, most recent message first (threads of the same time in
/// their order in `threads`).
pub fn newest_threads(threads: &Vec<DmThread>) -> (r: Vec<DmThread>)
    ensures
        threads_view(r@).to_multiset() == threads_view(threads@).to_multiset(),
        forall|i: int, j: int| 0 <= i < j < r@.len() ==> r@[i].last_msg_at >= r@[j].last_msg_at,
{
    let ghost all = threads_view(threads@);
    let mut sorted: Vec<DmThread> = Vec::new();
    assert(threads_view(sorted@) =~= Seq::empty());
    assert(all.take(0) =~= Seq::empty());
    let mut i: usize = 0;
    while i < threads.len()
        invariant
            i <= threads@.len(),
            all == threads_view(threads@),
            threads_view(sorted@).to_multiset() == all.take(i as int).to_multiset(),
            forall|a: int, b: int| 0 <= a < b < sorted@.len() ==> sorted@[a].last_msg_at >= sorted@[b].last_msg_at,
        decreases threads@.len() - i,
    {
        let ghost pre = all.take(i as int);
        assert(all.take(i as int + 1) =~= pre.push(all[i as int]));
        assert(all[i as int] == threads@[i as int]@);
        let th = &threads[i];
        let ghost sv = threads_view(sorted@);
        let ghost so = sorted@;
        let mut pos: usize = 0;
        while pos < sorted.len() && sorted[pos].last_msg_at >= th.last_msg_at
            invariant
                pos <= sorted@.len(),
                forall|j: int| 0 <= j < pos ==> sorted@[j].last_msg_at >= th.last_msg_at,
            decreases sorted@.len() - pos,
        {
            pos += 1;
        }
        sorted.insert(pos, DmThread { peer: th.peer.clone(), last_seen: th.last_seen, last_msg_at: th.last_msg_at });
        proof {
            assert(threads_view(sorted@) =~= sv.insert(pos as int, th@));
            let t = sv.insert(pos as int, th@);
            assert(t.remove(pos as int) =~= sv);
            t.to_multiset_ensures();
            pre.to_multiset_ensures();
            assert(t.to_multiset() =~= sv.to_multiset().insert(th@));
            assert forall|a: int, b: int| 0 <= a < b < sorted@.len() implies sorted@[a].last_msg_at >= sorted@[b].last_msg_at by {
                if b < pos { assert(sorted@[a] == so[a] && sorted@[b] == so[b]); }
                else if b == pos as int { assert(sorted@[a] == so[a]); }
                else if a == pos as int { assert(sorted@[b] == so[b - 1]); }
                else if a < pos { assert(sorted@[a] == so[a] && sorted@[b] == so[b - 1]); }
                else { assert(sorted@[a] == so[a - 1] && sorted@[b] == so[b - 1]); }
            };
        }
        i += 1;
    }
    assert(all.take(all.len() as int) =~= all);
    sorted
}

/// The outbox entries that are queued or sent, in order.
pub fn pending_entries(items: &Vec<OutboxItem>) -> (r: Vec<OutboxItem>)
    ensures
        items_view(r@) == pending_items(items_view(items@)),
{
    let ghost all = items_view(items@);
    let mut r: Vec<OutboxItem> = Vec::new();
    assert(items_view(r@) =~= Seq::empty());
    assert(all.take(0) =~= Seq::empty());
    let mut i: usize = 0;
    while i < items.len()
        invariant
            i <= items@.len(),
            all == items_view(items@),
            items_view(r@) == pending_items(all.take(i as int)),
        decreases items@.len() - i,
    {
        let ghost pre = all.take(i as int);
        let ghost r0 = r@;
        assert(all.take(i as int + 1) =~= pre.push(all[i as int]));
        assert(pre.push(all[i as int]).drop_last() =~= pre);
        assert(all[i as int] == items@[i as int]@);
        let it = &items[i];
        if it.status == OutboxStatus::Queued || it.status == OutboxStatus::Sent {
            r.push(it.copy());
            assert(items_view(r@) =~= items_view(r0).push(all[i as int]));
        }
        assert(items_view(r@) == pending_items(all.take(i as int + 1)));
        i += 1;
    }
    assert(all.take(all.len() as int) =~= all);
    r
}

/// The in-memory store.
pub struct MockStorage {
    events: Vec<StoredEvent>,
    saved: Vec<(String, String)>,
    dm_threads: Vec<DmThread>,
    last_seen: Vec<(String, i64)>,
    outbox: Vec<OutboxItem>,
    keypair: Option<Vec<u8>>,
}

impl View for MockStorage {
    type V = StoreView;

    closed spec fn view(&self) -> StoreView {
        StoreView {
            events: events_view(self.events@),
            saved: keyed_map(text_pairs(self.saved@)),
            dm_threads: threads_view(self.dm_threads@),
            last_seen: keyed_map(self.last_seen@),
            outbox: items_view(self.outbox@),
            keypair: match self.keypair {
                Some(k) => Some(k@),
                None => None,
            },
        }
    }
}

fn find_key<V>(v: &Vec<(String, V)>, key: &str) -> (r: Option<usize>)
    requires
        keyed_unique(v@),
    ensures
        r is Some <==> keyed_map(v@).contains_key(key@),
        r is Some ==> r->0 < v@.len() && v@[r->0 as int].0@ == key@,
{
    let k = key.to_string();
    let mut i: usize = 0;
    while i < v.len()
        invariant
            keyed_unique(v@),
            i <= v@.len(),
            k@ == key@,
            forall|j: int| 0 <= j < i ==> v@[j].0@ != key@,
        decreases v@.len() - i,
    {
        if v[i].0 == k {
            proof { lemma_keyed_at(v@, i as int); }
            return Some(i);
        }
        i += 1;
    }
    proof {
        if keyed_map(v@).contains_key(key@) {
            let j = choose|j: int| 0 <= j < v@.len() && #[trigger] v@[j].0@ == key@;
            assert(false);
        }
    }
    None
}

proof fn lemma_text_pairs_unique(v: Seq<(String, String)>)
    ensures
        keyed_unique(v) <==> keyed_unique(text_pairs(v)),
{
    let t = text_pairs(v);
    assert forall|i: int| 0 <= i < v.len() implies #[trigger] t[i].0 == v[i].0 by {};
    if keyed_unique(v) {
        assert forall|a: int, b: int| 0 <= a < t.len() && 0 <= b < t.len() && #[trigger] t[a].0@ == #[trigger] t[b].0@ implies a == b by {
            assert(t[a].0 == v[a].0 && t[b].0 == v[b].0);
        };
    }
    if keyed_unique(t) {
        assert forall|a: int, b: int| 0 <= a < v.len() && 0 <= b < v.len() && #[trigger] v[a].0@ == #[trigger] v[b].0@ implies a == b by {
            assert(t[a].0 == v[a].0 && t[b].0 == v[b].0);
        };
    }
}

proof fn lemma_contains_push<A>(s: Seq<A>, x: A, p: A)
    ensures
        s.push(x).contains(p) <==> (s.contains(p) || x == p),
{
    if s.contains(p) {
        let j = choose|j: int| 0 <= j < s.len() && s[j] == p;
        assert(s.push(x)[j] == p);
    }
    if x == p {
        assert(s.push(x)[s.len() as int] == p);
    }
    if s.push(x).contains(p) {
        let j = choose|j: int| 0 <= j < s.push(x).len() && s.push(x)[j] == p;
        if j < s.len() {
            assert(s[j] == p);
        }
    }
}

impl MockStorage {
    pub closed spec fn wf(&self) -> bool {
        keyed_unique(self.saved@) && keyed_unique(self.last_seen@)
    }

    pub fn new() -> (r: Self)
        ensures
            r.wf(),
            r@.events.len() == 0,
            r@.saved.is_empty(),
            r@.dm_threads.len() == 0,
            r@.last_seen.is_empty(),
            r@.outbox.len() == 0,
            r@.keypair is None,
    {
        let r = MockStorage {
            events: Vec::new(),
            saved: Vec::new(),
            dm_threads: Vec::new(),
            last_seen: Vec::new(),
            outbox: Vec::new(),
            keypair: None,
        };
        assert(events_view(r.events@) =~= Seq::empty());
        assert(keyed_map(text_pairs(r.saved@)) =~= Map::empty());
        assert(threads_view(r.dm_threads@) =~= Seq::empty());
        assert(keyed_map(r.last_seen@) =~= Map::empty());
        assert(items_view(r.outbox@) =~= Seq::empty());
        r
    }

    /// Stores a decoded event, replacing the one with the same id.
    pub fn insert_event(&mut self, event: &StoredEvent)
        requires
            old(self).wf(),
        ensures
            final(self).wf(),
            final(self)@ == (StoreView { events: upserted(old(self)@.events, event@), ..old(self)@ }),
    {
        let ghost ev = self@.events;
        let mut i: usize = 0;
        while i < self.events.len()
            invariant
                self.wf(),
                self@ == old(self)@,
                ev == events_view(self.events@),
                i <= ev.len(),
                first_event(ev, event.id@, 0) == first_event(ev, event.id@, i as int),
            decreases ev.len() - i,
        {
            assert(ev[i as int] == self.events@[i as int]@);
            if self.events[i].id == event.id {
                assert(first_event(ev, event.id@, i as int) == i as int);
                self.events.set(i, event.copy());
                assert(events_view(self.events@) =~= ev.update(i as int, event@));
                return;
            }
            assert(first_event(ev, event.id@, i as int) == first_event(ev, event.id@, i as int + 1));
            i += 1;
        }
        assert(first_event(ev, event.id@, i as int) == -1);
        self.events.push(event.copy());
        assert(events_view(self.events@) =~= ev.push(event@));
    }

    /// Stores an event's JSON under `event_id`, and its decoded form in the
    /// event table, at `inserted_at`; a later save of the same id replaces
    /// both. A parse error, changing nothing, when the JSON does not parse.
    pub fn save_event(&mut self, event_id: &str, event_json: &str, inserted_at: i64) -> (r: Result<(), CoreError>)
        requires
            old(self).wf(),
        ensures
            final(self).wf(),
            r is Err <==> parsed_stored_event(event_id@, event_json@, inserted_at) is None,
            r is Err ==> r->Err_0 is ParseError && final(self)@ == old(self)@,
            r is Ok ==> final(self)@ == (StoreView {
                saved: old(self)@.saved.insert(event_id@, event_json@),
                events: upserted(old(self)@.events, parsed_stored_event(event_id@, event_json@, inserted_at)->0),
                ..old(self)@
            }),
    {
        let stored = match stored_event_from_json(event_id, event_json, inserted_at) {
            Ok(e) => e,
            Err(e) => return Err(e),
        };
        self.save_raw(event_id, event_json);
        self.insert_event(&stored);
        Ok(())
    }

    fn save_raw(&mut self, event_id: &str, event_json: &str)
        requires
            old(self).wf(),
        ensures
            final(self).wf(),
            final(self)@ == (StoreView { saved: old(self)@.saved.insert(event_id@, event_json@), ..old(self)@ }),
    {
        let ghost s0 = self.saved@;
        proof { lemma_text_pairs_unique(s0); }
        let pair = (event_id.to_string(), event_json.to_string());
        match find_key(&self.saved, event_id) {
            Some(i) => {
                proof {
                    lemma_keyed_update(text_pairs(s0), i as int, (pair.0, pair.1@));
                }
                self.saved.set(i, pair);
                assert(text_pairs(self.saved@) =~= text_pairs(s0).update(i as int, (pair.0, pair.1@)));
            },
            None => {
                proof {
                    assert(!keyed_map(text_pairs(s0)).contains_key(event_id@)) by {
                        if keyed_map(text_pairs(s0)).contains_key(event_id@) {
                            let j = choose|j: int| 0 <= j < text_pairs(s0).len() && #[trigger] text_pairs(s0)[j].0@ == event_id@;
                            assert(s0[j].0@ == event_id@);
                            assert(keyed_map(s0).contains_key(event_id@));
                        }
                    };
                    lemma_keyed_push(text_pairs(s0), (pair.0, pair.1@));
                }
                self.saved.push(pair);
                assert(text_pairs(self.saved@) =~= text_pairs(s0).push((pair.0, pair.1@)));
            },
        }
        proof { lemma_text_pairs_unique(self.saved@); }
    }

    /// The JSON stored under an event id.
    pub fn get_event_json(&self, event_id: &str) -> (r: Option<String>)
        requires
            self.wf(),
        ensures
            r is Some <==> self@.saved.contains_key(event_id@),
            r is Some ==> r->0@ == self@.saved[event_id@],
    {
        proof { lemma_text_pairs_unique(self.saved@); }
        match find_key(&self.saved, event_id) {
            Some(i) => {
                proof {
                    lemma_keyed_at(text_pairs(self.saved@), i as int);
                }
                Some(self.saved[i].1.clone())
            },
            None => {
                proof {
                    if keyed_map(text_pairs(self.saved@)).contains_key(event_id@) {
                        let j = choose|j: int| 0 <= j < text_pairs(self.saved@).len() && #[trigger] text_pairs(self.saved@)[j].0@ == event_id@;
                        assert(self.saved@[j].0@ == event_id@);
                        assert(keyed_map(self.saved@).contains_key(event_id@));
                    }
                }
                None
            },
        }
    }

    /// The stored events that pass the filter, newest first (events of the
    /// same time in insertion order), at most `limit` of them when set.
    pub fn get_events(&self, filter: &StorageFilter) -> (r: Vec<StoredEvent>)
        requires
            self.wf(),
        ensures
            selection(self@.events, *filter, events_view(r@)),
    {
        select_events(&self.events, filter)
    }

    /// Records a message with a peer at `last_msg_at`: the thread's time is
    /// updated, or a thread is started with nothing seen yet.
    pub fn upsert_dm_thread(&mut self, peer: &str, last_msg_at: i64)
        requires
            old(self).wf(),
        ensures
            final(self).wf(),
            ({
                let t = old(self)@.dm_threads;
                let k = first_thread(t, peer@, 0);
                &&& final(self)@.dm_threads == if k < 0 {
                    t.push(DmThreadView { peer: peer@, last_seen: 0, last_msg_at })
                } else {
                    t.update(k, DmThreadView { last_msg_at, ..t[k] })
                }
                &&& final(self)@ == (StoreView { dm_threads: final(self)@.dm_threads, ..old(self)@ })
            }),
    {
        let ghost t = self@.dm_threads;
        let key = peer.to_string();
        let mut i: usize = 0;
        while i < self.dm_threads.len()
            invariant
                self.wf(),
                self@ == old(self)@,
                t == threads_view(self.dm_threads@),
                i <= t.len(),
                key@ == peer@,
                first_thread(t, peer@, 0) == first_thread(t, peer@, i as int),
            decreases t.len() - i,
        {
            assert(t[i as int] == self.dm_threads@[i as int]@);
            if self.dm_threads[i].peer == key {
                assert(first_thread(t, peer@, i as int) == i as int);
                let mut th = self.dm_threads.remove(i);
                th.last_msg_at = last_msg_at;
                self.dm_threads.insert(i, th);
                assert(threads_view(self.dm_threads@) =~= t.update(i as int, DmThreadView { last_msg_at, ..t[i as int] }));
                return;
            }
            assert(first_thread(t, peer@, i as int) == first_thread(t, peer@, i as int + 1));
            i += 1;
        }
        assert(first_thread(t, peer@, i as int) == -1);
        self.dm_threads.push(DmThread { peer: key, last_seen: 0, last_msg_at });
        assert(threads_view(self.dm_threads@) =~= t.push(DmThreadView { peer: peer@, last_seen: 0, last_msg_at }));
    }

    /// The threads, most recent message first.
    pub fn get_dm_threads(&self) -> (r: Vec<DmThread>)
        ensures
            threads_view(r@).to_multiset() == self@.dm_threads.to_multiset(),
            forall|i: int, j: int| 0 <= i < j < r@.len() ==> r@[i].last_msg_at >= r@[j].last_msg_at,
    {
        newest_threads(&self.dm_threads)
    }

    /// The read cursor of a scope; 0 when none was set.
    pub fn get_last_seen(&self, scope: &str) -> (r: i64)
        requires
            self.wf(),
        ensures
            r == if self@.last_seen.contains_key(scope@) { self@.last_seen[scope@] } else { 0 },
    {
        match find_key(&self.last_seen, scope) {
            Some(i) => {
                proof { lemma_keyed_at(self.last_seen@, i as int); }
                self.last_seen[i].1
            },
            None => 0,
        }
    }

    /// Sets the read cursor of a scope.
    pub fn set_last_seen(&mut self, scope: &str, ts: i64)
        requires
            old(self).wf(),
        ensures
            final(self).wf(),
            final(self)@ == (StoreView { last_seen: old(self)@.last_seen.insert(scope@, ts), ..old(self)@ }),
    {
        let ghost v = self.last_seen@;
        let pair = (scope.to_string(), ts);
        match find_key(&self.last_seen, scope) {
            Some(i) => {
                proof { lemma_keyed_update(v, i as int, pair); }
                self.last_seen.set(i, pair);
            },
            None => {
                proof { lemma_keyed_push(v, pair); }
                self.last_seen.push(pair);
            },
        }
    }

    /// Stores an outbox entry; returns its request id.
    pub fn enqueue_outbox(&mut self, item: OutboxItem) -> (r: String)
        requires
            old(self).wf(),
        ensures
            final(self).wf(),
            r@ == item.req_id@,
            final(self)@ == (StoreView { outbox: old(self)@.outbox.push(item@), ..old(self)@ }),
    {
        let ghost o = self.outbox@;
        let r = item.req_id.clone();
        self.outbox.push(item);
        assert(items_view(self.outbox@) =~= items_view(o).push(item@));
        r
    }

    fn find_outbox(&self, req_id: &str) -> (r: Option<usize>)
        ensures
            r is Some ==> r->0 < self@.outbox.len() && r->0 as int == first_item(self@.outbox, req_id@, 0),
            r is None ==> first_item(self@.outbox, req_id@, 0) == -1,
    {
        let key = req_id.to_string();
        let ghost o = self@.outbox;
        let mut i: usize = 0;
        while i < self.outbox.len()
            invariant
                o == items_view(self.outbox@),
                i <= o.len(),
                key@ == req_id@,
                first_item(o, req_id@, 0) == first_item(o, req_id@, i as int),
            decreases o.len() - i,
        {
            assert(o[i as int] == self.outbox@[i as int]@);
            if self.outbox[i].req_id == key {
                assert(first_item(o, req_id@, i as int) == i as int);
                return Some(i);
            }
            assert(first_item(o, req_id@, i as int) == first_item(o, req_id@, i as int + 1));
            i += 1;
        }
        assert(first_item(o, req_id@, i as int) == -1);
        None
    }

    /// Records the status and error of the first entry with `req_id`; an
    /// unknown id changes nothing.
    pub fn update_outbox_status(&mut self, req_id: &str, status: OutboxStatus, error: Option<String>)
        requires
            old(self).wf(),
        ensures
            final(self).wf(),
            ({
                let o = old(self)@.outbox;
                let k = first_item(o, req_id@, 0);
                &&& final(self)@.outbox == if k < 0 { o } else { o.update(k, ItemView { status, error: opt_string_view(error), ..o[k] }) }
                &&& final(self)@ == (StoreView { outbox: final(self)@.outbox, ..old(self)@ })
            }),
    {
        let ghost o = self@.outbox;
        match self.find_outbox(req_id) {
            Some(i) => {
                let mut it = self.outbox.remove(i);
                it.status = status;
                it.error = error;
                self.outbox.insert(i, it);
                assert(items_view(self.outbox@) =~= o.update(i as int, ItemView { status, error: opt_string_view(error), ..o[i as int] }));
            },
            None => {},
        }
    }

    /// Removes the first entry with `req_id`; an unknown id changes nothing.
    pub fn delete_outbox(&mut self, req_id: &str)
        requires
            old(self).wf(),
        ensures
            final(self).wf(),
            ({
                let o = old(self)@.outbox;
                let k = first_item(o, req_id@, 0);
                &&& final(self)@.outbox == if k < 0 { o } else { o.remove(k) }
                &&& final(self)@ == (StoreView { outbox: final(self)@.outbox, ..old(self)@ })
            }),
    {
        let ghost o = self@.outbox;
        match self.find_outbox(req_id) {
            Some(i) => {
                let _ = self.outbox.remove(i);
                assert(items_view(self.outbox@) =~= o.remove(i as int));
            },
            None => {},
        }
    }

    /// The entries that are queued or sent, in order.
    pub fn get_pending_outbox(&self) -> (r: Vec<OutboxItem>)
        ensures
            items_view(r@) == pending_items(self@.outbox),
    {
        pending_entries(&self.outbox)
    }

    /// Stores the encrypted keypair, replacing an earlier one.
    pub fn save_keypair(&mut self, encrypted_data: &[u8])
        requires
            old(self).wf(),
        ensures
            final(self).wf(),
            final(self)@ == (StoreView { keypair: Some(encrypted_data@), ..old(self)@ }),
    {
        let v = vstd::slice::slice_to_vec(encrypted_data);
        self.keypair = Some(v);
    }

    /// The encrypted keypair, when one was stored.
    pub fn get_keypair(&self) -> (r: Option<Vec<u8>>)
        ensures
            r is Some == self@.keypair is Some,
            r is Some ==> r->0@ == self@.keypair->0,
    {
        match &self.keypair {
            Some(k) => Some(k.clone()),
            None => None,
        }
    }

    /// Performs a write that the engine asked for, at `now` (milliseconds);
    /// a parse error, changing nothing, when an event to save does not
    /// parse.
    pub fn apply(&mut self, op: StorageOp, now: i64) -> (r: Result<(), CoreError>)
        requires
            old(self).wf(),
        ensures
            final(self).wf(),
            r is Ok ==> final(self)@ == applied(old(self)@, op@, now),
            r is Err ==> final(self)@ == old(self)@ && r->Err_0 is ParseError,
            r is Err <==> (op@ matches OpView::SaveEvent { event_id, event_json } && parsed_stored_event(event_id, event_json, now) is None),
    {
        match op {
            StorageOp::PutOutboxItem(item) => {
                let _ = self.enqueue_outbox(item);
                Ok(())
            },
            StorageOp::SetOutboxStatus { req_id, status, error } => {
                self.update_outbox_status(req_id.as_str(), status, error);
                Ok(())
            },
            StorageOp::DeleteOutboxItem { req_id } => {
                self.delete_outbox(req_id.as_str());
                Ok(())
            },
            StorageOp::SaveEvent { event_id, event_json } => self.save_event(event_id.as_str(), event_json.as_str(), now),
        }
    }
}

/// The index of the first thread with `peer`, from `from` on; -1 when none.
pub open spec fn first_thread(t: Seq<DmThreadView>, peer: Seq<char>, from: int) -> int
    decreases t.len() - from,
{
    if from < 0 || from >= t.len() {
        -1
    } else if t[from].peer == peer {
        from
    } else {
        first_thread(t, peer, from + 1)
    }
}

/// The index of the first outbox entry with `req_id`, from `from` on; -1
/// when none.
pub open spec fn first_item(o: Seq<ItemView>, req_id: Seq<char>, from: int) -> int
    decreases o.len() - from,
{
    if from < 0 || from >= o.len() {
        -1
    } else if o[from].req_id == req_id {
        from
    } else {
        first_item(o, req_id, from + 1)
    }
}

/// The index of the first event with `id`, from `from` on; -1 when none.
pub open spec fn first_event(v: Seq<StoredEventView>, id: Seq<char>, from: int) -> int
    decreases v.len() - from,
{
    if from < 0 || from >= v.len() {
        -1
    } else if v[from].id == id {
        from
    } else {
        first_event(v, id, from + 1)
    }
}

/// The events after storing `e`: it replaces the first event with its id,
/// or is appended.
pub open spec fn upserted(v: Seq<StoredEventView>, e: StoredEventView) -> Seq<StoredEventView> {
    let k = first_event(v, e.id, 0);
    if k < 0 { v.push(e) } else { v.update(k, e) }
}

/// The store after a write at `now` (an event that does not parse is not
/// stored).
pub open spec fn applied(s: StoreView, op: OpView, now: i64) -> StoreView {
    match op {
        OpView::PutOutboxItem(it) => StoreView { outbox: s.outbox.push(it), ..s },
        OpView::SetOutboxStatus { req_id, status, error } => {
            let k = first_item(s.outbox, req_id, 0);
            StoreView { outbox: if k < 0 { s.outbox } else { s.outbox.update(k, ItemView { status, error, ..s.outbox[k] }) }, ..s }
        },
        OpView::DeleteOutboxItem { req_id } => {
            let k = first_item(s.outbox, req_id, 0);
            StoreView { outbox: if k < 0 { s.outbox } else { s.outbox.remove(k) }, ..s }
        },
        OpView::SaveEvent { event_id, event_json } => match parsed_stored_event(event_id, event_json, now) {
            Some(e) => StoreView { saved: s.saved.insert(event_id, event_json), events: upserted(s.events, e), ..s },
            None => s,
        },
    }
}

/// An event's JSON saved under its id reads back unchanged, so every field
/// read from it (its content among them) is the one that was saved.
pub proof fn saved_event_reads_back(s: StoreView, event_id: Seq<char>, event_json: Seq<char>, now: i64)
    requires
        parsed_stored_event(event_id, event_json, now) is Some,
    ensures
        ({
            let after = applied(s, OpView::SaveEvent { event_id, event_json }, now);
            &&& after.saved.contains_key(event_id)
            &&& after.saved[event_id] == event_json
            &&& json_event_fields(after.saved[event_id]) == json_event_fields(event_json)
        }),
{
}

/// An acknowledged entry leaves the store: recording it acknowledged and
/// then deleting it, as the outbox asks, removes the entry that had its
/// request id.
pub proof fn acknowledged_entry_is_deleted(s: StoreView, req_id: Seq<char>, now: i64)
    requires
        first_item(s.outbox, req_id, 0) >= 0,
    ensures
        ({
            let k = first_item(s.outbox, req_id, 0);
            let after = applied(
                applied(s, OpView::SetOutboxStatus { req_id, status: OutboxStatus::Acknowledged, error: None }, now),
                OpView::DeleteOutboxItem { req_id },
                now,
            );
            &&& after.outbox.len() == s.outbox.len() - 1
            &&& after.outbox == s.outbox.remove(k)
        }),
{
    let k = first_item(s.outbox, req_id, 0);
    lemma_first_item(s.outbox, req_id, 0);
    let s1 = applied(s, OpView::SetOutboxStatus { req_id, status: OutboxStatus::Acknowledged, error: None }, now);
    let u = s.outbox.update(k, ItemView { status: OutboxStatus::Acknowledged, error: None, ..s.outbox[k] });
    assert(s1.outbox == u);
    lemma_first_item_update(s.outbox, req_id, k, ItemView { status: OutboxStatus::Acknowledged, error: None, ..s.outbox[k] }, 0);
    assert(u.remove(k) =~= s.outbox.remove(k));
}

proof fn lemma_first_item(o: Seq<ItemView>, req_id: Seq<char>, from: int)
    requires
        0 <= from,
    ensures
        first_item(o, req_id, from) == -1 || (from <= first_item(o, req_id, from) < o.len() && o[first_item(o, req_id, from)].req_id == req_id),
    decreases o.len() - from,
{
    if from < o.len() && o[from].req_id != req_id {
        lemma_first_item(o, req_id, from + 1);
    }
}

proof fn lemma_first_item_update(o: Seq<ItemView>, req_id: Seq<char>, k: int, x: ItemView, from: int)
    requires
        0 <= from <= k < o.len(),
        x.req_id == o[k].req_id,
        first_item(o, req_id, from) == k,
    ensures
        first_item(o.update(k, x), req_id, from) == k,
    decreases k - from,
{
    let u = o.update(k, x);
    if from < k {
        assert(o[from].req_id != req_id);
        assert(u[from] == o[from]);
        assert(first_item(o, req_id, from + 1) == k);
        lemma_first_item_update(o, req_id, k, x, from + 1);
    } else {
        lemma_first_item(o, req_id, k + 1);
        assert(o[k].req_id == req_id);
        assert(u[k] == x);
    }
}

} // verus!
