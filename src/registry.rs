//! The subscription registry: the sessions by id, and for each operation
//! kind the ids of the sessions that listen to each table; and the fan-out
//! of a payload's changes to the sessions that want them.

use vstd::prelude::*;
use std::collections::HashMap;
use crate::kinds::{same_text, has_bit, is_single_kind, INSERT, UPDATE, DELETE};
use crate::query::WsWatchFor;
use crate::event::{ChangeEvent, EventSpec, filter_matches, event_of, payload_changes, decode_change, change_elements};
use crate::catalog::TableCatalog;
use crate::text::views;

verus! {

broadcast use vstd::std_specs::hash::group_hash_axioms;

/// The sessions of one table that listen to one kind.
#[derive(Debug)]
pub struct TableIds {
    pub table: String,
    pub ids: Vec<usize>,
}

/// Whether an index list holds `id` under table `t`.
pub open spec fn list_has(list: Seq<TableIds>, t: Seq<char>, id: usize) -> bool {
    exists|j: int| 0 <= j < list.len() && (#[trigger] list[j]).table@ == t && list[j].ids@.contains(id)
}

/// One entry per table, and no id twice in an entry.
pub open spec fn list_wf(list: Seq<TableIds>) -> bool {
    &&& forall|i: int, j: int|
        0 <= i < list.len() && 0 <= j < list.len() && i != j ==> (#[trigger] list[i]).table@
            != (#[trigger] list[j]).table@
    &&& forall|i: int| 0 <= i < list.len() ==> (#[trigger] list[i]).ids@.no_duplicates()
}

/// The registry of connected sessions.
pub struct ServerState {
    /// Each session's subscription, by id.
    pub clients: HashMap<usize, WsWatchFor>,
    /// Per table, the sessions that listen to inserts.
    pub inserts: Vec<TableIds>,
    /// Per table, the sessions that listen to updates.
    pub updates: Vec<TableIds>,
    /// Per table, the sessions that listen to deletes.
    pub deletes: Vec<TableIds>,
    /// The id that the next session gets.
    pub next_id: usize,
}

/// One message for one session.
#[derive(Debug, Clone)]
pub struct Delivery {
    pub id: usize,
    pub text: String,
}

impl ServerState {
    /// The index list of a kind.
    pub open spec fn kind_list(&self, k: u8) -> Seq<TableIds> {
        if k == INSERT {
            self.inserts@
        } else if k == UPDATE {
            self.updates@
        } else {
            self.deletes@
        }
    }

    /// Whether the index of kind `k` holds `id` under table `t`.
    pub open spec fn indexed(&self, k: u8, t: Seq<char>, id: usize) -> bool {
        list_has(self.kind_list(k), t, id)
    }

    /// Whether session `id` is present and subscribed to kind `k` of table `t`.
    pub open spec fn subscribed(&self, k: u8, t: Seq<char>, id: usize) -> bool {
        &&& self.clients@.contains_key(id)
        &&& self.clients@[id].change_table@ == t
        &&& has_bit(self.clients@[id].change_flag, k)
    }

    /// The registry's invariant: the indices hold exactly the subscriptions of
    /// the present sessions, and every present id was handed out already.
    pub open spec fn wf(&self) -> bool {
        &&& forall|k: u8, t: Seq<char>, id: usize|
            is_single_kind(k) ==> (#[trigger] self.indexed(k, t, id) <==> self.subscribed(k, t, id))
        &&& list_wf(self.inserts@)
        &&& list_wf(self.updates@)
        &&& list_wf(self.deletes@)
        &&& forall|id: usize| #[trigger] self.clients@.contains_key(id) ==> id < self.next_id
    }

    /// Whether session `id` is to receive event `e`.
    pub open spec fn wants(&self, id: usize, e: EventSpec) -> bool {
        &&& self.subscribed(e.kind, e.table, id)
        &&& match self.clients@[id].spec_of().filter {
            None => true,
            Some(f) => filter_matches(f, e),
        }
    }

    /// An empty registry.
    pub fn new() -> (r: ServerState)
        ensures
            r.wf(),
            r.clients@ == Map::<usize, WsWatchFor>::empty(),
            r.next_id == 0,
    {
        let r = ServerState {
            clients: HashMap::new(),
            inserts: Vec::new(),
            updates: Vec::new(),
            deletes: Vec::new(),
            next_id: 0,
        };
        assert forall|k: u8, t: Seq<char>, id: usize|
            is_single_kind(k) implies (#[trigger] r.indexed(k, t, id) <==> r.subscribed(k, t, id)) by {
        }
        r
    }
}

fn add_to(list: &mut Vec<TableIds>, table: &String, id: usize)
    requires
        list_wf(old(list)@),
        forall|t: Seq<char>| !list_has(old(list)@, t, id),
    ensures
        list_wf(final(list)@),
        forall|t: Seq<char>, x: usize|
            #[trigger] list_has(final(list)@, t, x) <==> (list_has(old(list)@, t, x) || (t == table@
                && x == id)),
{
    let mut i: usize = 0;
    while i < list.len()
        invariant
            i <= list@.len(),
            list@ == old(list)@,
            list_wf(list@),
            forall|t: Seq<char>| !list_has(list@, t, id),
            forall|j: int| 0 <= j < i ==> (#[trigger] list@[j]).table@ != table@,
        decreases list@.len() - i,
    {
        if same_text(list[i].table.as_str(), table.as_str()) {
            let ghost before = list@;
            let mut e = list.remove(i);
            assert(e == before[i as int]);
            assert(!e.ids@.contains(id)) by {
                if e.ids@.contains(id) {
                    assert(list_has(before, e.table@, id));
                }
            }
            let ghost old_ids = e.ids@;
            e.ids.push(id);
            assert(e.ids@.no_duplicates()) by {
                assert(e.ids@ == old_ids.push(id));
                assert forall|a: int, b: int| 0 <= a < b < e.ids@.len() implies e.ids@[a] != e.ids@[b] by {
                    if b == old_ids.len() {
                        assert(old_ids[a] == e.ids@[a]);
                    }
                }
            }
            list.insert(i, e);
            assert(list@ == before.update(i as int, e)) by {
                assert(list@ =~= before.update(i as int, e));
            }
            assert forall|t: Seq<char>, x: usize|
                #[trigger] list_has(list@, t, x) <==> (list_has(before, t, x) || (t == table@ && x == id)) by {
                if list_has(list@, t, x) {
                    let j = choose|j: int| 0 <= j < list@.len() && (#[trigger] list@[j]).table@ == t && list@[j].ids@.contains(x);
                    if j != i {
                        assert(before[j] == list@[j]);
                    } else if x != id {
                        let k = choose|k: int| 0 <= k < e.ids@.len() && e.ids@[k] == x;
                        assert(old_ids[k] == x);
                        assert(before[j].ids@.contains(x));
                    }
                }
                if list_has(before, t, x) {
                    let j = choose|j: int| 0 <= j < before.len() && (#[trigger] before[j]).table@ == t && before[j].ids@.contains(x);
                    if j == i {
                        let k = choose|k: int| 0 <= k < old_ids.len() && old_ids[k] == x;
                        assert(e.ids@[k] == x);
                        assert(list@[j].ids@.contains(x));
                    } else {
                        assert(list@[j] == before[j]);
                    }
                }
                if t == table@ && x == id {
                    assert(list@[i as int].ids@[old_ids.len() as int] == id);
                    assert(list@[i as int].ids@.contains(id));
                }
            }
            assert(list_wf(list@)) by {
                assert forall|a: int, b: int|
                    0 <= a < list@.len() && 0 <= b < list@.len() && a != b implies (#[trigger] list@[a]).table@
                        != (#[trigger] list@[b]).table@ by {
                    assert(before[a].table@ == list@[a].table@);
                    assert(before[b].table@ == list@[b].table@);
                }
                assert forall|a: int| 0 <= a < list@.len() implies (#[trigger] list@[a]).ids@.no_duplicates() by {
                    if a != i {
                        assert(list@[a] == before[a]);
                    }
                }
            }
            return;
        }
        i = i + 1;
    }
    let ghost before = list@;
    let mut ids: Vec<usize> = Vec::new();
    ids.push(id);
    let e = TableIds { table: table.clone(), ids };
    list.push(e);
    assert(list@ == before.push(e));
    assert forall|t: Seq<char>, x: usize|
        #[trigger] list_has(list@, t, x) <==> (list_has(before, t, x) || (t == table@ && x == id)) by {
        if list_has(list@, t, x) {
            let j = choose|j: int| 0 <= j < list@.len() && (#[trigger] list@[j]).table@ == t && list@[j].ids@.contains(x);
            if j < before.len() {
                assert(before[j] == list@[j]);
            } else {
                assert(e.ids@ == seq![id]);
            }
        }
        if list_has(before, t, x) {
            let j = choose|j: int| 0 <= j < before.len() && (#[trigger] before[j]).table@ == t && before[j].ids@.contains(x);
            assert(list@[j] == before[j]);
        }
        if t == table@ && x == id {
            assert(list@[before.len() as int].ids@[0] == id);
            assert(list@[before.len() as int].ids@.contains(id));
        }
    }
    assert(list_wf(list@)) by {
        assert forall|a: int, b: int|
            0 <= a < list@.len() && 0 <= b < list@.len() && a != b implies (#[trigger] list@[a]).table@
                != (#[trigger] list@[b]).table@ by {
            if a < before.len() && b < before.len() {
                assert(before[a] == list@[a]);
                assert(before[b] == list@[b]);
            } else if a < before.len() {
                assert(before[a] == list@[a]);
            } else {
                assert(before[b] == list@[b]);
            }
        }
        assert forall|a: int| 0 <= a < list@.len() implies (#[trigger] list@[a]).ids@.no_duplicates() by {
            if a < before.len() {
                assert(list@[a] == before[a]);
            } else {
                assert(list@[a].ids@ == seq![id]);
            }
        }
    }
}

fn without_id(ids: &Vec<usize>, id: usize) -> (r: Vec<usize>)
    requires
        ids@.no_duplicates(),
    ensures
        r@.no_duplicates(),
        forall|x: usize| #[trigger] r@.contains(x) <==> (ids@.contains(x) && x != id),
{
    let mut out: Vec<usize> = Vec::new();
    let mut i: usize = 0;
    while i < ids.len()
        invariant
            i <= ids@.len(),
            ids@.no_duplicates(),
            out@.no_duplicates(),
            forall|x: usize| #[trigger] out@.contains(x) <==> (ids@.take(i as int).contains(x) && x != id),
        decreases ids@.len() - i,
    {
        let x = ids[i];
        let ghost prior = out@;
        let ghost t0 = ids@.take(i as int);
        let ghost t1 = ids@.take(i + 1);
        assert forall|y: usize| #[trigger] t1.contains(y) <==> (t0.contains(y) || y == x) by {
            if t1.contains(y) {
                let k = choose|k: int| 0 <= k < t1.len() && t1[k] == y;
                if k < i {
                    assert(t0[k] == y);
                }
            }
            if t0.contains(y) {
                let k = choose|k: int| 0 <= k < t0.len() && t0[k] == y;
                assert(t1[k] == y);
            }
            if y == x {
                assert(t1[i as int] == y);
            }
        }
        if x != id {
            assert(!t0.contains(x)) by {
                if t0.contains(x) {
                    let k = choose|k: int| 0 <= k < t0.len() && t0[k] == x;
                    assert(ids@[k] == ids@[i as int]);
                }
            }
            out.push(x);
            assert(out@ == prior.push(x));
            assert forall|a: int, b: int| 0 <= a < b < out@.len() implies out@[a] != out@[b] by {
                if b == prior.len() {
                    assert(prior.contains(out@[a]));
                }
            }
            assert forall|y: usize| #[trigger] out@.contains(y) <==> (prior.contains(y) || y == x) by {
                if out@.contains(y) {
                    let k = choose|k: int| 0 <= k < out@.len() && out@[k] == y;
                    if k < prior.len() {
                        assert(prior[k] == y);
                    }
                }
                if prior.contains(y) {
                    let k = choose|k: int| 0 <= k < prior.len() && prior[k] == y;
                    assert(out@[k] == y);
                }
                if y == x {
                    assert(out@[prior.len() as int] == y);
                }
            }
        }
        i = i + 1;
    }
    assert(ids@.take(ids@.len() as int) =~= ids@);
    out
}

fn sweep(list: &mut Vec<TableIds>, id: usize)
    requires
        list_wf(old(list)@),
    ensures
        list_wf(final(list)@),
        forall|t: Seq<char>, x: usize|
            #[trigger] list_has(final(list)@, t, x) <==> (list_has(old(list)@, t, x) && x != id),
{
    let mut out: Vec<TableIds> = Vec::new();
    let mut i: usize = 0;
    while i < list.len()
        invariant
            i <= list@.len(),
            out@.len() == i,
            list_wf(list@),
            forall|j: int| 0 <= j < i ==> (#[trigger] out@[j]).table@ == list@[j].table@,
            forall|j: int| 0 <= j < i ==> (#[trigger] out@[j]).ids@.no_duplicates(),
            forall|j: int, x: usize|
                0 <= j < i ==> (#[trigger] out@[j].ids@.contains(x) <==> (list@[j].ids@.contains(x)
                    && x != id)),
        decreases list@.len() - i,
    {
        let ids = without_id(&list[i].ids, id);
        let table = list[i].table.clone();
        out.push(TableIds { table, ids });
        i = i + 1;
    }
    let ghost before = list@;
    assert forall|t: Seq<char>, x: usize|
        #[trigger] list_has(out@, t, x) <==> (list_has(before, t, x) && x != id) by {
        if list_has(out@, t, x) {
            let j = choose|j: int| 0 <= j < out@.len() && (#[trigger] out@[j]).table@ == t && out@[j].ids@.contains(x);
            assert(before[j].ids@.contains(x));
        }
        if list_has(before, t, x) && x != id {
            let j = choose|j: int| 0 <= j < before.len() && (#[trigger] before[j]).table@ == t && before[j].ids@.contains(x);
            assert(out@[j].ids@.contains(x));
        }
    }
    *list = out;
}

impl ServerState {
    /// Registers a session: gives it the next id, records its subscription and
    /// indexes it under its table for each kind of its mask. `None`, with the
    /// registry unchanged, once every id has been handed out.
    pub fn insert(&mut self, watch_for: WsWatchFor) -> (r: Option<usize>)
        requires
            old(self).wf(),
        ensures
            final(self).wf(),
            match r {
                None => old(self).next_id == usize::MAX && final(self).clients@ == old(self).clients@,
                Some(id) => {
                    &&& old(self).next_id < usize::MAX
                    &&& id == old(self).next_id
                    &&& final(self).next_id == id + 1
                    &&& !old(self).clients@.contains_key(id)
                    &&& final(self).clients@ == old(self).clients@.insert(id, watch_for)
                },
            },
    {
        if self.next_id == usize::MAX {
            return None;
        }
        let id = self.next_id;
        let ghost before = *self;
        assert forall|t: Seq<char>| !#[trigger] list_has(before.inserts@, t, id) by {
            assert(!before.indexed(INSERT, t, id));
        }
        assert forall|t: Seq<char>| !#[trigger] list_has(before.updates@, t, id) by {
            assert(!before.indexed(UPDATE, t, id));
        }
        assert forall|t: Seq<char>| !#[trigger] list_has(before.deletes@, t, id) by {
            assert(!before.indexed(DELETE, t, id));
        }
        self.next_id = id + 1;
        let flag = watch_for.change_flag;
        let table = watch_for.change_table.clone();
        self.clients.insert(id, watch_for);
        if flag & INSERT != 0 {
            add_to(&mut self.inserts, &table, id);
        }
        if flag & UPDATE != 0 {
            add_to(&mut self.updates, &table, id);
        }
        if flag & DELETE != 0 {
            add_to(&mut self.deletes, &table, id);
        }
        assert forall|k: u8, t: Seq<char>, x: usize|
            is_single_kind(k) implies (#[trigger] self.indexed(k, t, x) <==> self.subscribed(k, t, x)) by {
            assert(before.indexed(k, t, x) <==> before.subscribed(k, t, x));
            if x == id {
                assert(!before.indexed(k, t, x));
            }
        }
        Some(id)
    }

    /// Removes a session: drops it from the sessions, then drops its id from
    /// every table of the index of each kind in its mask. An absent id
    /// changes nothing.
    pub fn remove(&mut self, id: usize)
        requires
            old(self).wf(),
        ensures
            final(self).wf(),
            final(self).clients@ == old(self).clients@.remove(id),
            final(self).next_id == old(self).next_id,
            forall|k: u8, t: Seq<char>| !#[trigger] final(self).indexed(k, t, id),
    {
        let ghost before = *self;
        let flag: u8 = match self.clients.get(&id) {
            Some(w) => w.change_flag,
            None => 0,
        };
        self.clients.remove(&id);
        if flag & INSERT != 0 {
            sweep(&mut self.inserts, id);
        }
        if flag & UPDATE != 0 {
            sweep(&mut self.updates, id);
        }
        if flag & DELETE != 0 {
            sweep(&mut self.deletes, id);
        }
        assert(flag & 0 == 0) by (bit_vector);
        assert forall|k: u8, t: Seq<char>, x: usize|
            is_single_kind(k) implies (#[trigger] self.indexed(k, t, x) <==> self.subscribed(k, t, x)) by {
            assert(before.indexed(k, t, x) <==> before.subscribed(k, t, x));
        }
        assert forall|k: u8, t: Seq<char>| !#[trigger] self.indexed(k, t, id) by {
            let kk: u8 = if k == INSERT { INSERT } else if k == UPDATE { UPDATE } else { DELETE };
            assert(self.kind_list(k) == self.kind_list(kk));
            assert(before.indexed(kk, t, id) <==> before.subscribed(kk, t, id));
        }
    }

    /// The ids that the index of kind `kind` holds under table `table`.
    pub fn lookup_for_delivery(&self, kind: u8, table: &str) -> (r: Vec<usize>)
        requires
            self.wf(),
            is_single_kind(kind),
        ensures
            r@.no_duplicates(),
            forall|id: usize| #[trigger] r@.contains(id) <==> self.subscribed(kind, table@, id),
    {
        let list = if kind == INSERT {
            &self.inserts
        } else if kind == UPDATE {
            &self.updates
        } else {
            &self.deletes
        };
        assert(list@ == self.kind_list(kind));
        let mut i: usize = 0;
        while i < list.len()
            invariant
                i <= list@.len(),
                self.wf(),
                is_single_kind(kind),
                list@ == self.kind_list(kind),
                forall|j: int| 0 <= j < i ==> (#[trigger] list@[j]).table@ != table@,
            decreases list@.len() - i,
        {
            if same_text(list[i].table.as_str(), table) {
                let mut out: Vec<usize> = Vec::new();
                let mut k: usize = 0;
                while k < list[i].ids.len()
                    invariant
                        i < list@.len(),
                        list_wf(list@),
                        k <= list@[i as int].ids@.len(),
                        out@ == list@[i as int].ids@.take(k as int),
                    decreases list@[i as int].ids@.len() - k,
                {
                    out.push(list[i].ids[k]);
                    assert(list@[i as int].ids@.take(k + 1) =~= list@[i as int].ids@.take(k as int).push(list@[i as int].ids@[k as int]));
                    k = k + 1;
                }
                assert(out@ =~= list@[i as int].ids@);
                assert forall|id: usize| #[trigger] out@.contains(id) <==> self.subscribed(kind, table@, id) by {
                    assert(self.indexed(kind, table@, id) <==> self.subscribed(kind, table@, id));
                    if list_has(list@, table@, id) {
                        let j = choose|j: int| 0 <= j < list@.len() && (#[trigger] list@[j]).table@ == table@ && list@[j].ids@.contains(id);
                        assert(j == i);
                    }
                }
                return out;
            }
            i = i + 1;
        }
        let out: Vec<usize> = Vec::new();
        assert forall|id: usize| #[trigger] out@.contains(id) <==> self.subscribed(kind, table@, id) by {
            assert(self.indexed(kind, table@, id) <==> self.subscribed(kind, table@, id));
            if list_has(list@, table@, id) {
                let j = choose|j: int| 0 <= j < list@.len() && (#[trigger] list@[j]).table@ == table@ && list@[j].ids@.contains(id);
                assert(list@[j].table@ != table@);
            }
        }
        out
    }
}

/// The texts that a list of deliveries hands to session `id`, in order.
pub open spec fn msgs_for(out: Seq<Delivery>, id: usize) -> Seq<Seq<char>>
    decreases out.len(),
{
    if out.len() == 0 {
        Seq::empty()
    } else {
        let p = msgs_for(out.drop_last(), id);
        if out.last().id == id {
            p.push(out.last().text@)
        } else {
            p
        }
    }
}

/// The elements, in emission order, that session `id` is to receive from a
/// list of change elements.
pub open spec fn deliveries(s: ServerState, id: usize, elems: Seq<Seq<char>>, lookup: Map<i8, String>) -> Seq<Seq<char>>
    decreases elems.len(),
{
    if elems.len() == 0 {
        Seq::empty()
    } else {
        let p = deliveries(s, id, elems.drop_last(), lookup);
        match event_of(elems.last(), lookup) {
            Some(e) => if s.wants(id, e) {
                p.push(e.raw)
            } else {
                p
            },
            None => p,
        }
    }
}

/// The change elements of a payload; none for a payload without a `change`
/// array.
pub open spec fn payload_elements(payload: Seq<char>) -> Seq<Seq<char>> {
    match payload_changes(payload) {
        Some(els) => els,
        None => Seq::empty(),
    }
}

impl ServerState {
    /// The sessions that are to receive an event: those subscribed to its
    /// table and kind whose filter, if any, lets it through.
    pub fn route(&self, event: &ChangeEvent) -> (r: Vec<usize>)
        requires
            self.wf(),
            is_single_kind(event.kind),
        ensures
            r@.no_duplicates(),
            forall|id: usize| #[trigger] r@.contains(id) <==> self.wants(id, event.spec_of()),
    {
        let ids = self.lookup_for_delivery(event.kind, event.table.as_str());
        let mut out: Vec<usize> = Vec::new();
        let mut i: usize = 0;
        while i < ids.len()
            invariant
                i <= ids@.len(),
                ids@.no_duplicates(),
                forall|id: usize| #[trigger] ids@.contains(id) <==> self.subscribed(event.kind, event.table@, id),
                out@.no_duplicates(),
                forall|id: usize| #[trigger] out@.contains(id) <==> (ids@.take(i as int).contains(id)
                    && self.wants(id, event.spec_of())),
            decreases ids@.len() - i,
        {
            let id = ids[i];
            let ghost t0 = ids@.take(i as int);
            let ghost t1 = ids@.take(i + 1);
            assert forall|y: usize| #[trigger] t1.contains(y) <==> (t0.contains(y) || y == id) by {
                if t1.contains(y) {
                    let k = choose|k: int| 0 <= k < t1.len() && t1[k] == y;
                    if k < i {
                        assert(t0[k] == y);
                    }
                }
                if t0.contains(y) {
                    let k = choose|k: int| 0 <= k < t0.len() && t0[k] == y;
                    assert(t1[k] == y);
                }
                if y == id {
                    assert(t1[i as int] == y);
                }
            }
            assert(ids@.contains(id));
            let wanted = match self.clients.get(&id) {
                None => false,
                Some(w) => match &w.specific {
                    None => true,
                    Some(f) => f.match_filter(event),
                },
            };
            if wanted {
                assert(!t0.contains(id)) by {
                    if t0.contains(id) {
                        let k = choose|k: int| 0 <= k < t0.len() && t0[k] == id;
                        assert(ids@[k] == ids@[i as int]);
                    }
                }
                let ghost prior = out@;
                out.push(id);
                assert(out@ == prior.push(id));
                assert forall|a: int, b: int| 0 <= a < b < out@.len() implies out@[a] != out@[b] by {
                    if b == prior.len() {
                        assert(prior.contains(out@[a]));
                    }
                }
                assert forall|y: usize| #[trigger] out@.contains(y) <==> (prior.contains(y) || y == id) by {
                    if out@.contains(y) {
                        let k = choose|k: int| 0 <= k < out@.len() && out@[k] == y;
                        if k < prior.len() {
                            assert(prior[k] == y);
                        }
                    }
                    if prior.contains(y) {
                        let k = choose|k: int| 0 <= k < prior.len() && prior[k] == y;
                        assert(out@[k] == y);
                    }
                    if y == id {
                        assert(out@[prior.len() as int] == y);
                    }
                }
            }
            i = i + 1;
        }
        assert(ids@.take(ids@.len() as int) =~= ids@);
        out
    }

    /// Fans a payload out: each change element that reads as an event, in
    /// order, goes to every session that is to receive it, as its raw text.
    /// A payload without a `change` array gives nothing.
    pub fn fan_out(&self, payload: &str, catalog: &TableCatalog) -> (r: Vec<Delivery>)
        requires
            self.wf(),
        ensures
            forall|id: usize| #[trigger] msgs_for(r@, id) == deliveries(*self, id, payload_elements(payload@), catalog.partition_lookup@),
    {
        let mut out: Vec<Delivery> = Vec::new();
        let elems = match change_elements(payload) {
            None => {
                assert forall|id: usize| #[trigger] msgs_for(out@, id) == deliveries(*self, id, payload_elements(payload@), catalog.partition_lookup@) by {
                    assert(payload_elements(payload@).len() == 0);
                }
                return out;
            },
            Some(els) => els,
        };
        let ghost els = views(elems@);
        assert(els == payload_elements(payload@));
        let mut i: usize = 0;
        assert forall|id: usize| #[trigger] msgs_for(out@, id) == deliveries(*self, id, els.take(0), catalog.partition_lookup@) by {
            assert(els.take(0).len() == 0);
        }
        while i < elems.len()
            invariant
                self.wf(),
                els == views(elems@),
                i <= elems@.len(),
                forall|id: usize| #[trigger] msgs_for(out@, id) == deliveries(*self, id, els.take(i as int), catalog.partition_lookup@),
            decreases elems@.len() - i,
        {
            let ghost lookup = catalog.partition_lookup@;
            let ghost base = out@;
            assert(els.take(i + 1).drop_last() =~= els.take(i as int));
            assert(els.take(i + 1).last() == elems@[i as int]@);
            match decode_change(elems[i].as_str(), catalog) {
                None => {},
                Some(ev) => {
                    let ghost e = ev.spec_of();
                    let rec = self.route(&ev);
                    let mut j: usize = 0;
                    while j < rec.len()
                        invariant
                            j <= rec@.len(),
                            rec@.no_duplicates(),
                            forall|id: usize| #[trigger] msgs_for(out@, id) == if rec@.take(j as int).contains(id) {
                                msgs_for(base, id).push(ev.raw@)
                            } else {
                                msgs_for(base, id)
                            },
                        decreases rec@.len() - j,
                    {
                        let d = Delivery { id: rec[j], text: ev.raw.clone() };
                        let ghost prior = out@;
                        out.push(d);
                        assert(out@.drop_last() =~= prior);
                        let ghost t0 = rec@.take(j as int);
                        let ghost t1 = rec@.take(j + 1);
                        assert forall|y: usize| #[trigger] t1.contains(y) <==> (t0.contains(y) || y == rec@[j as int]) by {
                            if t1.contains(y) {
                                let k = choose|k: int| 0 <= k < t1.len() && t1[k] == y;
                                if k < j {
                                    assert(t0[k] == y);
                                }
                            }
                            if t0.contains(y) {
                                let k = choose|k: int| 0 <= k < t0.len() && t0[k] == y;
                                assert(t1[k] == y);
                            }
                            if y == rec@[j as int] {
                                assert(t1[j as int] == y);
                            }
                        }
                        assert(!t0.contains(rec@[j as int])) by {
                            if t0.contains(rec@[j as int]) {
                                let k = choose|k: int| 0 <= k < t0.len() && t0[k] == rec@[j as int];
                                assert(rec@[k] == rec@[j as int]);
                            }
                        }
                        assert forall|id: usize| #[trigger] msgs_for(out@, id) == if t1.contains(id) {
                            msgs_for(base, id).push(ev.raw@)
                        } else {
                            msgs_for(base, id)
                        } by {
                            assert(msgs_for(out@, id) == if d.id == id { msgs_for(prior, id).push(d.text@) } else { msgs_for(prior, id) });
                        }
                        j = j + 1;
                    }
                    assert(rec@.take(rec@.len() as int) =~= rec@);
                },
            }
            i = i + 1;
        }
        assert(els.take(elems@.len() as int) =~= els);
        out
    }
}

/// Every present session is in the index of each kind of its mask, under
/// its table.
pub proof fn lemma_clients_indexed(s: ServerState, id: usize, k: u8)
    requires
        s.wf(),
        s.clients@.contains_key(id),
        is_single_kind(k),
        has_bit(s.clients@[id].change_flag, k),
    ensures
        s.indexed(k, s.clients@[id].change_table@, id),
{
    assert(s.subscribed(k, s.clients@[id].change_table@, id));
}

/// An id is in an index only while its session is present.
pub proof fn lemma_index_only_clients(s: ServerState, id: usize, k: u8, t: Seq<char>)
    requires
        s.wf(),
        is_single_kind(k),
        s.indexed(k, t, id),
    ensures
        s.clients@.contains_key(id),
{
    assert(s.subscribed(k, t, id));
}

/// A session whose filter is `EQ(c, v)`, subscribed to an event's table and
/// kind, receives the event exactly when the first column named `c` holds
/// the JSON string `v`.
pub proof fn lemma_eq_subscriber(s: ServerState, id: usize, e: EventSpec, c: Seq<char>, v: Seq<char>)
    requires
        s.subscribed(e.kind, e.table, id),
        s.clients@[id].spec_of().filter == Some(crate::event::eq_filter(c, v)),
    ensures
        s.wants(id, e) <==> match (e.names, e.values) {
            (Some(ns), Some(vs)) => exists|i: int|
                crate::event::first_index(ns, c) == Some(i) && 0 <= i < ns.len() && ns[i] == Some(c)
                    && i < vs.len() && #[trigger] vs[i] == Some(v),
            _ => false,
        },
{
    crate::event::lemma_eq_filter(c, v, e);
}

} // verus!
