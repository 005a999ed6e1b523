//! The pool of distinct clipboard contents, each under an id of its own.

use crate::contents::{Contents, ContentsView, Payload, Shown};
use std::collections::HashMap;
use vstd::prelude::*;

verus! {

broadcast use vstd::std_specs::hash::group_hash_axioms;

/// The mathematical value of a [`ManagedItem`].
pub struct ManagedItemView {
    pub contents: ContentsView,
    pub is_pinned: bool,
    pub id: u32,
}

/// A snapshot together with the id it was stored under and whether it is
/// pinned.
#[derive(Debug)]
pub struct ManagedItem {
    pub contents: Contents,
    pub is_pinned: bool,
    pub id: u32,
}

impl View for ManagedItem {
    type V = ManagedItemView;

    open spec fn view(&self) -> ManagedItemView {
        ManagedItemView { contents: self.contents@, is_pinned: self.is_pinned, id: self.id }
    }
}

/// The mathematical value of an [`Entry`].
pub struct EntryView {
    pub id: u32,
    pub content: Payload,
    pub is_pinned: bool,
}

/// One line of the picker: a stored snapshot as the user sees it.
#[derive(Debug)]
pub struct Entry {
    pub id: u32,
    pub content: Shown,
    pub is_pinned: bool,
}

impl View for Entry {
    type V = EntryView;

    open spec fn view(&self) -> EntryView {
        EntryView { id: self.id, content: self.content@, is_pinned: self.is_pinned }
    }
}

impl ManagedItemView {
    /// The line of the picker that shows this entry.
    pub open spec fn entry(self) -> EntryView {
        EntryView { id: self.id, content: self.contents.payload(), is_pinned: self.is_pinned }
    }
}

impl ManagedItem {
    /// The line of the picker that shows this entry.
    pub fn entry(&self) -> (out: Entry)
        ensures
            out@ == self@.entry(),
    {
        Entry { id: self.id, content: self.contents.shown(), is_pinned: self.is_pinned }
    }
}

/// Anything that is known by a numeric id.
pub trait HasId {
    spec fn id_value(&self) -> u32;

    fn id(&self) -> (id: u32)
        ensures
            id == self.id_value(),
    ;
}

impl HasId for ManagedItem {
    open spec fn id_value(&self) -> u32 {
        self.id
    }

    fn id(&self) -> (id: u32) {
        self.id
    }
}

/// The id under which `entries` holds the payload `p`, if it holds it.
pub open spec fn holder(entries: Map<u32, ManagedItemView>, p: Payload) -> Option<u32> {
    if exists|id: u32| #[trigger] entries.dom().contains(id) && entries[id].contents.payload() == p {
        Some(choose|id: u32| #[trigger] entries.dom().contains(id) && entries[id].contents.payload() == p)
    } else {
        None
    }
}

/// What holds of the entries of every well-formed store: each entry sits
/// under its own id, every id in use is below `next_id`, and no two entries
/// carry the same payload.
pub open spec fn valid_entries(entries: Map<u32, ManagedItemView>, next_id: u32) -> bool {
    &&& entries.dom().finite()
    &&& forall|id: u32| #[trigger]
        entries.dom().contains(id) ==> entries[id].id == id && id < next_id
    &&& forall|a: u32, b: u32|
        #[trigger] entries.dom().contains(a) && #[trigger] entries.dom().contains(b)
            && entries[a].contents.payload() == entries[b].contents.payload() ==> a == b
}

/// The entry that a fresh, unpinned snapshot becomes under `id`.
pub open spec fn fresh_entry(contents: ContentsView, id: u32) -> ManagedItemView {
    ManagedItemView { contents, is_pinned: false, id }
}

/// `entries` after a snapshot with value `contents` was offered to it while
/// `next_id` was the next free id: unchanged where the payload is already
/// held, else with a fresh entry under `next_id`.
pub open spec fn entries_with(
    entries: Map<u32, ManagedItemView>,
    next_id: u32,
    contents: ContentsView,
) -> Map<u32, ManagedItemView> {
    match holder(entries, contents.payload()) {
        Some(_) => entries,
        None => entries.insert(next_id, fresh_entry(contents, next_id)),
    }
}

/// The id that a snapshot with value `contents` gets from `entries`.
pub open spec fn id_for(entries: Map<u32, ManagedItemView>, next_id: u32, contents: ContentsView) -> u32 {
    match holder(entries, contents.payload()) {
        Some(id) => id,
        None => next_id,
    }
}

/// A pool of snapshots in which no payload is held twice. Each snapshot is
/// stored under an id that is handed out once and never again.
pub struct ContentsStore {
    items: HashMap<u32, ManagedItem>,
    next_id: u32,
}

impl View for ContentsStore {
    type V = Map<u32, ManagedItemView>;

    closed spec fn view(&self) -> Map<u32, ManagedItemView> {
        Map::new(|id: u32| self.items@.contains_key(id), |id: u32| self.items@[id]@)
    }
}

impl ContentsStore {
    /// The id that the next new snapshot will get.
    pub closed spec fn spec_next_id(&self) -> u32 {
        self.next_id
    }

    /// The id that the next new snapshot will get.
    #[verifier::when_used_as_spec(spec_next_id)]
    pub fn next_id(&self) -> (id: u32)
        ensures
            id == self.next_id(),
    {
        self.next_id
    }

    /// The invariant of the store.
    pub closed spec fn wf(&self) -> bool {
        valid_entries(self@, self.next_id)
    }

    /// A well-formed store has valid entries.
    pub proof fn lemma_wf(&self)
        requires
            self.wf(),
        ensures
            valid_entries(self@, self.next_id()),
    {
    }

    /// An empty store whose first id is 0.
    pub fn new() -> (store: ContentsStore)
        ensures
            store.wf(),
            store@ == Map::<u32, ManagedItemView>::empty(),
            store.next_id() == 0,
    {
        let store = ContentsStore { items: HashMap::new(), next_id: 0 };
        proof {
            assert(store@ =~= Map::<u32, ManagedItemView>::empty());
        }
        store
    }

    /// Whether another new snapshot can still be given an id.
    pub fn has_room(&self) -> (room: bool)
        ensures
            room == (self.next_id() < u32::MAX),
    {
        self.next_id < u32::MAX
    }

    /// The id under which the payload of `contents` is stored, if it is.
    pub fn find(&self, contents: &Contents) -> (id: Option<u32>)
        requires
            self.wf(),
        ensures
            id == holder(self@, contents@.payload()),
    {
        let ghost p = contents@.payload();
        let keys = self.items.keys();
        for key in it: keys
            invariant
                self.wf(),
                p == contents@.payload(),
                it.seq().unref().to_set() == self.items@.dom(),
                forall|j: int| 0 <= j < it.index() ==> self@[*it.seq()[j]].contents.payload() != p,
        {
            proof {
                assert(it.seq().unref()[it.index() as int] == *key);
                assert(it.seq().unref().to_set().contains(*key));
                assert(self@.dom().contains(*key));
            }
            match self.items.get(key) {
                Some(item) => {
                    if item.contents.same_payload(contents) {
                        proof {
                            let found = choose|w: u32| #[trigger]
                                self@.dom().contains(w) && self@[w].contents.payload() == p;
                            assert(found == *key);
                        }
                        return Some(*key);
                    }
                },
                None => {},
            }
        }
        proof {
            assert forall|w: u32| #[trigger] self@.dom().contains(w) implies self@[w].contents.payload()
                != p by {
                assert(self.items@.dom().contains(w));
            }
        }
        None
    }

    /// The id of the entry with the payload of `contents`. Where no entry has
    /// that payload yet, `contents` is stored unpinned under the next free
    /// id; an entry that exists is left as it is.
    pub fn insert_or_get(&mut self, contents: Contents) -> (id: u32)
        requires
            old(self).wf(),
            holder(old(self)@, contents@.payload()) is None ==> old(self).next_id() < u32::MAX,
        ensures
            final(self).wf(),
            id == id_for(old(self)@, old(self).next_id(), contents@),
            final(self)@ == entries_with(old(self)@, old(self).next_id(), contents@),
            final(self).next_id() == if holder(old(self)@, contents@.payload()) is Some {
                old(self).next_id()
            } else {
                (old(self).next_id() + 1) as u32
            },
    {
        match self.find(&contents) {
            Some(id) => id,
            None => {
                let id = self.next_id;
                let ghost before = self@;
                let item = ManagedItem { contents, is_pinned: false, id };
                let _ = self.items.insert(id, item);
                self.next_id = id + 1;
                proof {
                    assert(!before.dom().contains(id));
                    assert(self@ =~= before.insert(id, item@));
                    lemma_valid_insert(before, id, item@);
                }
                id
            },
        }
    }

    /// The entry stored under `id`, if there is one.
    pub fn get(&self, id: u32) -> (item: Option<&ManagedItem>)
        requires
            self.wf(),
        ensures
            match item {
                Some(found) => self@.dom().contains(id) && found@ == self@[id],
                None => !self@.dom().contains(id),
            },
    {
        self.items.get(&id)
    }

    /// Drops the entry under `id` unless the caller still refers to it.
    pub fn remove_if_unreferenced(&mut self, id: u32, is_still_referenced: bool)
        requires
            old(self).wf(),
        ensures
            final(self).wf(),
            final(self).next_id() == old(self).next_id(),
            final(self)@ == if is_still_referenced {
                old(self)@
            } else {
                old(self)@.remove(id)
            },
    {
        if !is_still_referenced {
            let ghost before = self@;
            let _ = self.items.remove(&id);
            proof {
                assert(self@ =~= before.remove(id));
            }
        }
    }

    /// Records whether the entry under `id` is pinned. Without such an entry
    /// nothing changes.
    pub fn set_pinned(&mut self, id: u32, is_pinned: bool)
        requires
            old(self).wf(),
        ensures
            final(self).wf(),
            final(self).next_id() == old(self).next_id(),
            final(self)@ == if old(self)@.dom().contains(id) {
                old(self)@.insert(
                    id,
                    ManagedItemView { contents: old(self)@[id].contents, is_pinned, id: old(self)@[id].id },
                )
            } else {
                old(self)@
            },
    {
        let ghost before = self@;
        match self.items.remove(&id) {
            Some(item) => {
                let marked = ManagedItem { contents: item.contents, is_pinned, id: item.id };
                let _ = self.items.insert(id, marked);
                proof {
                    assert(self@ =~= before.insert(id, marked@));
                    lemma_valid_mark(before, self.next_id, id, marked@);
                }
            },
            None => {
                proof {
                    assert(self@ =~= before);
                }
            },
        }
    }
}

/// Valid entries stay valid when a new payload is stored under the next
/// free id.
pub proof fn lemma_valid_insert(entries: Map<u32, ManagedItemView>, id: u32, entry: ManagedItemView)
    requires
        valid_entries(entries, id),
        id < u32::MAX,
        entry.id == id,
        holder(entries, entry.contents.payload()) is None,
    ensures
        valid_entries(entries.insert(id, entry), (id + 1) as u32),
{
    let after = entries.insert(id, entry);
    assert forall|a: u32, b: u32|
        #[trigger] after.dom().contains(a) && #[trigger] after.dom().contains(b)
            && after[a].contents.payload() == after[b].contents.payload() implies a == b by {
        if a == id && b != id {
            assert(entries.dom().contains(b));
        }
        if b == id && a != id {
            assert(entries.dom().contains(a));
        }
    }
    assert forall|x: u32| #[trigger] after.dom().contains(x) implies after[x].id == x && x < (id
        + 1) as u32 by {
        if x != id {
            assert(entries.dom().contains(x));
        }
    }
}

/// Valid entries stay valid when one of them leaves.
pub proof fn lemma_valid_remove(entries: Map<u32, ManagedItemView>, next_id: u32, id: u32)
    requires
        valid_entries(entries, next_id),
    ensures
        valid_entries(entries.remove(id), next_id),
{
    let after = entries.remove(id);
    assert forall|a: u32, b: u32|
        #[trigger] after.dom().contains(a) && #[trigger] after.dom().contains(b)
            && after[a].contents.payload() == after[b].contents.payload() implies a == b by {
        assert(entries.dom().contains(a) && entries.dom().contains(b));
    }
    assert forall|x: u32| #[trigger] after.dom().contains(x) implies after[x].id == x && x
        < next_id by {
        assert(entries.dom().contains(x));
    }
}

/// Valid entries stay valid when the pin mark of one of them changes.
pub proof fn lemma_valid_mark(
    entries: Map<u32, ManagedItemView>,
    next_id: u32,
    id: u32,
    entry: ManagedItemView,
)
    requires
        valid_entries(entries, next_id),
        entries.dom().contains(id),
        entry.id == entries[id].id,
        entry.contents == entries[id].contents,
    ensures
        valid_entries(entries.insert(id, entry), next_id),
{
    let after = entries.insert(id, entry);
    assert forall|a: u32, b: u32|
        #[trigger] after.dom().contains(a) && #[trigger] after.dom().contains(b)
            && after[a].contents.payload() == after[b].contents.payload() implies a == b by {
        assert(entries.dom().contains(a) && entries.dom().contains(b));
    }
    assert forall|x: u32| #[trigger] after.dom().contains(x) implies after[x].id == x && x
        < next_id by {
        assert(entries.dom().contains(x));
    }
}

} // verus!
