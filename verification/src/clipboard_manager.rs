//! The clipboard manager: the store, the history and the pinned list,
//! kept in step by the four things that can happen to them.

use crate::contents::{Contents, ContentsView};
use crate::model::{
    lemma_after_check_wf, lemma_after_copy_wf, lemma_after_pin_wf, lemma_after_unpin_wf,
    lemma_back, lemma_observed_wf, lemma_promoted_wf, lemma_settled, lemma_stored, lemma_without,
    marked, ManagerView, HISTORY_LEN,
};
use crate::store::{
    fresh_entry, holder, id_for, lemma_valid_insert, ContentsStore, Entry, ManagedItem,
};
use std::collections::VecDeque;
use vstd::prelude::*;

verus! {

/// What became of a request to pin an entry.
#[derive(Clone, Copy, Debug, PartialEq, Eq, Structural)]
pub enum Pinning {
    /// The entry is pinned now.
    Pinned,
    /// The entry was pinned already; nothing changed.
    AlreadyPinned,
    /// The store has no such entry; nothing changed.
    Unknown,
}

/// What the picker is sent: the history and the pinned list, each entry
/// as the user sees it.
#[derive(Debug)]
pub struct Update {
    pub history: Vec<Entry>,
    pub pinned: Vec<Entry>,
}

/// The value of an optional snapshot.
pub open spec fn seen_view(seen: Option<Contents>) -> Option<ContentsView> {
    match seen {
        Some(contents) => Some(contents@),
        None => None,
    }
}

/// The saved state of a clipboard manager and the rules that change it.
pub struct ClipboardManager {
    store: ContentsStore,
    history: VecDeque<u32>,
    pinned: Vec<u32>,
    ignore: bool,
}

impl View for ClipboardManager {
    type V = ManagerView;

    closed spec fn view(&self) -> ManagerView {
        ManagerView {
            entries: self.store@,
            next_id: self.store.next_id(),
            history: self.history@,
            pinned: self.pinned@,
            ignore: self.ignore,
        }
    }
}

fn position_in_history(history: &VecDeque<u32>, id: u32) -> (found: Option<usize>)
    ensures
        match found {
            Some(i) => i < history@.len() && history@[i as int] == id,
            None => !history@.contains(id),
        },
{
    let mut i: usize = 0;
    while i < history.len()
        invariant
            i <= history@.len(),
            forall|k: int| 0 <= k < i ==> history@[k] != id,
        decreases history@.len() - i,
    {
        if history[i] == id {
            return Some(i);
        }
        i += 1;
    }
    None
}

fn position_in_pinned(pinned: &Vec<u32>, id: u32) -> (found: Option<usize>)
    ensures
        match found {
            Some(i) => i < pinned@.len() && pinned@[i as int] == id,
            None => !pinned@.contains(id),
        },
{
    let mut i: usize = 0;
    while i < pinned.len()
        invariant
            i <= pinned@.len(),
            forall|k: int| 0 <= k < i ==> pinned@[k] != id,
        decreases pinned@.len() - i,
    {
        if pinned[i] == id {
            return Some(i);
        }
        i += 1;
    }
    None
}

impl ClipboardManager {
    /// The invariant of the manager.
    pub closed spec fn wf(&self) -> bool {
        self.store.wf() && self@.wf()
    }

    /// A well-formed manager has a well-formed value.
    pub proof fn lemma_wf(&self)
        requires
            self.wf(),
        ensures
            self@.wf(),
    {
    }

    /// A manager that starts with the snapshots `saved`, all of them pinned
    /// and in their saved order, and then looks at the clipboard once, where
    /// it finds `seen`. A saved snapshot equal to one before it is passed
    /// over, so that the pinned list names nothing twice.
    pub fn new(saved: Vec<Contents>, seen: Option<Contents>) -> (manager: ClipboardManager)
        requires
            saved.len() < u32::MAX,
        ensures
            manager.wf(),
            manager@ == ManagerView::initial(saved.deep_view(), seen_view(seen)),
    {
        let mut manager = ClipboardManager {
            store: ContentsStore::new(),
            history: VecDeque::new(),
            pinned: Vec::new(),
            ignore: false,
        };
        let ghost all = saved.deep_view();
        proof {
            manager.store.lemma_wf();
            assert(manager@ == ManagerView::loaded_all(all.take(0)));
        }
        let mut i: usize = 0;
        while i < saved.len()
            invariant
                i <= saved.len(),
                saved.len() < u32::MAX,
                all == saved.deep_view(),
                manager.wf(),
                manager@ == ManagerView::loaded_all(all.take(i as int)),
                manager@.next_id <= i,
                manager@.history.len() == 0,
                !manager@.ignore,
            decreases saved.len() - i,
        {
            let contents = saved[i].clone();
            let ghost before = manager@;
            proof {
                assert(all[i as int] == saved[i as int]@);
                assert(all.take(i + 1).drop_last() =~= all.take(i as int));
                assert(all.take(i + 1).last() == contents@);
                lemma_loaded_wf(before, contents@);
            }
            let fresh = manager.store.next_id();
            let id = manager.store.insert_or_get(contents);
            if id == fresh {
                manager.store.set_pinned(id, true);
                manager.pinned.push(id);
                proof {
                    assert(manager@.entries =~= before.loaded(contents@).entries);
                }
            }
            i += 1;
        }
        proof {
            assert(all.take(saved.len() as int) =~= all);
        }
        let _ = manager.check(seen);
        manager
    }

    /// Whether another new snapshot can still be given an id.
    pub fn has_room(&self) -> (room: bool)
        ensures
            room == (self@.next_id < u32::MAX),
    {
        self.store.has_room()
    }

    /// Whether `check` can take note of a change signal that finds `seen`:
    /// it can, unless `seen` would become a new entry and no id is left.
    pub fn can_check(&self, seen: &Option<Contents>) -> (admitted: bool)
        requires
            self.wf(),
        ensures
            admitted == self@.admits(seen_view(*seen)),
    {
        if self.ignore {
            return true;
        }
        match seen {
            None => true,
            Some(contents) => self.store.find(contents).is_some() || self.store.has_room(),
        }
    }

    /// Whether the next change signal answers a write of the manager's own,
    /// so that `check` will pay no attention to what the clipboard holds.
    pub fn awaits_own_change(&self) -> (ignore: bool)
        ensures
            ignore == self@.ignore,
    {
        self.ignore
    }

    fn promote(&mut self, id: u32)
        requires
            old(self).store.wf(),
            old(self)@.wf_before(id),
        ensures
            final(self).wf(),
            final(self)@ == old(self)@.promoted(id),
    {
        let ghost before = self@;
        proof {
            lemma_promoted_wf(before, id);
        }
        if self.history.len() > 0 && self.history[0] == id {
            return ;
        }
        match position_in_history(&self.history, id) {
            Some(i) => {
                proof {
                    lemma_without(before.history, i as int);
                }
                let _ = self.history.remove(i);
                self.history.push_front(id);
            },
            None => {
                if self.history.len() >= HISTORY_LEN {
                    let popped = self.history.pop_back();
                    match popped {
                        Some(oldest) => {
                            let keep = position_in_pinned(&self.pinned, oldest).is_some();
                            self.store.remove_if_unreferenced(oldest, keep);
                        },
                        None => {},
                    }
                }
                self.history.push_front(id);
            },
        }
        proof {
            assert(self@.history =~= before.promoted(id).history);
            assert(self@.entries =~= before.promoted(id).entries);
        }
    }

    /// Takes note of a change signal. `seen` is what the clipboard holds
    /// now, `None` where nothing on it can be read. A signal that answers
    /// the manager's own write is consumed without a look at `seen`.
    /// Otherwise the snapshot becomes the most recent entry of the history.
    /// Returns the id of the entry that holds the snapshot, and `None` where
    /// the signal was consumed or nothing was seen: then the picker has
    /// nothing new to show.
    pub fn check(&mut self, seen: Option<Contents>) -> (recorded: Option<u32>)
        requires
            old(self).wf(),
            old(self)@.admits(seen_view(seen)),
        ensures
            final(self).wf(),
            final(self)@ == old(self)@.after_check(seen_view(seen)),
            recorded == if old(self)@.ignore {
                None
            } else {
                match seen {
                    Some(contents) => Some(
                        id_for(old(self)@.entries, old(self)@.next_id, contents@),
                    ),
                    None => None,
                }
            },
            recorded matches Some(id) ==> final(self)@.head_is(id),
    {
        proof {
            lemma_after_check_wf(self@, seen_view(seen));
            if !self@.ignore && seen is Some {
                lemma_observed_wf(self@, seen->0@);
            }
        }
        if self.ignore {
            self.ignore = false;
            return None;
        }
        match seen {
            Some(contents) => {
                proof {
                    lemma_stored(self@, contents@);
                }
                let id = self.store.insert_or_get(contents);
                self.promote(id);
                Some(id)
            },
            None => None,
        }
    }

    /// What a copy of the entry `id` has to write to the clipboard: the
    /// entry's snapshot, and nothing where the store has no such entry or
    /// the entry is on the clipboard already. Changes nothing.
    pub fn to_write(&self, id: u32) -> (contents: Option<&Contents>)
        requires
            self.wf(),
        ensures
            match contents {
                Some(found) => self@.copy_acts(id) && found@ == self@.entries[id].contents,
                None => !self@.copy_acts(id),
            },
    {
        if self.history.len() > 0 && self.history[0] == id {
            return None;
        }
        match self.store.get(id) {
            Some(item) => Some(&item.contents),
            None => None,
        }
    }

    /// Takes note that the user had the entry `id` copied, after the
    /// caller tried to write what `to_write` gave; `written` tells whether
    /// that write succeeded. After a write that succeeded the entry is the
    /// most recent of the history, and the change signal that the write
    /// causes will be consumed. A write that failed changes nothing, and
    /// neither does a copy that had nothing to write. Returns whether the
    /// state changed.
    pub fn copy(&mut self, id: u32, written: bool) -> (acted: bool)
        requires
            old(self).wf(),
        ensures
            final(self).wf(),
            final(self)@ == old(self)@.after_copy(id, written),
            acted == (old(self)@.copy_acts(id) && written),
            acted ==> final(self)@.head_is(id) && final(self)@.ignore,
    {
        proof {
            lemma_after_copy_wf(self@, id, written);
        }
        if !written {
            return false;
        }
        if self.store.get(id).is_none() {
            return false;
        }
        if self.history.len() > 0 && self.history[0] == id {
            return false;
        }
        self.promote(id);
        self.ignore = true;
        true
    }

    /// Pins the entry `id`: puts it in front of the pinned list and marks
    /// it. An entry that is pinned already, or that the store does not
    /// have, changes nothing.
    pub fn pin(&mut self, id: u32) -> (outcome: Pinning)
        requires
            old(self).wf(),
        ensures
            final(self).wf(),
            final(self)@ == old(self)@.after_pin(id),
            outcome == if !old(self)@.entries.dom().contains(id) {
                Pinning::Unknown
            } else if old(self)@.pinned.contains(id) {
                Pinning::AlreadyPinned
            } else {
                Pinning::Pinned
            },
    {
        let ghost before = self@;
        if self.store.get(id).is_none() {
            return Pinning::Unknown;
        }
        if position_in_pinned(&self.pinned, id).is_some() {
            return Pinning::AlreadyPinned;
        }
        proof {
            lemma_after_pin_wf(before, id);
        }
        self.pinned.insert(0, id);
        self.store.set_pinned(id, true);
        proof {
            assert(self@.pinned =~= before.after_pin(id).pinned);
            assert(self@.entries =~= before.after_pin(id).entries);
        }
        Pinning::Pinned
    }

    /// Unpins the entry `id`. Returns whether it was pinned. An entry that
    /// the history no longer names leaves the store with its pin.
    pub fn unpin(&mut self, id: u32) -> (unpinned: bool)
        requires
            old(self).wf(),
        ensures
            final(self).wf(),
            final(self)@ == old(self)@.after_unpin(id),
            unpinned == old(self)@.pinned.contains(id),
    {
        let ghost before = self@;
        match position_in_pinned(&self.pinned, id) {
            Some(i) => {
                proof {
                    lemma_after_unpin_wf(before, id);
                    lemma_without(before.pinned, i as int);
                    assert(before.entries.dom().contains(id));
                }
                let _ = self.pinned.remove(i);
                if position_in_history(&self.history, id).is_some() {
                    self.store.set_pinned(id, false);
                } else {
                    self.store.remove_if_unreferenced(id, false);
                }
                proof {
                    assert(self@.pinned =~= before.after_unpin(id).pinned);
                    assert(self@.entries =~= before.after_unpin(id).entries);
                }
                true
            },
            None => false,
        }
    }

    /// The entry stored under `id`, if there is one.
    pub fn get(&self, id: u32) -> (item: Option<&ManagedItem>)
        requires
            self.wf(),
        ensures
            match item {
                Some(found) => self@.entries.dom().contains(id) && found@ == self@.entries[id],
                None => !self@.entries.dom().contains(id),
            },
    {
        self.store.get(id)
    }

    /// The snapshot that is on the clipboard now: the most recent entry of
    /// the history.
    pub fn current(&self) -> (contents: Option<&Contents>)
        requires
            self.wf(),
        ensures
            match contents {
                Some(found) => self@.history.len() > 0 && found@
                    == self@.entries[self@.history[0]].contents,
                None => self@.history.len() == 0,
            },
    {
        if self.history.len() == 0 {
            return None;
        }
        let id = self.history[0];
        proof {
            assert(self@.history.contains(id));
        }
        match self.store.get(id) {
            Some(item) => Some(&item.contents),
            None => None,
        }
    }

    /// The ids of the history, the most recent first.
    pub fn history(&self) -> (ids: Vec<u32>)
        ensures
            ids@ == self@.history,
    {
        let mut ids: Vec<u32> = Vec::new();
        let mut i: usize = 0;
        while i < self.history.len()
            invariant
                i <= self.history@.len(),
                ids@ == self.history@.take(i as int),
            decreases self.history@.len() - i,
        {
            ids.push(self.history[i]);
            proof {
                assert(ids@ =~= self.history@.take(i + 1));
            }
            i += 1;
        }
        proof {
            assert(self.history@.take(i as int) =~= self.history@);
        }
        ids
    }

    /// The ids of the pinned list, the most recently pinned first.
    pub fn pinned(&self) -> (ids: Vec<u32>)
        ensures
            ids@ == self@.pinned,
    {
        let ids = self.pinned.clone();
        proof {
            assert(ids@ =~= self.pinned@);
        }
        ids
    }

    fn items(&self, ids: &Vec<u32>) -> (out: Vec<&ManagedItem>)
        requires
            self.wf(),
            forall|i: int| 0 <= i < ids@.len() ==> self@.entries.dom().contains(#[trigger] ids@[i]),
        ensures
            out@.len() == ids@.len(),
            forall|i: int| 0 <= i < out@.len() ==> (#[trigger] out@[i])@ == self@.entries[ids@[i]],
    {
        let mut out: Vec<&ManagedItem> = Vec::new();
        let mut i: usize = 0;
        while i < ids.len()
            invariant
                self.wf(),
                i <= ids@.len(),
                out@.len() == i,
                forall|k: int| 0 <= k < ids@.len() ==> self@.entries.dom().contains(#[trigger] ids@[k]),
                forall|k: int| 0 <= k < i ==> (#[trigger] out@[k])@ == self@.entries[ids@[k]],
            decreases ids@.len() - i,
        {
            match self.store.get(ids[i]) {
                Some(item) => {
                    out.push(item);
                },
                None => {},
            }
            i += 1;
        }
        out
    }

    /// What the picker is to show: each entry of the history and of the
    /// pinned list, in order, with its id, what is shown of it and whether it
    /// is pinned.
    pub fn emit(&self) -> (update: Update)
        requires
            self.wf(),
        ensures
            update.history@.len() == self@.history.len(),
            forall|i: int|
                0 <= i < update.history@.len() ==> (#[trigger] update.history@[i])@
                    == self@.entries[self@.history[i]].entry(),
            update.pinned@.len() == self@.pinned.len(),
            forall|i: int|
                0 <= i < update.pinned@.len() ==> (#[trigger] update.pinned@[i])@
                    == self@.entries[self@.pinned[i]].entry(),
    {
        let history = self.history();
        proof {
            assert forall|i: int| 0 <= i < history@.len() implies self@.entries.dom().contains(
                #[trigger] history@[i],
            ) by {
                assert(self@.history.contains(history@[i]));
            }
            assert forall|i: int| 0 <= i < self.pinned@.len() implies self@.entries.dom().contains(
                #[trigger] self.pinned@[i],
            ) by {
                assert(self@.pinned.contains(self.pinned@[i]));
            }
        }
        Update {
            history: shown(&self.items(&history)),
            pinned: shown(&self.items(&self.pinned)),
        }
    }

    /// The pinned snapshots in the order of the pinned list: what is saved
    /// for the next start.
    pub fn pinned_contents(&self) -> (out: Vec<Contents>)
        requires
            self.wf(),
        ensures
            out@.len() == self@.pinned.len(),
            forall|i: int|
                0 <= i < out@.len() ==> (#[trigger] out@[i])@
                    == self@.entries[self@.pinned[i]].contents,
    {
        proof {
            assert forall|i: int| 0 <= i < self.pinned@.len() implies self@.entries.dom().contains(
                #[trigger] self.pinned@[i],
            ) by {
                assert(self@.pinned.contains(self.pinned@[i]));
            }
        }
        let items = self.items(&self.pinned);
        let mut out: Vec<Contents> = Vec::new();
        let mut i: usize = 0;
        while i < items.len()
            invariant
                i <= items@.len(),
                out@.len() == i,
                forall|k: int| 0 <= k < i ==> (#[trigger] out@[k])@ == items@[k]@.contents,
            decreases items@.len() - i,
        {
            out.push(items[i].contents.clone());
            i += 1;
        }
        out
    }
}

fn shown(items: &Vec<&ManagedItem>) -> (out: Vec<Entry>)
    ensures
        out@.len() == items@.len(),
        forall|i: int| 0 <= i < out@.len() ==> (#[trigger] out@[i])@ == items@[i]@.entry(),
{
    let mut out: Vec<Entry> = Vec::new();
    let mut i: usize = 0;
    while i < items.len()
        invariant
            i <= items@.len(),
            out@.len() == i,
            forall|k: int| 0 <= k < i ==> (#[trigger] out@[k])@ == items@[k]@.entry(),
        decreases items@.len() - i,
    {
        out.push(items[i].entry());
        i += 1;
    }
    out
}

/// Loading a snapshot keeps a state without history well-formed.
proof fn lemma_loaded_wf(v: ManagerView, contents: ContentsView)
    requires
        v.wf(),
        v.has_id_for(contents),
        v.history.len() == 0,
    ensures
        v.loaded(contents).wf(),
        v.loaded(contents).history.len() == 0,
        v.loaded(contents).ignore == v.ignore,
        v.loaded(contents).next_id <= v.next_id + 1,
{
    let w = v.loaded(contents);
    if holder(v.entries, contents.payload()) is None {
        let id = v.next_id;
        assert(!v.entries.dom().contains(id));
        assert(!v.pinned.contains(id));
        assert(w.pinned =~= v.pinned + seq![id]);
        lemma_back(v.pinned, id);
        lemma_valid_insert(v.entries, id, marked(fresh_entry(contents, id), true));
        lemma_settled(v, w, id);
    }
}

} // verus!
