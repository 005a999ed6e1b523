//! The clipboard manager as a state machine over mathematical values: what
//! each operation does to the store, the history and the pinned list.

use crate::contents::ContentsView;
use crate::store::{
    entries_with, fresh_entry, holder, id_for, lemma_valid_insert, lemma_valid_mark,
    lemma_valid_remove, valid_entries, ManagedItemView,
};
use vstd::prelude::*;

verus! {

/// The most entries the history ever holds.
pub const HISTORY_LEN: usize = 20;

/// `s` without its occurrence of `id`.
pub open spec fn without(s: Seq<u32>, id: u32) -> Seq<u32> {
    s.remove(s.index_of(id))
}

/// `entry` with another pin mark.
pub open spec fn marked(entry: ManagedItemView, is_pinned: bool) -> ManagedItemView {
    ManagedItemView { contents: entry.contents, is_pinned, id: entry.id }
}

/// The mathematical value of a clipboard manager.
pub struct ManagerView {
    /// The stored entries, by id.
    pub entries: Map<u32, ManagedItemView>,
    /// The id that the next new snapshot gets.
    pub next_id: u32,
    /// The ids of recent snapshots, the most recent first.
    pub history: Seq<u32>,
    /// The ids of pinned snapshots, the most recently pinned first.
    pub pinned: Seq<u32>,
    /// Whether the next change signal answers a write of the manager's own.
    pub ignore: bool,
}

impl ManagerView {
    /// The state before anything was observed or loaded.
    pub open spec fn empty() -> ManagerView {
        ManagerView {
            entries: Map::empty(),
            next_id: 0,
            history: Seq::empty(),
            pinned: Seq::empty(),
            ignore: false,
        }
    }

    /// The invariant of the manager: the store holds exactly the entries that
    /// the history or the pinned list refers to, neither list names an id
    /// twice, the history keeps within its bound, and an entry is marked
    /// pinned exactly when the pinned list names it.
    pub open spec fn wf(self) -> bool {
        &&& valid_entries(self.entries, self.next_id)
        &&& self.history.no_duplicates()
        &&& self.pinned.no_duplicates()
        &&& self.history.len() <= HISTORY_LEN
        &&& forall|id: u32| #[trigger]
            self.entries.dom().contains(id) <==> self.history.contains(id) || self.pinned.contains(
                id,
            )
        &&& forall|id: u32| #[trigger]
            self.entries.dom().contains(id) ==> self.entries[id].is_pinned == self.pinned.contains(
                id,
            )
    }

    /// Whether `self` and `other` agree on every id but `id`: on whether it
    /// is stored, and pinned, and named by the history and the pinned list.
    pub open spec fn agrees_but_on(self, other: ManagerView, id: u32) -> bool {
        forall|x: u32|
            x != id ==> {
                &&& #[trigger] other.entries.dom().contains(x) == self.entries.dom().contains(x)
                &&& self.entries.dom().contains(x) ==> other.entries[x].is_pinned
                    == self.entries[x].is_pinned
                &&& other.history.contains(x) == self.history.contains(x)
                &&& other.pinned.contains(x) == self.pinned.contains(x)
            }
    }

    /// Whether the store and the lists agree on `id`: it is stored exactly
    /// when a list names it, and marked pinned exactly when the pinned list
    /// names it.
    pub open spec fn settled(self, id: u32) -> bool {
        &&& self.entries.dom().contains(id) <==> self.history.contains(id) || self.pinned.contains(
            id,
        )
        &&& self.entries.dom().contains(id) ==> self.entries[id].is_pinned == self.pinned.contains(
            id,
        )
    }

    /// Whether `id` is the entry that is on the clipboard now.
    pub open spec fn head_is(self, id: u32) -> bool {
        self.history.len() > 0 && self.history[0] == id
    }

    /// The state after `id` became the most recent entry. An id that the
    /// history already names moves to the front. A new one is put in front,
    /// and where that makes the history too long its oldest entry leaves,
    /// and leaves the store too unless it is pinned.
    pub open spec fn promoted(self, id: u32) -> ManagerView {
        if self.head_is(id) {
            self
        } else if self.history.contains(id) {
            ManagerView { history: seq![id] + without(self.history, id), ..self }
        } else if self.history.len() < HISTORY_LEN {
            ManagerView { history: seq![id] + self.history, ..self }
        } else {
            let oldest = self.history.last();
            ManagerView {
                history: seq![id] + self.history.drop_last(),
                entries: if self.pinned.contains(oldest) {
                    self.entries
                } else {
                    self.entries.remove(oldest)
                },
                ..self
            }
        }
    }

    /// The state with `contents` in the store, before the history hears of it.
    pub open spec fn stored(self, contents: ContentsView) -> ManagerView {
        ManagerView {
            entries: entries_with(self.entries, self.next_id, contents),
            next_id: if holder(self.entries, contents.payload()) is Some {
                self.next_id
            } else {
                (self.next_id + 1) as u32
            },
            ..self
        }
    }

    /// The state after `contents` was seen on the clipboard.
    pub open spec fn observed(self, contents: ContentsView) -> ManagerView {
        self.stored(contents).promoted(id_for(self.entries, self.next_id, contents))
    }

    /// The state after a change signal, where `seen` is what the clipboard
    /// held (`None`: nothing readable). A signal that answers the manager's
    /// own write is consumed and changes nothing else.
    pub open spec fn after_check(self, seen: Option<ContentsView>) -> ManagerView {
        if self.ignore {
            ManagerView { ignore: false, ..self }
        } else {
            match seen {
                Some(contents) => self.observed(contents),
                None => self,
            }
        }
    }

    /// Whether an id is at hand for `contents`: its payload is stored
    /// already, or an id is left to draw.
    pub open spec fn has_id_for(self, contents: ContentsView) -> bool {
        holder(self.entries, contents.payload()) is Some || self.next_id < u32::MAX
    }

    /// Whether a change signal that finds `seen` can be taken note of: where
    /// it leads to a new entry, an id must be left for it.
    pub open spec fn admits(self, seen: Option<ContentsView>) -> bool {
        self.ignore || seen is None || self.has_id_for(seen->0)
    }

    /// Whether copying `id` has anything to do: the store has it and it is
    /// not on the clipboard already.
    pub open spec fn copy_acts(self, id: u32) -> bool {
        self.entries.dom().contains(id) && !self.head_is(id)
    }

    /// The state after the user asked for `id` to be copied, where
    /// `written` tells whether the entry could be written to the
    /// clipboard. A write that failed changes nothing.
    pub open spec fn after_copy(self, id: u32, written: bool) -> ManagerView {
        if self.copy_acts(id) && written {
            ManagerView { ignore: true, ..self.promoted(id) }
        } else {
            self
        }
    }

    /// Whether pinning `id` does anything: the store has it and it is not
    /// pinned yet.
    pub open spec fn pin_acts(self, id: u32) -> bool {
        self.entries.dom().contains(id) && !self.pinned.contains(id)
    }

    /// The state after the user asked for `id` to be pinned.
    pub open spec fn after_pin(self, id: u32) -> ManagerView {
        if self.pin_acts(id) {
            ManagerView {
                pinned: seq![id] + self.pinned,
                entries: self.entries.insert(id, marked(self.entries[id], true)),
                ..self
            }
        } else {
            self
        }
    }

    /// The state after the user asked for `id` to be unpinned. An entry
    /// that the history no longer names leaves the store.
    pub open spec fn after_unpin(self, id: u32) -> ManagerView {
        if self.pinned.contains(id) {
            ManagerView {
                pinned: without(self.pinned, id),
                entries: if self.history.contains(id) {
                    self.entries.insert(id, marked(self.entries[id], false))
                } else {
                    self.entries.remove(id)
                },
                ..self
            }
        } else {
            self
        }
    }

    /// The state after one persisted snapshot was loaded: it is stored as
    /// pinned and put at the end of the pinned list, unless an equal one
    /// was loaded before it.
    pub open spec fn loaded(self, contents: ContentsView) -> ManagerView {
        match holder(self.entries, contents.payload()) {
            Some(_) => self,
            None => ManagerView {
                entries: self.entries.insert(
                    self.next_id,
                    marked(fresh_entry(contents, self.next_id), true),
                ),
                next_id: (self.next_id + 1) as u32,
                pinned: self.pinned.push(self.next_id),
                ..self
            },
        }
    }

    /// The state after the persisted snapshots were loaded in order.
    pub open spec fn loaded_all(saved: Seq<ContentsView>) -> ManagerView
        decreases saved.len(),
    {
        if saved.len() == 0 {
            ManagerView::empty()
        } else {
            ManagerView::loaded_all(saved.drop_last()).loaded(saved.last())
        }
    }

    /// The state of a manager that starts with the persisted snapshots
    /// `saved` and finds `seen` on the clipboard.
    pub open spec fn initial(saved: Seq<ContentsView>, seen: Option<ContentsView>) -> ManagerView {
        ManagerView::loaded_all(saved).after_check(seen)
    }

    /// The state after a run of change signals, none of them answering a
    /// write of the manager's own, that found `seen` on the clipboard one
    /// after the other.
    pub open spec fn after_changes(self, seen: Seq<ContentsView>) -> ManagerView
        decreases seen.len(),
    {
        if seen.len() == 0 {
            self
        } else {
            self.after_changes(seen.drop_last()).after_check(Some(seen.last()))
        }
    }

    /// Whether each of a run of change signals that find `seen`, one after
    /// the other, can be taken note of in the state that the signals before
    /// it left.
    pub open spec fn admits_all(self, seen: Seq<ContentsView>) -> bool
        decreases seen.len(),
    {
        if seen.len() == 0 {
            true
        } else {
            self.admits_all(seen.drop_last()) && self.after_changes(seen.drop_last()).admits(
                Some(seen.last()),
            )
        }
    }

    /// Whether the state may lack the reference to `id` that `wf` asks for,
    /// and is well-formed but for that.
    pub open spec fn wf_before(self, id: u32) -> bool {
        &&& valid_entries(self.entries, self.next_id)
        &&& self.history.no_duplicates()
        &&& self.pinned.no_duplicates()
        &&& self.history.len() <= HISTORY_LEN
        &&& self.entries.dom().contains(id)
        &&& forall|x: u32| #[trigger]
            self.entries.dom().contains(x) <==> self.history.contains(x) || self.pinned.contains(x)
                || x == id
        &&& forall|x: u32| #[trigger]
            self.entries.dom().contains(x) ==> self.entries[x].is_pinned == self.pinned.contains(x)
    }
}

/// What `without` leaves of a list that names nothing twice.
pub proof fn lemma_without(s: Seq<u32>, i: int)
    requires
        s.no_duplicates(),
        0 <= i < s.len(),
    ensures
        s.index_of(s[i]) == i,
        without(s, s[i]) == s.remove(i),
        without(s, s[i]).len() == s.len() - 1,
        without(s, s[i]).no_duplicates(),
        forall|x: u32| without(s, s[i]).contains(x) <==> s.contains(x) && x != s[i],
        forall|k: int| 0 <= k < i ==> without(s, s[i])[k] == s[k],
        forall|k: int| i <= k < s.len() - 1 ==> without(s, s[i])[k] == s[k + 1],
{
    let t = s.remove(i);
    assert(s.index_of(s[i]) == i);
    assert forall|a: int, b: int| 0 <= a < t.len() && 0 <= b < t.len() && a != b implies t[a]
        != t[b] by {
        let from_a = if a < i { a } else { a + 1 };
        let from_b = if b < i { b } else { b + 1 };
        assert(t[a] == s[from_a] && t[b] == s[from_b]);
    }
    assert forall|x: u32| t.contains(x) <==> s.contains(x) && x != s[i] by {
        if t.contains(x) {
            let a = choose|a: int| 0 <= a < t.len() && t[a] == x;
            let from_a = if a < i { a } else { a + 1 };
            assert(s[from_a] == x);
        }
        if s.contains(x) && x != s[i] {
            let a = choose|a: int| 0 <= a < s.len() && s[a] == x;
            let from_a = if a < i { a } else { a - 1 };
            assert(t[from_a] == x);
        }
    }
}

/// What putting `id` in front of a list gives.
pub proof fn lemma_front(s: Seq<u32>, id: u32)
    ensures
        (seq![id] + s).len() == s.len() + 1,
        (seq![id] + s)[0] == id,
        forall|k: int| 0 <= k < s.len() ==> (seq![id] + s)[k + 1] == s[k],
        forall|x: u32| (seq![id] + s).contains(x) <==> x == id || s.contains(x),
        s.no_duplicates() && !s.contains(id) ==> (seq![id] + s).no_duplicates(),
{
    let t = seq![id] + s;
    assert forall|x: u32| t.contains(x) <==> x == id || s.contains(x) by {
        if t.contains(x) {
            let a = choose|a: int| 0 <= a < t.len() && t[a] == x;
            if a > 0 {
                assert(s[a - 1] == x);
            }
        }
        if s.contains(x) {
            let a = choose|a: int| 0 <= a < s.len() && s[a] == x;
            assert(t[a + 1] == x);
        }
        if x == id {
            assert(t[0] == x);
        }
    }
    if s.no_duplicates() && !s.contains(id) {
        assert forall|a: int, b: int| 0 <= a < t.len() && 0 <= b < t.len() && a != b implies t[a]
            != t[b] by {
            if a > 0 {
                assert(s[a - 1] == t[a]);
            }
            if b > 0 {
                assert(s[b - 1] == t[b]);
            }
        }
    }
}

/// What putting `id` behind a list gives.
pub proof fn lemma_back(s: Seq<u32>, id: u32)
    ensures
        forall|x: u32| (s + seq![id]).contains(x) <==> x == id || s.contains(x),
        s.no_duplicates() && !s.contains(id) ==> (s + seq![id]).no_duplicates(),
{
    let t = s + seq![id];
    assert forall|x: u32| t.contains(x) <==> x == id || s.contains(x) by {
        if t.contains(x) {
            let a = choose|a: int| 0 <= a < t.len() && t[a] == x;
            if a < s.len() {
                assert(s[a] == x);
            }
        }
        if s.contains(x) {
            let a = choose|a: int| 0 <= a < s.len() && s[a] == x;
            assert(t[a] == x);
        }
        if x == id {
            assert(t[s.len() as int] == x);
        }
    }
    if s.no_duplicates() && !s.contains(id) {
        assert forall|a: int, b: int| 0 <= a < t.len() && 0 <= b < t.len() && a != b implies t[a]
            != t[b] by {
            if a < s.len() {
                assert(s[a] == t[a]);
            }
            if b < s.len() {
                assert(s[b] == t[b]);
            }
        }
    }
}

/// What dropping the last name of a list that names nothing twice leaves.
pub proof fn lemma_drop_last(s: Seq<u32>)
    requires
        s.no_duplicates(),
        s.len() > 0,
    ensures
        s.drop_last().no_duplicates(),
        forall|x: u32| s.drop_last().contains(x) <==> s.contains(x) && x != s.last(),
{
    let t = s.drop_last();
    assert forall|x: u32| t.contains(x) <==> s.contains(x) && x != s.last() by {
        if t.contains(x) {
            let a = choose|a: int| 0 <= a < t.len() && t[a] == x;
            assert(s[a] == x);
        }
        if s.contains(x) && x != s.last() {
            let a = choose|a: int| 0 <= a < s.len() && s[a] == x;
            assert(t[a] == x);
        }
    }
}

/// Bringing a stored id to the front of the history gives a well-formed
/// state, also where nothing referred to the id before.
pub proof fn lemma_promoted_wf(v: ManagerView, id: u32)
    requires
        v.wf_before(id),
    ensures
        v.promoted(id).wf(),
        v.promoted(id).head_is(id),
        v.promoted(id).pinned == v.pinned,
        v.promoted(id).next_id == v.next_id,
        v.promoted(id).ignore == v.ignore,
{
    let w = v.promoted(id);
    if v.head_is(id) {
        assert(v.history.contains(id));
    } else if v.history.contains(id) {
        let i = v.history.index_of(id);
        lemma_without(v.history, i);
        lemma_front(without(v.history, id), id);
    } else if v.history.len() < HISTORY_LEN {
        lemma_front(v.history, id);
    } else {
        let oldest = v.history.last();
        assert(v.history.contains(oldest));
        lemma_drop_last(v.history);
        lemma_front(v.history.drop_last(), id);
        assert(w.entries.dom().finite());
    }
}

/// Storing a snapshot keeps everything that was stored and prepares the
/// state for bringing the snapshot's id to the front.
pub proof fn lemma_stored(v: ManagerView, contents: ContentsView)
    requires
        v.wf(),
        v.has_id_for(contents),
    ensures
        v.stored(contents).wf_before(id_for(v.entries, v.next_id, contents)),
        v.stored(contents).entries[id_for(v.entries, v.next_id, contents)].contents.payload()
            == contents.payload(),
        holder(v.entries, contents.payload()) is None ==> !v.history.contains(v.next_id)
            && !v.pinned.contains(v.next_id) && !v.entries.dom().contains(v.next_id),
{
    let w = v.stored(contents);
    let id = id_for(v.entries, v.next_id, contents);
    if holder(v.entries, contents.payload()) is None {
        assert(!v.entries.dom().contains(v.next_id));
        lemma_valid_insert(v.entries, id, fresh_entry(contents, id));
        assert forall|x: u32| #[trigger]
            w.entries.dom().contains(x) implies w.entries[x].is_pinned == w.pinned.contains(x) by {
            if x != id {
                assert(v.entries.dom().contains(x));
            }
        }
    }
}

/// A snapshot seen on the clipboard leaves a well-formed state, with the
/// snapshot's entry first in the history and the pinned list as it was.
pub proof fn lemma_observed_wf(v: ManagerView, contents: ContentsView)
    requires
        v.wf(),
        v.has_id_for(contents),
    ensures
        v.observed(contents).wf(),
        v.observed(contents).pinned == v.pinned,
        v.observed(contents).ignore == v.ignore,
        v.observed(contents).head_is(id_for(v.entries, v.next_id, contents)),
        v.observed(contents).next_id == v.next_id || v.observed(contents).next_id == v.next_id + 1,
{
    lemma_stored(v, contents);
    lemma_promoted_wf(v.stored(contents), id_for(v.entries, v.next_id, contents));
}

/// A change signal leaves a well-formed state that awaits no signal of
/// its own, with the pinned list as it was.
pub proof fn lemma_after_check_wf(v: ManagerView, seen: Option<ContentsView>)
    requires
        v.wf(),
        v.admits(seen),
    ensures
        v.after_check(seen).wf(),
        v.after_check(seen).pinned == v.pinned,
        !v.after_check(seen).ignore,
        v.after_check(seen).next_id == v.next_id || v.after_check(seen).next_id == v.next_id + 1,
{
    if !v.ignore {
        if let Some(contents) = seen {
            lemma_observed_wf(v, contents);
        }
    }
}

/// A copy leaves a well-formed state, with the pinned list as it was and,
/// where it did something, the copied entry first in the history.
pub proof fn lemma_after_copy_wf(v: ManagerView, id: u32, written: bool)
    requires
        v.wf(),
    ensures
        v.after_copy(id, written).wf(),
        v.after_copy(id, written).pinned == v.pinned,
        v.after_copy(id, written).next_id == v.next_id,
        v.copy_acts(id) && written ==> v.after_copy(id, written).head_is(id),
{
    if v.copy_acts(id) && written {
        lemma_promoted_wf(v, id);
    }
}

/// A state that differs from a well-formed one about one id alone, and
/// is settled on that id, refers to what it stores and stores what it
/// refers to.
pub proof fn lemma_settled(v: ManagerView, w: ManagerView, id: u32)
    requires
        v.wf(),
        v.agrees_but_on(w, id),
        w.settled(id),
    ensures
        forall|x: u32| #[trigger]
            w.entries.dom().contains(x) <==> w.history.contains(x) || w.pinned.contains(x),
        forall|x: u32| #[trigger]
            w.entries.dom().contains(x) ==> w.entries[x].is_pinned == w.pinned.contains(x),
{
    assert forall|x: u32| #[trigger] w.entries.dom().contains(x) <==> w.history.contains(x)
        || w.pinned.contains(x) by {
        if x != id {
            assert(v.entries.dom().contains(x) <==> v.history.contains(x) || v.pinned.contains(x));
        }
    }
    assert forall|x: u32| #[trigger] w.entries.dom().contains(x) implies w.entries[x].is_pinned
        == w.pinned.contains(x) by {
        if x != id {
            assert(v.entries.dom().contains(x));
        }
    }
}

/// A pin leaves a well-formed state.
pub proof fn lemma_after_pin_wf(v: ManagerView, id: u32)
    requires
        v.wf(),
    ensures
        v.after_pin(id).wf(),
{
    if v.pin_acts(id) {
        let w = v.after_pin(id);
        lemma_front(v.pinned, id);
        lemma_valid_mark(v.entries, v.next_id, id, marked(v.entries[id], true));
        lemma_settled(v, w, id);
    }
}

/// An unpin leaves a well-formed state.
pub proof fn lemma_after_unpin_wf(v: ManagerView, id: u32)
    requires
        v.wf(),
    ensures
        v.after_unpin(id).wf(),
{
    if v.pinned.contains(id) {
        let w = v.after_unpin(id);
        lemma_without(v.pinned, v.pinned.index_of(id));
        assert(v.entries.dom().contains(id));
        if v.history.contains(id) {
            lemma_valid_mark(v.entries, v.next_id, id, marked(v.entries[id], false));
        } else {
            lemma_valid_remove(v.entries, v.next_id, id);
        }
        lemma_settled(v, w, id);
    }
}

} // verus!
