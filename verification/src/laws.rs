//! What holds of every clipboard manager, whatever it was asked to do.

use crate::contents::ContentsView;
use crate::model::{
    lemma_after_check_wf, lemma_after_copy_wf, lemma_after_pin_wf, lemma_after_unpin_wf,
    lemma_drop_last, lemma_front, lemma_promoted_wf, lemma_stored, lemma_without, without,
    ManagerView, HISTORY_LEN,
};
use crate::store::{holder, id_for};
use vstd::prelude::*;

verus! {

/// Whether no two of `seen` carry the same payload.
pub open spec fn distinct_payloads(seen: Seq<ContentsView>) -> bool {
    forall|i: int, j: int| 0 <= i < j < seen.len() ==> seen[i].payload() != seen[j].payload()
}

/// What one observed snapshot does to the history and to the entries that
/// were stored before: the snapshot's entry comes first, the entries in
/// front of its old place move back by one, and nothing that stays in the
/// store changes. `lead` counts leading names of the old history that are
/// known not to be the snapshot's.
pub proof fn lemma_observed_shift(v: ManagerView, contents: ContentsView, lead: int)
    requires
        v.wf(),
        v.has_id_for(contents),
        0 <= lead <= v.history.len(),
        forall|m: int| 0 <= m < lead ==> v.history[m] != id_for(v.entries, v.next_id, contents),
    ensures
        ({
            let w = v.observed(contents);
            let id = id_for(v.entries, v.next_id, contents);
            &&& w.wf()
            &&& w.history.len() > 0
            &&& w.history[0] == id
            &&& w.entries.dom().contains(id)
            &&& w.entries[id].contents.payload() == contents.payload()
            &&& forall|m: int|
                0 <= m < lead && m < HISTORY_LEN - 1 ==> m + 1 < w.history.len() && w.history[m
                    + 1] == v.history[m]
            &&& forall|x: u32|
                v.entries.dom().contains(x) && #[trigger] w.entries.dom().contains(x)
                    ==> w.entries[x] == v.entries[x]
            &&& forall|x: u32| #[trigger]
                v.pinned.contains(x) ==> w.entries.dom().contains(x)
            &&& forall|x: u32|
                #[trigger] v.entries.dom().contains(x) && !w.entries.dom().contains(x)
                    ==> v.history.len() == HISTORY_LEN && x == v.history.last()
        }),
{
    let s = v.stored(contents);
    let id = id_for(v.entries, v.next_id, contents);
    let w = v.observed(contents);
    lemma_stored(v, contents);
    lemma_promoted_wf(s, id);
    assert(w == s.promoted(id));
    assert forall|x: u32| v.entries.dom().contains(x) implies s.entries.dom().contains(x)
        && s.entries[x] == v.entries[x] by {}
    if s.head_is(id) {
    } else if s.history.contains(id) {
        let i = s.history.index_of(id);
        lemma_without(s.history, i);
        lemma_front(without(s.history, id), id);
        assert(i >= lead);
    } else if s.history.len() < HISTORY_LEN {
        lemma_front(s.history, id);
    } else {
        let oldest = s.history.last();
        lemma_drop_last(s.history);
        lemma_front(s.history.drop_last(), id);
        assert forall|x: u32| #[trigger] v.pinned.contains(x) implies w.entries.dom().contains(
            x,
        ) by {
            assert(v.entries.dom().contains(x));
        }
    }
}

/// A run of change signals that found one new payload after the other
/// leaves them in front of the history, the last seen first, as far as the
/// history reaches, and leaves the pinned list and the pinned entries alone.
pub proof fn lemma_recent(v: ManagerView, seen: Seq<ContentsView>)
    requires
        v.wf(),
        !v.ignore,
        distinct_payloads(seen),
        v.admits_all(seen),
    ensures
        ({
            let w = v.after_changes(seen);
            &&& w.wf()
            &&& !w.ignore
            &&& w.pinned == v.pinned
            &&& forall|m: int|
                0 <= m < seen.len() && m < HISTORY_LEN ==> m < w.history.len()
                    && w.entries.dom().contains(#[trigger] w.history[m])
                    && w.entries[w.history[m]].contents.payload() == seen[seen.len() - 1
                    - m].payload()
            &&& forall|x: u32| #[trigger]
                v.pinned.contains(x) ==> w.entries.dom().contains(x) && w.entries[x]
                    == v.entries[x]
        }),
    decreases seen.len(),
{
    if seen.len() == 0 {
    } else {
        let front = seen.drop_last();
        let last = seen.last();
        assert(distinct_payloads(front)) by {
            assert forall|i: int, j: int| 0 <= i < j < front.len() implies front[i].payload()
                != front[j].payload() by {
                assert(seen[i].payload() != seen[j].payload());
            }
        }
        lemma_recent(v, front);
        let u = v.after_changes(front);
        let w = u.observed(last);
        assert(v.after_changes(seen) == u.after_check(Some(last)));
        assert(u.after_check(Some(last)) == w);
        let id = id_for(u.entries, u.next_id, last);
        let lead: int = if front.len() < HISTORY_LEN {
            front.len() as int
        } else {
            HISTORY_LEN as int
        };
        lemma_stored(u, last);
        assert(lead <= u.history.len()) by {
            if lead > 0 {
                assert(u.entries.dom().contains(u.history[lead - 1]));
            }
        }
        assert forall|m: int| 0 <= m < lead implies u.history[m] != id by {
            assert(u.entries.dom().contains(u.history[m]));
            assert(u.entries[u.history[m]].contents.payload() == front[front.len() - 1
                - m].payload());
            assert(seen[front.len() - 1 - m].payload() != seen[seen.len() - 1].payload());
            if u.history[m] == id {
                assert(u.stored(last).entries[id] == u.entries[id]);
            }
        }
        lemma_observed_shift(u, last, lead);
        assert forall|m: int| 0 <= m < seen.len() && m < HISTORY_LEN implies m < w.history.len()
            && w.entries.dom().contains(#[trigger] w.history[m])
            && w.entries[w.history[m]].contents.payload() == seen[seen.len() - 1
            - m].payload() by {
            if m > 0 {
                let k = m - 1;
                assert(0 <= k < lead && k < HISTORY_LEN - 1);
                assert(w.history[k + 1] == u.history[k]);
                assert(u.entries.dom().contains(u.history[k]));
                assert(w.history.contains(w.history[m]));
            }
        }
        assert forall|x: u32| #[trigger] v.pinned.contains(x) implies w.entries.dom().contains(x)
            && w.entries[x] == v.entries[x] by {
            assert(u.pinned.contains(x));
            assert(u.entries.dom().contains(x));
        }
    }
}

/// The store never holds a payload twice: two ids of a well-formed
/// manager whose entries carry the same payload are one id.
pub proof fn law_no_payload_twice(v: ManagerView, a: u32, b: u32)
    requires
        v.wf(),
        v.entries.dom().contains(a),
        v.entries.dom().contains(b),
        v.entries[a].contents.payload() == v.entries[b].contents.payload(),
    ensures
        a == b,
{
}

/// A payload that is seen, and seen again after one other change signal,
/// gets the same id both times, and that id is the head of the history
/// both times.
pub proof fn law_same_payload_same_id(
    v: ManagerView,
    first: ContentsView,
    between: Option<ContentsView>,
    second: ContentsView,
)
    requires
        v.wf(),
        !v.ignore,
        v.admits(Some(first)),
        v.after_check(Some(first)).admits(between),
        first.payload() == second.payload(),
    ensures
        ({
            let a = v.after_check(Some(first));
            let b = a.after_check(between);
            let c = b.after_check(Some(second));
            &&& c.wf()
            &&& b.admits(Some(second))
            &&& id_for(b.entries, b.next_id, second) == id_for(v.entries, v.next_id, first)
            &&& a.head_is(id_for(v.entries, v.next_id, first))
            &&& c.head_is(id_for(v.entries, v.next_id, first))
        }),
{
    let id = id_for(v.entries, v.next_id, first);
    let a = v.after_check(Some(first));
    lemma_observed_shift(v, first, 0);
    lemma_after_check_wf(v, Some(first));
    let b = a.after_check(between);
    lemma_after_check_wf(a, between);
    assert(b.entries.dom().contains(id) && b.entries[id].contents.payload() == first.payload())
        by {
        match between {
            Some(other) => {
                lemma_observed_shift(a, other, 0);
                if !b.entries.dom().contains(id) {
                    assert(a.history.len() == HISTORY_LEN && id == a.history.last());
                    assert(a.history[0] == a.history[HISTORY_LEN - 1]);
                }
            },
            None => {},
        }
    }
    assert(holder(b.entries, second.payload()) == Some(id)) by {
        let found = choose|x: u32| #[trigger]
            b.entries.dom().contains(x) && b.entries[x].contents.payload() == second.payload();
        assert(found == id);
    }
    lemma_observed_shift(b, second, 0);
}

/// A payload that is seen, and seen again after the user had another
/// entry copied, gets the same id both times, whether or not the copy
/// could be written.
pub proof fn law_same_payload_same_id_after_copy(
    v: ManagerView,
    first: ContentsView,
    copied: u32,
    written: bool,
    second: ContentsView,
)
    requires
        v.wf(),
        !v.ignore,
        v.admits(Some(first)),
        first.payload() == second.payload(),
    ensures
        ({
            let a = v.after_check(Some(first));
            let b = a.after_copy(copied, written);
            let c = b.after_check(None).after_check(Some(second));
            &&& c.wf()
            &&& id_for(b.entries, b.next_id, second) == id_for(v.entries, v.next_id, first)
            &&& b.ignore ==> b.after_check(Some(second)).history == b.history
            &&& c.head_is(id_for(v.entries, v.next_id, first))
        }),
{
    let id = id_for(v.entries, v.next_id, first);
    let a = v.after_check(Some(first));
    lemma_observed_shift(v, first, 0);
    let b = a.after_copy(copied, written);
    lemma_after_copy_wf(a, copied, written);
    assert(b.entries.dom().contains(id) && b.entries[id] == a.entries[id]) by {
        if a.copy_acts(copied) && written {
            assert(a.history.contains(id));
            if a.history.contains(copied) {
            } else if a.history.len() < HISTORY_LEN {
            } else {
                assert(a.history[0] != a.history[HISTORY_LEN - 1]);
            }
        }
    }
    assert(holder(b.entries, second.payload()) == Some(id)) by {
        let found = choose|x: u32| #[trigger]
            b.entries.dom().contains(x) && b.entries[x].contents.payload() == second.payload();
        assert(found == id);
    }
    let quiet = b.after_check(None);
    lemma_after_check_wf(b, None);
    lemma_observed_shift(quiet, second, 0);
}

/// A payload that is stored keeps its id when it is seen again: the entry
/// becomes the head of the history, no id is drawn, and no other entry
/// carries the payload.
pub proof fn law_stored_payload_keeps_its_id(v: ManagerView, contents: ContentsView)
    requires
        v.wf(),
        !v.ignore,
        holder(v.entries, contents.payload()) is Some,
    ensures
        ({
            let w = v.after_check(Some(contents));
            let id = holder(v.entries, contents.payload())->0;
            &&& w.wf()
            &&& w.head_is(id)
            &&& w.next_id == v.next_id
            &&& w.entries[id] == v.entries[id]
            &&& holder(w.entries, contents.payload()) == Some(id)
            &&& forall|x: u32| #[trigger] w.entries.dom().contains(x) ==> v.entries.dom().contains(x)
        }),
{
    let w = v.after_check(Some(contents));
    let id = holder(v.entries, contents.payload())->0;
    lemma_observed_shift(v, contents, 0);
    assert(holder(w.entries, contents.payload()) == Some(id)) by {
        let found = choose|x: u32| #[trigger]
            w.entries.dom().contains(x) && w.entries[x].contents.payload() == contents.payload();
        assert(found == id);
    }
    assert forall|x: u32| #[trigger] w.entries.dom().contains(x) implies v.entries.dom().contains(
        x,
    ) by {
        if !v.entries.dom().contains(x) {
            assert(v.stored(contents).entries == v.entries);
        }
    }
}

/// A change signal keeps the manager well-formed, so that no two stored
/// entries carry the same payload afterwards, and it leaves the pinned
/// list as it was, whatever was seen.
pub proof fn law_signal_keeps_order(v: ManagerView, seen: Option<ContentsView>)
    requires
        v.wf(),
        v.admits(seen),
    ensures
        v.after_check(seen).wf(),
        v.after_check(seen).pinned == v.pinned,
        v.after_check(seen).history.len() <= HISTORY_LEN,
        forall|a: u32, b: u32|
            #[trigger] v.after_check(seen).entries.dom().contains(a)
                && #[trigger] v.after_check(seen).entries.dom().contains(b)
                && v.after_check(seen).entries[a].contents.payload()
                == v.after_check(seen).entries[b].contents.payload() ==> a == b,
{
    lemma_after_check_wf(v, seen);
}

/// A signal that answers the manager's own write is consumed: it clears
/// the wait and changes nothing else, whatever the clipboard holds, and the
/// signal after it is acted on.
pub proof fn law_pending_signal_is_consumed(v: ManagerView, seen: Option<ContentsView>)
    requires
        v.ignore,
    ensures
        v.admits(seen),
        v.after_check(seen) == (ManagerView { ignore: false, ..v }),
        forall|next: ContentsView|
            v.after_check(seen).after_check(Some(next)) == v.after_check(seen).observed(next),
{
}

/// A new payload that meets a full history pushes the oldest entry out:
/// the history names it no longer, the store keeps it exactly when it is
/// pinned, and every other entry is as it was.
pub proof fn law_oldest_leaves(v: ManagerView, contents: ContentsView)
    requires
        v.wf(),
        !v.ignore,
        v.history.len() == HISTORY_LEN,
        holder(v.entries, contents.payload()) is None,
        v.next_id < u32::MAX,
    ensures
        ({
            let w = v.after_check(Some(contents));
            let oldest = v.history.last();
            &&& w.wf()
            &&& w.history.len() == HISTORY_LEN
            &&& w.history[0] == v.next_id
            &&& !w.history.contains(oldest)
            &&& w.entries.dom().contains(oldest) == v.pinned.contains(oldest)
            &&& forall|x: u32|
                x != oldest && #[trigger] v.entries.dom().contains(x) ==> w.entries.dom().contains(
                    x,
                ) && w.entries[x] == v.entries[x]
        }),
{
    let w = v.after_check(Some(contents));
    let oldest = v.history.last();
    let id = v.next_id;
    lemma_observed_shift(v, contents, 0);
    lemma_stored(v, contents);
    lemma_drop_last(v.history);
    lemma_front(v.history.drop_last(), id);
    assert(v.history.contains(oldest));
    assert(oldest != id);
}

/// After one more change signal than the history has room for, each with a
/// payload of its own, the history is full and holds the later snapshots,
/// the last seen first. The one seen first is stored no longer, unless it
/// is pinned.
pub proof fn law_capacity_bound(v: ManagerView, seen: Seq<ContentsView>)
    requires
        v.wf(),
        !v.ignore,
        seen.len() == HISTORY_LEN + 1,
        distinct_payloads(seen),
        v.admits_all(seen),
    ensures
        ({
            let w = v.after_changes(seen);
            &&& w.wf()
            &&& w.history.len() == HISTORY_LEN
            &&& forall|m: int|
                0 <= m < HISTORY_LEN ==> w.entries[#[trigger] w.history[m]].contents.payload()
                    == seen[HISTORY_LEN - m].payload()
            &&& match holder(w.entries, seen[0].payload()) {
                Some(id) => w.pinned.contains(id) && !w.history.contains(id),
                None => true,
            }
        }),
{
    let w = v.after_changes(seen);
    lemma_recent(v, seen);
    assert(w.history.len() == HISTORY_LEN) by {
        assert(w.entries.dom().contains(w.history[HISTORY_LEN - 1]));
    }
    match holder(w.entries, seen[0].payload()) {
        Some(id) => {
            assert(w.entries.dom().contains(id) && w.entries[id].contents.payload()
                == seen[0].payload());
            if w.history.contains(id) {
                let m = choose|m: int| 0 <= m < w.history.len() && w.history[m] == id;
                assert(w.entries[w.history[m]].contents.payload() == seen[HISTORY_LEN
                    - m].payload());
                assert(seen[0].payload() != seen[HISTORY_LEN - m].payload());
            }
        },
        None => {},
    }
}

/// A pinned entry outlives its place in the history: after as many change
/// signals as the history has room for, each with a payload of its own and
/// none with the payload of the pinned entry, the entry is named by the
/// history no longer, and is still pinned and stored as it was.
pub proof fn law_pin_survives_eviction(v: ManagerView, id: u32, seen: Seq<ContentsView>)
    requires
        v.wf(),
        !v.ignore,
        v.entries.dom().contains(id),
        seen.len() == HISTORY_LEN,
        distinct_payloads(seen),
        forall|i: int| 0 <= i < seen.len() ==> seen[i].payload() != v.entries[id].contents.payload(),
        v.after_pin(id).admits_all(seen),
    ensures
        ({
            let w = v.after_pin(id).after_changes(seen);
            &&& w.wf()
            &&& w.pinned.contains(id)
            &&& w.entries.dom().contains(id)
            &&& w.entries[id].contents == v.entries[id].contents
            &&& w.entries[id].is_pinned
            &&& !w.history.contains(id)
        }),
{
    let p = v.after_pin(id);
    lemma_after_pin_wf(v, id);
    assert(p.pinned.contains(id)) by {
        if v.pin_acts(id) {
            lemma_front(v.pinned, id);
        }
    }
    assert(p.entries[id].contents == v.entries[id].contents);
    lemma_recent(p, seen);
    let w = p.after_changes(seen);
    if w.history.contains(id) {
        let m = choose|m: int| 0 <= m < w.history.len() && w.history[m] == id;
        assert(w.entries[w.history[m]].contents.payload() == seen[seen.len() - 1 - m].payload());
    }
}

/// A pinned entry stays pinned and stored, as it was, through any run of
/// change signals.
pub proof fn law_pinned_entries_stay(v: ManagerView, id: u32, seen: Seq<ContentsView>)
    requires
        v.wf(),
        v.pinned.contains(id),
        v.admits_all(seen),
    ensures
        v.after_changes(seen).wf(),
        v.after_changes(seen).pinned == v.pinned,
        v.after_changes(seen).entries.dom().contains(id),
        v.after_changes(seen).entries[id] == v.entries[id],
    decreases seen.len(),
{
    if seen.len() > 0 {
        let u = v.after_changes(seen.drop_last());
        law_pinned_entries_stay(v, id, seen.drop_last());
        lemma_after_check_wf(u, Some(seen.last()));
        if !u.ignore {
            lemma_observed_shift(u, seen.last(), 0);
            assert(u.entries.dom().contains(id));
        }
    }
}

/// The change signal that follows a copy is consumed: it leaves the
/// history, the pinned list and the store as the copy left them, whatever
/// the clipboard holds. This is stated of a copy that was written, and of
/// a manager that was waiting for its own signal already; without either,
/// the signal is an outside change and only one that shows nothing new
/// leaves the history alone.
pub proof fn law_own_change_is_consumed(
    v: ManagerView,
    id: u32,
    written: bool,
    seen: Option<ContentsView>,
)
    requires
        v.wf(),
        (v.copy_acts(id) && written) || v.ignore || seen is None || v.head_is(
            id_for(v.entries, v.next_id, seen->0),
        ),
    ensures
        ({
            let copied = v.after_copy(id, written);
            let w = copied.after_check(seen);
            &&& w.history == copied.history
            &&& w.pinned == copied.pinned
            &&& w.entries == copied.entries
            &&& !w.ignore
        }),
{
    let copied = v.after_copy(id, written);
    if !copied.ignore {
        if let Some(contents) = seen {
            let head = id_for(v.entries, v.next_id, contents);
            assert(v.history.contains(head));
            assert(v.entries.dom().contains(head));
            if holder(v.entries, contents.payload()) is None {
                assert(head == v.next_id);
            }
        }
    }
}

/// A copy whose write failed changes nothing: the history, the pinned
/// list and the store are as before, and the manager waits for no signal
/// that it did not wait for before.
pub proof fn law_failed_write_changes_nothing(v: ManagerView, id: u32)
    ensures
        v.after_copy(id, false) == v,
{
}

/// Copying the entry that is on the clipboard already changes nothing and
/// has nothing to write.
pub proof fn law_copy_of_current(v: ManagerView, id: u32, written: bool)
    requires
        v.head_is(id),
    ensures
        !v.copy_acts(id),
        v.after_copy(id, written) == v,
{
}

/// Unpinning an entry that the history does not name removes it from the
/// store. With a pin in front, which changes nothing where the entry is
/// pinned already or unknown, the store is without the id afterwards
/// whatever it was before.
pub proof fn law_unpin_collects(v: ManagerView, id: u32)
    requires
        v.wf(),
        !v.history.contains(id),
    ensures
        !v.after_unpin(id).entries.dom().contains(id),
        !v.after_pin(id).after_unpin(id).entries.dom().contains(id),
        v.after_pin(id).after_unpin(id).wf(),
{
    lemma_after_pin_wf(v, id);
    lemma_after_unpin_wf(v.after_pin(id), id);
}

} // verus!
