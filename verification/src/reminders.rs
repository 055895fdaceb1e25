//! Reminders attached to notes, and when they are due.
//!
//! Delivery is "at least once": a due reminder is handed out on every poll
//! until the front end confirms it, and only then is it marked as notified.

use vstd::prelude::*;

use crate::outside::{is_hyphenated_uuid, new_uuid_v4};
use crate::sort::{is_sorted_copy, stable_sort_by_key};
use crate::text::str_eq;
use crate::time::Timestamp;

verus! {

/// A reminder of a note at a given instant.
#[derive(Debug)]
pub struct Reminder {
    pub id: String,
    pub note_id: String,
    pub message: String,
    pub remind_at: Timestamp,
    pub notified: bool,
}

impl Reminder {
    /// A copy of this reminder, field for field.
    pub fn copied(&self) -> (r: Reminder)
        ensures
            r == *self,
    {
        Reminder {
            id: self.id.clone(),
            note_id: self.note_id.clone(),
            message: self.message.clone(),
            remind_at: self.remind_at,
            notified: self.notified,
        }
    }
}

/// Whether the reminder is due at `now`: not yet confirmed, and its instant
/// has come.
pub open spec fn is_due(r: Reminder, now: Timestamp) -> bool {
    !r.notified && r.remind_at.not_after(now)
}

/// Holds of a reminder whose id differs from `id`.
pub open spec fn other_id(id: Seq<char>) -> spec_fn(Reminder) -> bool {
    |r: Reminder| r.id@ != id
}

/// Holds of a reminder of another note than `note_id`.
pub open spec fn other_note(note_id: Seq<char>) -> spec_fn(Reminder) -> bool {
    |r: Reminder| r.note_id@ != note_id
}

/// Holds of a reminder due at `now`.
pub open spec fn due_at(now: Timestamp) -> spec_fn(Reminder) -> bool {
    |r: Reminder| is_due(r, now)
}

/// The reminders in `rs` whose id differs from `id`, in order.
pub open spec fn without_id(rs: Seq<Reminder>, id: Seq<char>) -> Seq<Reminder> {
    rs.filter(other_id(id))
}

/// The reminders in `rs` that belong to another note than `note_id`.
pub open spec fn without_note(rs: Seq<Reminder>, note_id: Seq<char>) -> Seq<Reminder> {
    rs.filter(other_note(note_id))
}

/// The reminders in `rs` that are due at `now`, in order.
pub open spec fn due(rs: Seq<Reminder>, now: Timestamp) -> Seq<Reminder> {
    rs.filter(due_at(now))
}

/// `rs` with every unconfirmed reminder whose id is `id` confirmed.
pub open spec fn marked(rs: Seq<Reminder>, id: Seq<char>) -> Seq<Reminder> {
    rs.map_values(
        |r: Reminder|
            if r.id@ == id && !r.notified {
                Reminder { notified: true, ..r }
            } else {
                r
            },
    )
}

/// The sort keys of reminders: their instants.
pub open spec fn reminder_keys(rs: Seq<Reminder>) -> Seq<(i64, i64)> {
    rs.map_values(|x: Reminder| x.remind_at.key())
}

/// The reminders in the order they are listed: by instant, earliest first,
/// equal instants in stored order.
pub fn list(reminders: Vec<Reminder>) -> (r: Vec<Reminder>)
    ensures
        is_sorted_copy(r@, reminders@, reminder_keys(reminders@), false),
{
    let mut keys: Vec<(i64, i64)> = Vec::new();
    let mut i: usize = 0;
    while i < reminders.len()
        invariant
            i <= reminders@.len(),
            keys@ == reminder_keys(reminders@.take(i as int)),
        decreases reminders@.len() - i,
    {
        keys.push(reminders[i].remind_at.sort_key());
        i = i + 1;
        assert(reminders@.take(i as int).map_values(|x: Reminder| x.remind_at.key())
            =~= reminders@.take(i - 1).map_values(|x: Reminder| x.remind_at.key()).push(
            reminders@[i - 1].remind_at.key(),
        ));
    }
    assert(reminders@.take(reminders@.len() as int) == reminders@);
    let (sorted, _perm) = stable_sort_by_key(reminders, keys, false);
    sorted
}

/// Records a new, unconfirmed reminder of `note_id` at `remind_at` with a
/// fresh random id, and returns it.
pub fn create(
    reminders: &mut Vec<Reminder>,
    note_id: String,
    message: String,
    remind_at: Timestamp,
) -> (r: Reminder)
    ensures
        final(reminders)@ == old(reminders)@.push(r),
        r.note_id@ == note_id@,
        r.message@ == message@,
        r.remind_at == remind_at,
        !r.notified,
        is_hyphenated_uuid(r.id@),
{
    let reminder = Reminder { id: new_uuid_v4(), note_id, message, remind_at, notified: false };
    let copy = reminder.copied();
    reminders.push(reminder);
    copy
}

/// Removes every reminder whose id is `id`; the others keep their order.
pub fn delete(reminders: &mut Vec<Reminder>, id: &str)
    ensures
        final(reminders)@ == without_id(old(reminders)@, id@),
{
    let ghost orig = reminders@;
    let ghost pred = other_id(id@);
    let mut rest: Vec<Reminder> = Vec::new();
    std::mem::swap(&mut rest, reminders);
    let n = rest.len();
    let mut i: usize = 0;
    while i < n
        invariant
            n == orig.len(),
            i <= n,
            rest@ == orig.skip(i as int),
            reminders@ == orig.take(i as int).filter(pred),
            pred == other_id(id@),
        decreases n - i,
    {
        let x = rest.remove(0);
        assert(orig.skip(i as int).drop_first() == orig.skip(i + 1));
        assert(orig.take(i + 1).drop_last() == orig.take(i as int));
        reveal_with_fuel(Seq::<_>::filter, 1);
        if !str_eq(x.id.as_str(), id) {
            reminders.push(x);
        }
        i = i + 1;
    }
    assert(orig.take(n as int) == orig);
}


/// Removes every reminder of the note `note_id`, so that the scheduler does
/// not keep delivering reminders whose note is gone. Returns whether any
/// was removed, that is whether the list needs saving.
pub fn delete_for_note(reminders: &mut Vec<Reminder>, note_id: &str) -> (changed: bool)
    ensures
        final(reminders)@ == without_note(old(reminders)@, note_id@),
        changed == (final(reminders)@.len() != old(reminders)@.len()),
{
    let ghost orig = reminders@;
    let ghost pred = other_note(note_id@);
    let mut rest: Vec<Reminder> = Vec::new();
    std::mem::swap(&mut rest, reminders);
    let n = rest.len();
    let mut i: usize = 0;
    while i < n
        invariant
            n == orig.len(),
            i <= n,
            rest@ == orig.skip(i as int),
            reminders@ == orig.take(i as int).filter(pred),
            pred == other_note(note_id@),
        decreases n - i,
    {
        let x = rest.remove(0);
        assert(orig.skip(i as int).drop_first() == orig.skip(i + 1));
        assert(orig.take(i + 1).drop_last() == orig.take(i as int));
        reveal_with_fuel(Seq::<_>::filter, 1);
        if !str_eq(x.note_id.as_str(), note_id) {
            reminders.push(x);
        }
        i = i + 1;
    }
    assert(orig.take(n as int) == orig);
    reminders.len() != n
}

/// The reminders due at `now`, in stored order: those not yet confirmed
/// whose instant is no later than `now`. Nothing is marked here; a due
/// reminder is handed out again on every poll until it is confirmed.
pub fn take_due(reminders: &Vec<Reminder>, now: Timestamp) -> (r: Vec<Reminder>)
    ensures
        r@ == due(reminders@, now),
{
    let ghost pred = due_at(now);
    let mut out: Vec<Reminder> = Vec::new();
    let mut i: usize = 0;
    while i < reminders.len()
        invariant
            i <= reminders@.len(),
            out@ == reminders@.take(i as int).filter(pred),
            pred == due_at(now),
        decreases reminders@.len() - i,
    {
        assert(reminders@.take(i + 1).drop_last() == reminders@.take(i as int));
        reveal_with_fuel(Seq::<_>::filter, 1);
        if !reminders[i].notified && reminders[i].remind_at.is_not_after(&now) {
            out.push(reminders[i].copied());
        }
        i = i + 1;
    }
    assert(reminders@.take(reminders@.len() as int) == reminders@);
    out
}

/// Confirms the delivery of the reminder `id`: every unconfirmed reminder
/// with that id becomes notified. Returns whether anything changed, that is
/// whether the list needs saving.
pub fn mark_notified(reminders: &mut Vec<Reminder>, id: &str) -> (changed: bool)
    ensures
        final(reminders)@ == marked(old(reminders)@, id@),
        changed == exists|i: int|
            0 <= i < old(reminders)@.len() && (#[trigger] old(reminders)@[i]).id@ == id@
                && !old(reminders)@[i].notified,
{
    let ghost orig = reminders@;
    let mut changed = false;
    let mut i: usize = 0;
    while i < reminders.len()
        invariant
            reminders@.len() == orig.len(),
            i <= orig.len(),
            forall|k: int| 0 <= k < i ==> #[trigger] reminders@[k] == marked(orig, id@)[k],
            forall|k: int| i <= k < orig.len() ==> #[trigger] reminders@[k] == orig[k],
            changed == exists|k: int|
                0 <= k < i && (#[trigger] orig[k]).id@ == id@ && !orig[k].notified,
        decreases orig.len() - i,
    {
        if !reminders[i].notified && str_eq(reminders[i].id.as_str(), id) {
            let mut r = reminders[i].copied();
            r.notified = true;
            reminders.set(i, r);
            changed = true;
        }
        i = i + 1;
    }
    assert(reminders@ == marked(orig, id@));
    changed
}

/// Whether the instant `t` is no later than `now`, by seconds and then
/// nanoseconds.
pub open spec fn reached(t: Timestamp, now: Timestamp) -> bool {
    t.secs < now.secs || (t.secs == now.secs && t.nanos <= now.nanos)
}

/// A poll at `now` (`take_due`) hands out a reminder only when it is
/// unconfirmed and its time has come, never one set for later; and it
/// hands out every unconfirmed reminder whose time has come.
pub proof fn lemma_due_reminders_have_come(rs: Seq<Reminder>, now: Timestamp)
    ensures
        forall|k: int|
            0 <= k < due(rs, now).len() ==> !(#[trigger] due(rs, now)[k]).notified && reached(
                due(rs, now)[k].remind_at,
                now,
            ),
        forall|i: int|
            0 <= i < rs.len() && !(#[trigger] rs[i]).notified && reached(rs[i].remind_at, now) ==> due(
                rs,
                now,
            ).contains(rs[i]),
{
    let pred = due_at(now);
    assert forall|k: int| 0 <= k < due(rs, now).len() implies !(#[trigger] due(rs, now)[k]).notified
        && reached(due(rs, now)[k].remind_at, now) by {
        rs.lemma_filter_pred(pred, k);
    }
    assert forall|i: int|
        0 <= i < rs.len() && !(#[trigger] rs[i]).notified && reached(rs[i].remind_at, now) implies due(
        rs,
        now,
    ).contains(rs[i]) by {
        rs.lemma_filter_contains(pred, i);
    }
}

/// Once the reminder `id` is confirmed, no poll hands it out again.
pub proof fn lemma_confirmed_reminder_is_not_due(rs: Seq<Reminder>, id: Seq<char>, now: Timestamp)
    ensures
        forall|k: int|
            0 <= k < due(marked(rs, id), now).len() ==> (#[trigger] due(marked(rs, id), now)[k]).id@
                != id,
{
    let m = marked(rs, id);
    let pred = due_at(now);
    assert forall|k: int| 0 <= k < due(m, now).len() implies (#[trigger] due(m, now)[k]).id@ != id by {
        m.lemma_filter_pred(pred, k);
        assert(m.filter(pred)[k] == due(m, now)[k]);
        let x = due(m, now)[k];
        assert(m.filter(pred).contains(x));
        m.lemma_filter_contains_rev(pred, x);
        let j = choose|j: int| 0 <= j < m.len() && m[j] == x;
        assert(m[j] == x);
    }
}

/// A deleted reminder does not come back in the list.
pub proof fn lemma_deleted_reminder_is_gone(rs: Seq<Reminder>, id: Seq<char>)
    ensures
        forall|k: int|
            0 <= k < without_id(rs, id).len() ==> (#[trigger] without_id(rs, id)[k]).id@ != id,
{
    let pred = other_id(id);
    assert forall|k: int| 0 <= k < without_id(rs, id).len() implies (#[trigger] without_id(
        rs,
        id,
    )[k]).id@ != id by {
        rs.lemma_filter_pred(pred, k);
    }
}

/// Deleting a note's reminders removes all of them and keeps every
/// reminder of any other note.
pub proof fn lemma_delete_for_note_keeps_others(rs: Seq<Reminder>, note_id: Seq<char>)
    ensures
        forall|k: int|
            0 <= k < without_note(rs, note_id).len() ==> (#[trigger] without_note(
                rs,
                note_id,
            )[k]).note_id@ != note_id,
        forall|i: int|
            0 <= i < rs.len() && (#[trigger] rs[i]).note_id@ != note_id ==> without_note(
                rs,
                note_id,
            ).contains(rs[i]),
{
    let pred = other_note(note_id);
    assert forall|k: int| 0 <= k < without_note(rs, note_id).len() implies (#[trigger] without_note(
        rs,
        note_id,
    )[k]).note_id@ != note_id by {
        rs.lemma_filter_pred(pred, k);
    }
    assert forall|i: int| 0 <= i < rs.len() && (#[trigger] rs[i]).note_id@ != note_id implies without_note(
        rs,
        note_id,
    ).contains(rs[i]) by {
        rs.lemma_filter_contains(pred, i);
    }
}

} // verus!
