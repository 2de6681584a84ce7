//! What holds of a store over any run of operations on it.

use vstd::prelude::*;
use crate::database::DatabaseView;
use crate::database::PasswordView;

verus! {

/// One call on a store, with its arguments as the contracts see them.
pub enum Operation {
    /// `create_password` with this name and secret.
    Create { name: Seq<char>, content: Seq<char> },
    /// `update_password` with this name and replacement.
    Update { name: Seq<char>, record: PasswordView },
    /// `delete_password` with this id.
    Delete { id: nat },
}

/// The store after one operation.
pub open spec fn apply(db: DatabaseView, op: Operation) -> DatabaseView {
    match op {
        Operation::Create { name, content } => db.create(name, content),
        Operation::Update { name, record } => db.update(name, record),
        Operation::Delete { id } => db.delete(id),
    }
}

/// The store after the operations `ops`, carried out in their order.
pub open spec fn replay(db: DatabaseView, ops: Seq<Operation>) -> DatabaseView
    decreases ops.len(),
{
    if ops.len() == 0 {
        db
    } else {
        apply(replay(db, ops.drop_last()), ops.last())
    }
}

/// The ids that the creations among `ops` hand out, in their order.
pub open spec fn assigned_ids(db: DatabaseView, ops: Seq<Operation>) -> Seq<nat>
    decreases ops.len(),
{
    if ops.len() == 0 {
        Seq::empty()
    } else {
        let earlier = assigned_ids(db, ops.drop_last());
        match ops.last() {
            Operation::Create { .. } => earlier.push(replay(db, ops.drop_last()).id_counter),
            _ => earlier,
        }
    }
}

/// Whether every replacement among `ops` carries an id below `bound`.
pub open spec fn replacements_below(ops: Seq<Operation>, bound: nat) -> bool {
    forall|k: int|
        0 <= k < ops.len() ==> (#[trigger] ops[k] matches Operation::Update { record, .. }
            ==> record.id < bound)
}

/// Only a creation moves the counter, and it moves it up by one.
pub proof fn lemma_counter_after_apply(db: DatabaseView, op: Operation)
    ensures
        apply(db, op).id_counter == if op is Create {
            db.id_counter + 1
        } else {
            db.id_counter
        },
{
}

/// However creations, replacements and deletions follow one another, the ids
/// handed out grow strictly from one creation to the next. Each lies at or
/// above the counter that the run started from and below the counter that it
/// ends with, so none is handed out twice.
pub proof fn lemma_assigned_ids_increase(db: DatabaseView, ops: Seq<Operation>)
    ensures
        forall|i: int, j: int|
            0 <= i < j < assigned_ids(db, ops).len() ==> assigned_ids(db, ops)[i] < assigned_ids(
                db,
                ops,
            )[j],
        forall|i: int|
            0 <= i < assigned_ids(db, ops).len() ==> db.id_counter <= #[trigger] assigned_ids(
                db,
                ops,
            )[i] < replay(db, ops).id_counter,
        db.id_counter <= replay(db, ops).id_counter,
    decreases ops.len(),
{
    if ops.len() > 0 {
        let earlier = ops.drop_last();
        let ids = assigned_ids(db, ops);
        let earlier_ids = assigned_ids(db, earlier);
        lemma_assigned_ids_increase(db, earlier);
        lemma_counter_after_apply(replay(db, earlier), ops.last());
        assert forall|i: int, j: int| 0 <= i < j < ids.len() implies ids[i] < ids[j] by {
            if j < earlier_ids.len() {
                assert(ids[i] == earlier_ids[i]);
                assert(ids[j] == earlier_ids[j]);
            } else {
                assert(ids[i] == earlier_ids[i]);
            }
        }
        assert forall|i: int| 0 <= i < ids.len() implies db.id_counter <= #[trigger] ids[i] < replay(
            db,
            ops,
        ).id_counter by {
            if i < earlier_ids.len() {
                assert(ids[i] == earlier_ids[i]);
            }
        }
    }
}

/// A store whose records all carry ids below its counter stays so under
/// creations and deletions, and under replacements that carry such an id.
pub proof fn lemma_apply_keeps_ids_below_counter(db: DatabaseView, op: Operation)
    requires
        db.ids_below_counter(),
        op matches Operation::Update { record, .. } ==> record.id < db.id_counter,
    ensures
        apply(db, op).ids_below_counter(),
{
    let after = apply(db, op);
    match op {
        Operation::Create { name, content } => {
            assert forall|i: int| 0 <= i < after.records.len() implies (#[trigger] after.records[i]).id
                < after.id_counter by {
                if i < db.records.len() {
                    assert(after.records[i] == db.records[i]);
                }
            }
        },
        Operation::Update { name, record } => {
            match db.first_named(name) {
                Some(at) => {
                    assert forall|i: int| 0 <= i < after.records.len() implies (
                    #[trigger] after.records[i]).id < after.id_counter by {
                        if i != at {
                            assert(after.records[i] == db.records[i]);
                        }
                    }
                },
                None => {},
            }
        },
        Operation::Delete { id } => {
            match db.first_with_id(id) {
                Some(at) => {
                    assert forall|i: int| 0 <= i < after.records.len() implies (
                    #[trigger] after.records[i]).id < after.id_counter by {
                        if i < at {
                            assert(after.records[i] == db.records[i]);
                        } else {
                            assert(after.records[i] == db.records[i + 1]);
                        }
                    }
                },
                None => {},
            }
        },
    }
}

/// In a store whose records all carry ids below its counter, no id that a
/// run of operations hands out is carried by a record that was there
/// before, and the store is of that kind again after the run, provided that
/// each replacement carries an id below the counter that the run started
/// from.
pub proof fn lemma_assigned_ids_are_fresh(db: DatabaseView, ops: Seq<Operation>)
    requires
        db.ids_below_counter(),
        replacements_below(ops, db.id_counter),
    ensures
        forall|i: int|
            0 <= i < assigned_ids(db, ops).len() ==> !db.has_id(#[trigger] assigned_ids(db, ops)[i]),
        replay(db, ops).ids_below_counter(),
    decreases ops.len(),
{
    lemma_assigned_ids_increase(db, ops);
    if ops.len() > 0 {
        let earlier = ops.drop_last();
        assert(replacements_below(earlier, db.id_counter)) by {
            assert forall|k: int| 0 <= k < earlier.len() implies (#[trigger] earlier[k] matches Operation::Update {
                record,
                ..
            } ==> record.id < db.id_counter) by {
                assert(earlier[k] == ops[k]);
            }
        }
        lemma_assigned_ids_are_fresh(db, earlier);
        lemma_assigned_ids_increase(db, earlier);
        assert(ops.last() == ops[ops.len() - 1]);
        lemma_apply_keeps_ids_below_counter(replay(db, earlier), ops.last());
    }
}

/// Whether `ops` holds creations and deletions only.
pub open spec fn without_replacements(ops: Seq<Operation>) -> bool {
    forall|k: int| 0 <= k < ops.len() ==> !(#[trigger] ops[k] is Update)
}

/// A creation or a deletion leaves the ids distinct where they were distinct
/// and below the counter.
pub proof fn lemma_apply_keeps_ids_distinct(db: DatabaseView, op: Operation)
    requires
        db.ids_below_counter(),
        db.ids_distinct(),
        !(op is Update),
    ensures
        apply(db, op).ids_distinct(),
{
    let after = apply(db, op);
    match op {
        Operation::Create { name, content } => {
            assert forall|i: int, j: int| 0 <= i < j < after.records.len() implies (
            #[trigger] after.records[i]).id != (#[trigger] after.records[j]).id by {
                assert(after.records[i] == db.records[i]);
                if j < db.records.len() {
                    assert(after.records[j] == db.records[j]);
                }
            }
        },
        Operation::Update { .. } => {},
        Operation::Delete { id } => {
            match db.first_with_id(id) {
                Some(at) => {
                    assert forall|i: int, j: int| 0 <= i < j < after.records.len() implies (
                    #[trigger] after.records[i]).id != (#[trigger] after.records[j]).id by {
                        let from_i = if i < at {
                            i
                        } else {
                            i + 1
                        };
                        let from_j = if j < at {
                            j
                        } else {
                            j + 1
                        };
                        assert(after.records[i] == db.records[from_i]);
                        assert(after.records[j] == db.records[from_j]);
                    }
                },
                None => {},
            }
        },
    }
}

/// Starting from distinct ids below the counter, as in the empty store, no
/// run of creations and deletions ever leaves two records with the same id.
pub proof fn lemma_ids_stay_distinct(db: DatabaseView, ops: Seq<Operation>)
    requires
        db.ids_below_counter(),
        db.ids_distinct(),
        without_replacements(ops),
    ensures
        replay(db, ops).ids_distinct(),
        replay(db, ops).ids_below_counter(),
    decreases ops.len(),
{
    if ops.len() > 0 {
        let earlier = ops.drop_last();
        assert(without_replacements(earlier)) by {
            assert forall|k: int| 0 <= k < earlier.len() implies !(#[trigger] earlier[k] is Update) by {
                assert(earlier[k] == ops[k]);
            }
        }
        lemma_ids_stay_distinct(db, earlier);
        assert(ops.last() == ops[ops.len() - 1]);
        lemma_apply_keeps_ids_below_counter(replay(db, earlier), ops.last());
        lemma_apply_keeps_ids_distinct(replay(db, earlier), ops.last());
    }
}

} // verus!
