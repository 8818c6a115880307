//! The entity store: rows with synchronization metadata, and the
//! change-capture rules that keep every local mutation observable.
//!
//! Each syncable entity lives in a table of [`Row`]s. A row carries its
//! process-local identifier, the identifier the remote authority assigned (if
//! any), a dirty flag, and timestamps. The operations here are the only ways
//! the library mutates a table: replace-by-identifier for pulled state,
//! acknowledgment for pushed state, capture-marked updates for local edits,
//! and deletion, which appends a tombstone exactly when the row was known to
//! the remote.

use vstd::prelude::*;
use crate::time::MAX_TIMESTAMP_MS;

verus! {

/// The syncable tables of the store.
#[derive(Clone, Copy, PartialEq, Eq, Structural, Debug)]
pub enum TableId {
    AcademicYears,
    Classes,
    Students,
    Subjects,
    Grades,
    Notes,
    Domains,
    Repechages,
}

/// A deletion pending propagation to the remote authority: which table, which
/// remote identifier, and when the row was deleted locally.
pub struct Tombstone {
    pub local_id: i64,
    pub table: TableId,
    pub server_id: String,
    pub deleted_at: i64,
}

/// A stored entity: the shared synchronization metadata plus the
/// entity-specific attributes in `data`.
pub struct Row<T> {
    pub local_id: i64,
    pub server_id: Option<String>,
    pub is_dirty: bool,
    pub updated_at: i64,
    pub last_modified_at: i64,
    pub data: T,
}

/// A timestamp the store accepts: non-negative and within formatting range.
pub open spec fn ts_ok(ms: i64) -> bool {
    0 <= ms <= MAX_TIMESTAMP_MS
}

/// No two rows share a local identifier.
pub open spec fn unique_ids<T>(rows: Seq<Row<T>>) -> bool {
    forall|i: int, j: int|
        0 <= i < j < rows.len() ==> #[trigger] rows[i].local_id != #[trigger] rows[j].local_id
}

/// Some row carries this local identifier.
pub open spec fn has_id<T>(rows: Seq<Row<T>>, id: i64) -> bool {
    exists|i: int| 0 <= i < rows.len() && #[trigger] rows[i].local_id == id
}

/// The index of the row with this identifier (unique when `unique_ids`).
pub open spec fn idx_of<T>(rows: Seq<Row<T>>, id: i64) -> int {
    choose|i: int| 0 <= i < rows.len() && #[trigger] rows[i].local_id == id
}

/// The row with this identifier.
pub open spec fn row_at<T>(rows: Seq<Row<T>>, id: i64) -> Row<T> {
    rows[idx_of(rows, id)]
}

/// Every timestamp in the table is acceptable.
pub open spec fn rows_ts_ok<T>(rows: Seq<Row<T>>) -> bool {
    forall|i: int|
        0 <= i < rows.len() ==> ts_ok(#[trigger] rows[i].updated_at) && ts_ok(
            rows[i].last_modified_at,
        )
}

/// Well-formedness of a table: identifiers unique, timestamps acceptable.
pub open spec fn wf_rows<T>(rows: Seq<Row<T>>) -> bool {
    unique_ids(rows) && rows_ts_ok(rows)
}

/// Pointwise reading of a table's timestamp well-formedness.
pub proof fn lemma_rows_ts_ok_at<T>(rows: Seq<Row<T>>, k: int)
    requires
        rows_ts_ok(rows),
        0 <= k < rows.len(),
    ensures
        ts_ok(rows[k].updated_at),
        ts_ok(rows[k].last_modified_at),
{
    assert(ts_ok(rows[k].updated_at) && ts_ok(rows[k].last_modified_at)) by {
        assert(0 <= k < rows.len());
    }
}

/// With unique identifiers, the row at any index is the row found by its own
/// identifier.
pub proof fn lemma_row_at_index<T>(rows: Seq<Row<T>>, k: int)
    requires
        unique_ids(rows),
        0 <= k < rows.len(),
    ensures
        has_id(rows, rows[k].local_id),
        idx_of(rows, rows[k].local_id) == k,
        row_at(rows, rows[k].local_id) == rows[k],
{
    assert(has_id(rows, rows[k].local_id));
    let i = idx_of(rows, rows[k].local_id);
    if i != k {
        if i < k {
            assert(rows[i].local_id != rows[k].local_id);
        } else {
            assert(rows[k].local_id != rows[i].local_id);
        }
    }
}

/// Finds the index of the row with the given identifier.
pub fn find_index<T>(rows: &Vec<Row<T>>, id: i64) -> (r: Option<usize>)
    ensures
        match r {
            Some(i) => i < rows@.len() && rows@[i as int].local_id == id && has_id(rows@, id),
            None => !has_id(rows@, id),
        },
{
    let mut i: usize = 0;
    while i < rows.len()
        invariant
            i <= rows@.len(),
            forall|j: int| 0 <= j < i ==> #[trigger] rows@[j].local_id != id,
        decreases rows@.len() - i,
    {
        if rows[i].local_id == id {
            return Some(i);
        }
        i = i + 1;
    }
    None
}

/// Replace-by-identifier: the shape of a table after one pulled row is
/// applied. An existing row with the same identifier is overwritten in place;
/// otherwise the row is appended.
pub open spec fn spec_apply_item<T>(rows: Seq<Row<T>>, item: Row<T>) -> Seq<Row<T>> {
    if has_id(rows, item.local_id) {
        rows.update(idx_of(rows, item.local_id), item)
    } else {
        rows.push(item)
    }
}

/// Applies one pulled row to the table (replace-by-identifier).
pub fn apply_item<T>(rows: &mut Vec<Row<T>>, item: Row<T>)
    requires
        unique_ids(old(rows)@),
    ensures
        final(rows)@ == spec_apply_item(old(rows)@, item),
        unique_ids(final(rows)@),
{
    proof {
        lemma_apply_item_shape(old(rows)@, item);
    }
    match find_index(rows, item.local_id) {
        Some(i) => {
            proof {
                lemma_row_at_index(rows@, i as int);
            }
            rows[i] = item;
        },
        None => {
            rows.push(item);
        },
    }
}

/// Replace-by-identifier preserves well-shaped tables: identifiers stay
/// unique, existing positions keep their identifiers, and the applied row is
/// afterwards the row found under its identifier.
pub proof fn lemma_apply_item_shape<T>(rows: Seq<Row<T>>, item: Row<T>)
    requires
        unique_ids(rows),
    ensures
        unique_ids(spec_apply_item(rows, item)),
        spec_apply_item(rows, item).len() == if has_id(rows, item.local_id) {
            rows.len()
        } else {
            rows.len() + 1
        },
        forall|k: int|
            0 <= k < rows.len() ==> #[trigger] spec_apply_item(rows, item)[k].local_id
                == rows[k].local_id,
        forall|id: i64|
            #[trigger] has_id(spec_apply_item(rows, item), id) <==> (has_id(rows, id) || id
                == item.local_id),
        row_at(spec_apply_item(rows, item), item.local_id) == item,
        forall|id: i64|
            id != item.local_id && #[trigger] has_id(rows, id) ==> row_at(
                spec_apply_item(rows, item),
                id,
            ) == row_at(rows, id),
{
    let out = spec_apply_item(rows, item);
    if has_id(rows, item.local_id) {
        let i = idx_of(rows, item.local_id);
        assert(0 <= i < rows.len() && rows[i].local_id == item.local_id);
        assert forall|k: int| 0 <= k < rows.len() implies #[trigger] out[k].local_id
            == rows[k].local_id by {
            if k != i {
                assert(out[k] == rows[k]);
            }
        }
        assert forall|id: i64| #[trigger] has_id(out, id) implies (has_id(rows, id) || id
            == item.local_id) by {
            let k = choose|k: int| 0 <= k < out.len() && #[trigger] out[k].local_id == id;
            assert(rows[k].local_id == out[k].local_id);
        }
        assert forall|id: i64| has_id(rows, id) implies #[trigger] has_id(out, id) by {
            let k = choose|k: int| 0 <= k < rows.len() && #[trigger] rows[k].local_id == id;
            assert(out[k].local_id == id);
        }
        assert(has_id(out, item.local_id)) by {
            assert(out[i].local_id == item.local_id);
        }
        assert(unique_ids(out));
        lemma_row_at_index(out, i);
        assert(row_at(out, item.local_id) == item);
        assert forall|id: i64|
            id != item.local_id && #[trigger] has_id(rows, id) implies row_at(out, id) == row_at(
            rows,
            id,
        ) by {
            let k = idx_of(rows, id);
            assert(0 <= k < rows.len() && rows[k].local_id == id);
            assert(k != i);
            assert(out[k] == rows[k]);
            lemma_row_at_index(out, k);
            lemma_row_at_index(rows, k);
        }
    } else {
        assert(out == rows.push(item));
        assert forall|k: int| 0 <= k < rows.len() implies #[trigger] out[k].local_id
            == rows[k].local_id by {}
        assert(unique_ids(out)) by {
            assert forall|i: int, j: int| 0 <= i < j < out.len() implies #[trigger] out[i].local_id
                != #[trigger] out[j].local_id by {
                if j == rows.len() {
                    assert(out[j] == item);
                    assert(!has_id(rows, item.local_id));
                    assert(out[i].local_id == rows[i].local_id);
                }
            }
        }
        assert(out[rows.len() as int] == item);
        lemma_row_at_index(out, rows.len() as int);
        assert forall|id: i64| #[trigger] has_id(out, id) implies (has_id(rows, id) || id
            == item.local_id) by {
            let k = choose|k: int| 0 <= k < out.len() && #[trigger] out[k].local_id == id;
            if k < rows.len() {
                assert(rows[k].local_id == id);
            }
        }
        assert forall|id: i64| has_id(rows, id) implies #[trigger] has_id(out, id) by {
            let k = choose|k: int| 0 <= k < rows.len() && #[trigger] rows[k].local_id == id;
            assert(out[k].local_id == id);
        }
        assert forall|id: i64|
            id != item.local_id && #[trigger] has_id(rows, id) implies row_at(out, id) == row_at(
            rows,
            id,
        ) by {
            let k = idx_of(rows, id);
            assert(0 <= k < rows.len() && rows[k].local_id == id);
            assert(out[k] == rows[k]);
            lemma_row_at_index(out, k);
            lemma_row_at_index(rows, k);
        }
    }
}

/// The shape of a table after a whole pulled payload is applied, row by row,
/// in payload order.
pub open spec fn spec_apply_list<T>(rows: Seq<Row<T>>, items: Seq<Row<T>>) -> Seq<Row<T>>
    decreases items.len(),
{
    if items.len() == 0 {
        rows
    } else {
        spec_apply_list(spec_apply_item(rows, items[0]), items.drop_first())
    }
}

/// The last row in a payload that carries the given identifier: the one whose
/// value survives after the payload is applied.
pub open spec fn last_write<T>(items: Seq<Row<T>>, id: i64) -> Row<T>
    decreases items.len(),
{
    if items.len() == 0 {
        arbitrary()
    } else if has_id(items.drop_first(), id) || items[0].local_id != id {
        last_write(items.drop_first(), id)
    } else {
        items[0]
    }
}

/// The last write for an identifier is one of the payload's own rows, and
/// carries that identifier.
pub proof fn lemma_last_write_is_item<T>(items: Seq<Row<T>>, id: i64)
    requires
        has_id(items, id),
    ensures
        exists|j: int|
            0 <= j < items.len() && last_write(items, id) == #[trigger] items[j]
                && items[j].local_id == id,
    decreases items.len(),
{
    let rest = items.drop_first();
    lemma_has_id_cons(items, id);
    if has_id(rest, id) {
        lemma_last_write_is_item(rest, id);
        let j = choose|j: int|
            0 <= j < rest.len() && last_write(rest, id) == #[trigger] rest[j] && rest[j].local_id
                == id;
        assert(items[j + 1] == rest[j]);
        assert(last_write(items, id) == items[j + 1]);
    } else {
        assert(items[0].local_id == id);
        assert(last_write(items, id) == items[0]);
    }
}

/// A freshly pulled row is never dirty: after a pull payload of clean rows
/// is applied, every row the payload named is clean.
pub proof fn lemma_pulled_rows_clean<T>(rows: Seq<Row<T>>, items: Seq<Row<T>>)
    requires
        unique_ids(rows),
        forall|j: int| 0 <= j < items.len() ==> !(#[trigger] items[j]).is_dirty,
    ensures
        forall|id: i64|
            #[trigger] has_id(items, id) ==> !row_at(spec_apply_list(rows, items), id).is_dirty,
{
    lemma_apply_list_props(rows, items);
    assert forall|id: i64| #[trigger] has_id(items, id) implies !row_at(
        spec_apply_list(rows, items),
        id,
    ).is_dirty by {
        lemma_last_write_is_item(items, id);
        let j = choose|j: int|
            0 <= j < items.len() && last_write(items, id) == #[trigger] items[j]
                && items[j].local_id == id;
        assert(!items[j].is_dirty);
    }
}

/// A non-empty payload holds an identifier iff its head carries it or its
/// tail holds it.
pub proof fn lemma_has_id_cons<T>(items: Seq<Row<T>>, id: i64)
    requires
        items.len() > 0,
    ensures
        has_id(items, id) <==> (items[0].local_id == id || has_id(items.drop_first(), id)),
{
    let rest = items.drop_first();
    if has_id(items, id) {
        let j = choose|j: int| 0 <= j < items.len() && #[trigger] items[j].local_id == id;
        if j > 0 {
            assert(rest[j - 1].local_id == id);
        }
    }
    if has_id(rest, id) {
        let j = choose|j: int| 0 <= j < rest.len() && #[trigger] rest[j].local_id == id;
        assert(items[j + 1].local_id == id);
    }
    if items[0].local_id == id {
        assert(has_id(items, id));
    }
}

/// What applying a payload does to a well-shaped table: identifiers stay
/// unique, existing positions keep their identifiers, every payload
/// identifier is afterwards present with its last written value, and rows the
/// payload does not name are untouched.
pub proof fn lemma_apply_list_props<T>(rows: Seq<Row<T>>, items: Seq<Row<T>>)
    requires
        unique_ids(rows),
    ensures
        unique_ids(spec_apply_list(rows, items)),
        spec_apply_list(rows, items).len() >= rows.len(),
        forall|k: int|
            0 <= k < rows.len() ==> #[trigger] spec_apply_list(rows, items)[k].local_id
                == rows[k].local_id,
        forall|id: i64|
            #[trigger] has_id(spec_apply_list(rows, items), id) <==> (has_id(rows, id) || has_id(
                items,
                id,
            )),
        forall|id: i64|
            #[trigger] has_id(items, id) ==> row_at(spec_apply_list(rows, items), id) == last_write(
                items,
                id,
            ),
        forall|id: i64|
            has_id(rows, id) && !#[trigger] has_id(items, id) ==> row_at(
                spec_apply_list(rows, items),
                id,
            ) == row_at(rows, id),
    decreases items.len(),
{
    let out = spec_apply_list(rows, items);
    if items.len() == 0 {
        assert forall|id: i64| #[trigger] has_id(items, id) implies false by {}
    } else {
        let x = items[0];
        let rest = items.drop_first();
        let r1 = spec_apply_item(rows, x);
        lemma_apply_item_shape(rows, x);
        lemma_apply_list_props(r1, rest);
        assert(out == spec_apply_list(r1, rest));
        assert forall|id: i64| #[trigger] has_id(items, id) implies has_id(out, id) && row_at(
            out,
            id,
        ) == last_write(items, id) by {
            lemma_has_id_cons(items, id);
            if has_id(rest, id) {
                assert(row_at(out, id) == last_write(rest, id));
            } else {
                assert(id == x.local_id);
                assert(has_id(r1, id));
                assert(row_at(out, id) == row_at(r1, id));
                assert(row_at(r1, id) == x);
            }
        }
        assert forall|id: i64| has_id(rows, id) && !#[trigger] has_id(items, id) implies row_at(
            out,
            id,
        ) == row_at(rows, id) by {
            lemma_has_id_cons(items, id);
            assert(id != x.local_id);
            assert(row_at(r1, id) == row_at(rows, id));
        }
        assert forall|id: i64| #[trigger] has_id(out, id) implies (has_id(rows, id) || has_id(
            items,
            id,
        )) by {
            lemma_has_id_cons(items, id);
        }
        assert forall|id: i64| has_id(rows, id) || has_id(items, id) implies #[trigger] has_id(
            out,
            id,
        ) by {
            lemma_has_id_cons(items, id);
        }
    }
}

/// Applying a payload whose identifiers are all already present changes no
/// length and no identifier position.
pub proof fn lemma_apply_list_ids_stable<T>(rows: Seq<Row<T>>, items: Seq<Row<T>>)
    requires
        unique_ids(rows),
        forall|j: int| 0 <= j < items.len() ==> has_id(rows, #[trigger] items[j].local_id),
    ensures
        spec_apply_list(rows, items).len() == rows.len(),
        forall|k: int|
            0 <= k < rows.len() ==> #[trigger] spec_apply_list(rows, items)[k].local_id
                == rows[k].local_id,
    decreases items.len(),
{
    if items.len() > 0 {
        let x = items[0];
        let rest = items.drop_first();
        let r1 = spec_apply_item(rows, x);
        lemma_apply_item_shape(rows, x);
        assert(has_id(rows, x.local_id)) by {
            assert(items[0].local_id == x.local_id);
        }
        assert(r1.len() == rows.len());
        assert forall|j: int| 0 <= j < rest.len() implies has_id(
            r1,
            #[trigger] rest[j].local_id,
        ) by {
            assert(items[j + 1].local_id == rest[j].local_id);
            assert(has_id(rows, rest[j].local_id));
        }
        lemma_apply_list_ids_stable(r1, rest);
    }
}

/// Replace-by-identifier is idempotent over whole payloads: applying the same
/// pulled payload twice leaves the table exactly as applying it once.
pub proof fn lemma_apply_list_idempotent<T>(rows: Seq<Row<T>>, items: Seq<Row<T>>)
    requires
        unique_ids(rows),
    ensures
        spec_apply_list(spec_apply_list(rows, items), items) == spec_apply_list(rows, items),
{
    let t = spec_apply_list(rows, items);
    let t2 = spec_apply_list(t, items);
    lemma_apply_list_props(rows, items);
    assert forall|j: int| 0 <= j < items.len() implies has_id(
        t,
        #[trigger] items[j].local_id,
    ) by {
        assert(has_id(items, items[j].local_id));
    }
    lemma_apply_list_ids_stable(t, items);
    lemma_apply_list_props(t, items);
    assert forall|k: int| 0 <= k < t.len() implies t2[k] == t[k] by {
        let id = t[k].local_id;
        lemma_row_at_index(t, k);
        assert(t2[k].local_id == id);
        lemma_row_at_index(t2, k);
        if has_id(items, id) {
            assert(row_at(t2, id) == last_write(items, id));
            assert(row_at(t, id) == last_write(items, id));
        } else {
            assert(row_at(t2, id) == row_at(t, id));
        }
    }
    assert(t2 =~= t);
}

/// A row after acknowledgment: clean, and carrying the acknowledged remote
/// identifier if it had none (a remote identifier, once set, never changes).
pub open spec fn acked_row<T>(r: Row<T>, sid: String) -> Row<T> {
    Row {
        is_dirty: false,
        server_id: if r.server_id is Some {
            r.server_id
        } else {
            Some(sid)
        },
        ..r
    }
}

/// The shape of a table after one push acknowledgment is recorded.
pub open spec fn spec_ack_item<T>(rows: Seq<Row<T>>, id: i64, sid: String) -> Seq<Row<T>> {
    if has_id(rows, id) {
        rows.update(idx_of(rows, id), acked_row(row_at(rows, id), sid))
    } else {
        rows
    }
}

/// Records one push acknowledgment: the named row becomes clean and, if it
/// had no remote identifier yet, adopts the acknowledged one. Rows the
/// acknowledgment does not name are untouched.
pub fn ack_item<T>(rows: &mut Vec<Row<T>>, local_id: i64, server_id: String)
    requires
        unique_ids(old(rows)@),
    ensures
        final(rows)@ == spec_ack_item(old(rows)@, local_id, server_id),
        unique_ids(final(rows)@),
{
    proof {
        lemma_ack_item_shape(old(rows)@, local_id, server_id);
    }
    match find_index(rows, local_id) {
        Some(i) => {
            proof {
                lemma_row_at_index(rows@, i as int);
            }
            let mut row = rows.remove(i);
            row.is_dirty = false;
            if row.server_id.is_none() {
                row.server_id = Some(server_id);
            }
            let ghost target = spec_ack_item(old(rows)@, local_id, server_id);
            rows.insert(i, row);
            proof {
                assert(rows@ =~= target);
            }
        },
        None => {},
    }
}

/// Acknowledgment preserves the table's shape: same length, same identifiers
/// at every position, uniqueness kept.
pub proof fn lemma_ack_item_shape<T>(rows: Seq<Row<T>>, id: i64, sid: String)
    requires
        unique_ids(rows),
    ensures
        spec_ack_item(rows, id, sid).len() == rows.len(),
        forall|k: int|
            0 <= k < rows.len() ==> #[trigger] spec_ack_item(rows, id, sid)[k].local_id
                == rows[k].local_id,
        forall|k: int|
            0 <= k < rows.len() && rows[k].local_id != id ==> #[trigger] spec_ack_item(
                rows,
                id,
                sid,
            )[k] == rows[k],
        forall|k: int|
            0 <= k < rows.len() && rows[k].local_id == id ==> #[trigger] spec_ack_item(
                rows,
                id,
                sid,
            )[k] == acked_row(rows[k], sid),
        unique_ids(spec_ack_item(rows, id, sid)),
{
    let out = spec_ack_item(rows, id, sid);
    if has_id(rows, id) {
        let i = idx_of(rows, id);
        assert(0 <= i < rows.len() && rows[i].local_id == id);
        assert forall|k: int| 0 <= k < rows.len() && rows[k].local_id == id implies #[trigger] out[k]
            == acked_row(rows[k], sid) by {
            lemma_row_at_index(rows, k);
        }
    }
}

/// The change-capture rewrite applied after an external update: a row whose
/// update left it clean is re-marked dirty with refreshed timestamps; a row
/// already dirty is left as the update wrote it (the capture's guard sees the
/// dirty target state and does not fire).
pub open spec fn captured_row<T>(r: Row<T>, now: i64) -> Row<T> {
    if !r.is_dirty {
        Row { is_dirty: true, updated_at: now, last_modified_at: now, ..r }
    } else {
        r
    }
}

/// The capture rewrite never re-triggers on its own output: once it has run,
/// running it again (at any later time) changes nothing.
pub proof fn lemma_capture_no_retrigger<T>(r: Row<T>, now: i64, later: i64)
    ensures
        captured_row(captured_row(r, now), later) == captured_row(r, now),
{
}

/// Replaces the entity attributes of a row through the change-capture layer:
/// the row keeps its identifiers, and leaves the update dirty whatever its
/// dirty flag was before. Returns whether the row existed.
pub fn update_row_data<T>(rows: &mut Vec<Row<T>>, local_id: i64, data: T, now: i64) -> (updated:
    bool)
    requires
        unique_ids(old(rows)@),
    ensures
        updated == has_id(old(rows)@, local_id),
        !updated ==> final(rows)@ == old(rows)@,
        updated ==> final(rows)@ == old(rows)@.update(
            idx_of(old(rows)@, local_id),
            captured_row(
                Row { data, ..row_at(old(rows)@, local_id) },
                now,
            ),
        ),
        unique_ids(final(rows)@),
{
    match find_index(rows, local_id) {
        Some(i) => {
            proof {
                lemma_row_at_index(rows@, i as int);
            }
            let mut row = rows.remove(i);
            row.data = data;
            if !row.is_dirty {
                row.is_dirty = true;
                row.updated_at = now;
                row.last_modified_at = now;
            }
            rows.insert(i, row);
            proof {
                let target = old(rows)@.update(
                    idx_of(old(rows)@, local_id),
                    captured_row(Row { data, ..row_at(old(rows)@, local_id) }, now),
                );
                assert(rows@ =~= target);
                assert forall|p: int, q: int|
                    0 <= p < q < rows@.len() implies #[trigger] rows@[p].local_id
                    != #[trigger] rows@[q].local_id by {
                    assert(old(rows)@[p].local_id != old(rows)@[q].local_id);
                }
            }
            true
        },
        None => false,
    }
}

/// Deletes a row. If the row carried a remote identifier, exactly one
/// tombstone for it is appended; if it carried none, no tombstone is
/// appended. Returns whether the row existed.
pub fn delete_row<T>(
    rows: &mut Vec<Row<T>>,
    tombstones: &mut Vec<Tombstone>,
    table: TableId,
    local_id: i64,
    tombstone_id: i64,
    now: i64,
) -> (removed: bool)
    requires
        unique_ids(old(rows)@),
    ensures
        removed == has_id(old(rows)@, local_id),
        !removed ==> final(rows)@ == old(rows)@ && final(tombstones)@ == old(tombstones)@,
        removed ==> final(rows)@ == old(rows)@.remove(idx_of(old(rows)@, local_id)),
        removed ==> match row_at(old(rows)@, local_id).server_id {
            Some(sid) => final(tombstones)@ == old(tombstones)@.push(
                Tombstone { local_id: tombstone_id, table, server_id: sid, deleted_at: now },
            ),
            None => final(tombstones)@ == old(tombstones)@,
        },
        unique_ids(final(rows)@),
{
    match find_index(rows, local_id) {
        Some(i) => {
            proof {
                lemma_row_at_index(rows@, i as int);
            }
            let row = rows.remove(i);
            match row.server_id {
                Some(sid) => {
                    tombstones.push(
                        Tombstone {
                            local_id: tombstone_id,
                            table,
                            server_id: sid,
                            deleted_at: now,
                        },
                    );
                },
                None => {},
            }
            proof {
                assert forall|p: int, q: int|
                    0 <= p < q < rows@.len() implies #[trigger] rows@[p].local_id
                    != #[trigger] rows@[q].local_id by {
                    let i_ = i as int;
                    let op = if p < i_ { p } else { p + 1 };
                    let oq = if q < i_ { q } else { q + 1 };
                    assert(rows@[p] == old(rows)@[op]);
                    assert(rows@[q] == old(rows)@[oq]);
                    assert(old(rows)@[op].local_id != old(rows)@[oq].local_id);
                }
            }
            true
        },
        None => false,
    }
}

/// The dirty rows of a table, in table order: the rows a push cycle collects.
pub open spec fn spec_dirty<T>(rows: Seq<Row<T>>) -> Seq<Row<T>>
    decreases rows.len(),
{
    if rows.len() == 0 {
        Seq::empty()
    } else {
        let p = spec_dirty(rows.drop_last());
        if rows.last().is_dirty {
            p.push(rows.last())
        } else {
            p
        }
    }
}

/// How many rows of the table are dirty.
pub open spec fn dirty_count<T>(rows: Seq<Row<T>>) -> nat {
    spec_dirty(rows).len()
}

/// Whether some dirty row was last modified more than a day before `now`.
pub open spec fn spec_overdue<T>(rows: Seq<Row<T>>, now: i64) -> bool {
    exists|i: int|
        0 <= i < rows.len() && #[trigger] rows[i].is_dirty && now - rows[i].last_modified_at
            > 86_400_000
}

/// Counts the dirty rows of a table.
pub fn count_dirty<T>(rows: &Vec<Row<T>>) -> (n: usize)
    ensures
        n == dirty_count(rows@),
{
    let mut n: usize = 0;
    let mut i: usize = 0;
    while i < rows.len()
        invariant
            i <= rows@.len(),
            n == dirty_count(rows@.take(i as int)),
            n <= i,
        decreases rows@.len() - i,
    {
        proof {
            assert(rows@.take(i + 1).drop_last() =~= rows@.take(i as int));
            assert(rows@.take(i + 1).last() == rows@[i as int]);
        }
        if rows[i].is_dirty {
            n = n + 1;
        }
        i = i + 1;
    }
    proof {
        assert(rows@.take(rows@.len() as int) =~= rows@);
    }
    n
}

/// Whether any dirty row of the table is more than a day old at `now`.
pub fn any_overdue<T>(rows: &Vec<Row<T>>, now: i64) -> (b: bool)
    requires
        ts_ok(now),
        rows_ts_ok(rows@),
    ensures
        b == spec_overdue(rows@, now),
{
    let mut i: usize = 0;
    while i < rows.len()
        invariant
            i <= rows@.len(),
            ts_ok(now),
            rows_ts_ok(rows@),
            !(exists|j: int|
                0 <= j < i && #[trigger] rows@[j].is_dirty && now - rows@[j].last_modified_at
                    > 86_400_000),
        decreases rows@.len() - i,
    {
        proof {
            assert(ts_ok(rows@[i as int].updated_at) && ts_ok(rows@[i as int].last_modified_at));
        }
        if rows[i].is_dirty && now - rows[i].last_modified_at > 86_400_000 {
            return true;
        }
        i = i + 1;
    }
    false
}

/// The rows that survive a flagged removal: those not flagged, in order.
pub open spec fn spec_keep_rows<T>(rows: Seq<Row<T>>, flags: Seq<bool>) -> Seq<Row<T>>
    decreases rows.len(),
{
    if rows.len() == 0 {
        Seq::empty()
    } else {
        let p = spec_keep_rows(rows.drop_last(), flags.drop_last());
        if flags.last() {
            p
        } else {
            p.push(rows.last())
        }
    }
}

/// The remote identifiers of the flagged rows that the remote knows, in
/// order: the deletions a flagged removal must leave tombstones for.
pub open spec fn spec_flag_sids<T>(rows: Seq<Row<T>>, flags: Seq<bool>) -> Seq<String>
    decreases rows.len(),
{
    if rows.len() == 0 {
        Seq::empty()
    } else {
        let p = spec_flag_sids(rows.drop_last(), flags.drop_last());
        if flags.last() {
            match rows.last().server_id {
                Some(sid) => p.push(sid),
                None => p,
            }
        } else {
            p
        }
    }
}

/// A flagged removal keeps only original rows, so a well-shaped table stays
/// well-shaped.
pub proof fn lemma_keep_rows_wf<T>(rows: Seq<Row<T>>, flags: Seq<bool>, n: i64)
    requires
        flags.len() == rows.len(),
        unique_ids(rows),
        rows_ts_ok(rows),
        crate::model::ids_below(rows, n),
    ensures
        unique_ids(spec_keep_rows(rows, flags)),
        rows_ts_ok(spec_keep_rows(rows, flags)),
        crate::model::ids_below(spec_keep_rows(rows, flags), n),
        spec_keep_rows(rows, flags).len() <= rows.len(),
        forall|k: int|
            0 <= k < spec_keep_rows(rows, flags).len() ==> exists|i: int|
                0 <= i < rows.len() && #[trigger] spec_keep_rows(rows, flags)[k] == rows[i],
    decreases rows.len(),
{
    if rows.len() > 0 {
        let rp = rows.drop_last();
        let fp = flags.drop_last();
        assert forall|i: int, j: int|
            0 <= i < j < rp.len() implies #[trigger] rp[i].local_id != #[trigger] rp[j].local_id by {
            assert(rp[i] == rows[i] && rp[j] == rows[j]);
            assert(rows[i].local_id != rows[j].local_id);
        }
        assert forall|i: int| 0 <= i < rp.len() implies ts_ok(#[trigger] rp[i].updated_at) && ts_ok(
            rp[i].last_modified_at,
        ) by {
            assert(rp[i] == rows[i]);
            lemma_rows_ts_ok_at(rows, i);
        }
        assert forall|i: int| 0 <= i < rp.len() implies #[trigger] rp[i].local_id < n by {
            assert(rp[i] == rows[i]);
            crate::model::lemma_ids_below_at(rows, n, i);
        }
        lemma_keep_rows_wf(rp, fp, n);
        let kp = spec_keep_rows(rp, fp);
        let out = spec_keep_rows(rows, flags);
        assert forall|k: int| 0 <= k < out.len() implies exists|i: int|
            0 <= i < rows.len() && #[trigger] out[k] == rows[i] by {
            if !flags.last() && k == out.len() - 1 {
                assert(out[k] == rows[rows.len() - 1]);
            } else {
                let i = choose|i: int| 0 <= i < rp.len() && #[trigger] kp[k] == rp[i];
                assert(out[k] == rows[i]);
            }
        }
        assert forall|p: int, q: int| 0 <= p < q < out.len() implies #[trigger] out[p].local_id
            != #[trigger] out[q].local_id by {
            if !flags.last() && q == out.len() - 1 {
                let i = choose|i: int| 0 <= i < rp.len() && #[trigger] kp[p] == rp[i];
                assert(out[p] == rows[i]);
                assert(out[q] == rows[rows.len() - 1]);
                assert(rows[i].local_id != rows[rows.len() - 1].local_id);
            } else {
                assert(out[p] == kp[p] && out[q] == kp[q]);
                assert(kp[p].local_id != kp[q].local_id);
            }
        }
        assert forall|k: int| 0 <= k < out.len() implies ts_ok(#[trigger] out[k].updated_at)
            && ts_ok(out[k].last_modified_at) && out[k].local_id < n by {
            if !flags.last() && k == out.len() - 1 {
                assert(out[k] == rows[rows.len() - 1]);
                lemma_rows_ts_ok_at(rows, rows.len() - 1);
                crate::model::lemma_ids_below_at(rows, n, rows.len() - 1);
            } else {
                assert(out[k] == kp[k]);
                lemma_rows_ts_ok_at(kp, k);
                crate::model::lemma_ids_below_at(kp, n, k);
            }
        }
    }
}

/// Removes every flagged row, appending exactly one tombstone for each
/// flagged row the remote knows (in table order) and none for the others.
/// Tombstone identifiers are drawn from the counter, so the log stays
/// well-formed.
pub fn remove_flagged<T>(
    rows: &mut Vec<Row<T>>,
    flags: &Vec<bool>,
    tombstones: &mut Vec<Tombstone>,
    table: TableId,
    counter: &mut i64,
    now: i64,
)
    requires
        flags@.len() == old(rows)@.len(),
        unique_ids(old(rows)@),
        rows_ts_ok(old(rows)@),
        crate::model::ids_below(old(rows)@, *old(counter)),
        crate::model::tombs_ok(old(tombstones)@, *old(counter)),
        0 < *old(counter),
        *old(counter) + old(rows)@.len() <= crate::model::MAX_LOCAL_ID + 1,
        ts_ok(now),
    ensures
        final(rows)@ == spec_keep_rows(old(rows)@, flags@),
        unique_ids(final(rows)@),
        rows_ts_ok(final(rows)@),
        crate::model::ids_below(final(rows)@, *final(counter)),
        crate::model::tombs_ok(final(tombstones)@, *final(counter)),
        *old(counter) <= *final(counter) <= *old(counter) + old(rows)@.len(),
        final(tombstones)@.len() == old(tombstones)@.len() + spec_flag_sids(
            old(rows)@,
            flags@,
        ).len(),
        final(tombstones)@.take(old(tombstones)@.len() as int) == old(tombstones)@,
        forall|k: int|
            0 <= k < spec_flag_sids(old(rows)@, flags@).len() ==> {
                let t = #[trigger] final(tombstones)@[old(tombstones)@.len() + k];
                &&& t.table == table
                &&& t.server_id == spec_flag_sids(old(rows)@, flags@)[k]
                &&& t.deleted_at == now
            },
{
    let ghost orig = rows@;
    let ghost orig_tombs = tombstones@;
    let ghost base = tombstones@.len() as int;
    let ghost counter0 = *counter;
    let mut i: usize = 0;
    let mut j: usize = 0;
    while i < flags.len()
        invariant
            i <= orig.len(),
            j <= i,
            base == orig_tombs.len(),
            flags@.len() == orig.len(),
            ts_ok(now),
            counter0 <= *counter <= counter0 + i,
            counter0 + orig.len() <= crate::model::MAX_LOCAL_ID + 1,
            j == spec_keep_rows(orig.take(i as int), flags@.take(i as int)).len(),
            rows@ == spec_keep_rows(orig.take(i as int), flags@.take(i as int)) + orig.skip(
                i as int,
            ),
            crate::model::tombs_ok(tombstones@, *counter),
            tombstones@.len() == base + spec_flag_sids(
                orig.take(i as int),
                flags@.take(i as int),
            ).len(),
            tombstones@.take(base) == orig_tombs,
            forall|k: int|
                0 <= k < spec_flag_sids(orig.take(i as int), flags@.take(i as int)).len() ==> {
                    let t = #[trigger] tombstones@[base + k];
                    &&& t.table == table
                    &&& t.server_id == spec_flag_sids(
                        orig.take(i as int),
                        flags@.take(i as int),
                    )[k]
                    &&& t.deleted_at == now
                },
        decreases orig.len() - i,
    {
        proof {
            assert(orig.take(i + 1).drop_last() =~= orig.take(i as int));
            assert(flags@.take(i + 1).drop_last() =~= flags@.take(i as int));
            assert(orig.take(i + 1).last() == orig[i as int]);
            assert(flags@.take(i + 1).last() == flags@[i as int]);
            assert(orig.skip(i as int)[0] == orig[i as int]);
            assert(rows@[j as int] == orig[i as int]);
        }
        if flags[i] {
            let row = rows.remove(j);
            proof {
                assert(rows@ =~= spec_keep_rows(orig.take(i + 1), flags@.take(i + 1)) + orig.skip(
                    i + 1,
                ));
            }
            let ghost prev_tombs = tombstones@;
            match row.server_id {
                Some(sid) => {
                    tombstones.push(
                        Tombstone { local_id: *counter, table, server_id: sid, deleted_at: now },
                    );
                    *counter = *counter + 1;
                    proof {
                        assert(tombstones@.take(base) =~= prev_tombs.take(base));
                        assert forall|p: int, q: int|
                            0 <= p < q < tombstones@.len() implies #[trigger] tombstones@[p].local_id
                            != #[trigger] tombstones@[q].local_id by {
                            if q == tombstones@.len() - 1 {
                                assert(prev_tombs[p].local_id < *counter - 1);
                            } else {
                                assert(tombstones@[p] == prev_tombs[p]);
                                assert(tombstones@[q] == prev_tombs[q]);
                            }
                        }
                        assert forall|p: int|
                            0 <= p < tombstones@.len() implies #[trigger] tombstones@[p].local_id
                            < *counter by {
                            if p < tombstones@.len() - 1 {
                                assert(tombstones@[p] == prev_tombs[p]);
                                assert(prev_tombs[p].local_id < *counter - 1);
                            }
                        }
                    }
                },
                None => {},
            }
        } else {
            j = j + 1;
            proof {
                assert(rows@ =~= spec_keep_rows(orig.take(i + 1), flags@.take(i + 1)) + orig.skip(
                    i + 1,
                ));
            }
        }
        i = i + 1;
    }
    proof {
        assert(orig.take(orig.len() as int) =~= orig);
        assert(flags@.take(flags@.len() as int) =~= flags@);
        assert(orig.skip(orig.len() as int).len() == 0);
        assert(rows@ =~= spec_keep_rows(orig, flags@));
        lemma_keep_rows_wf(orig, flags@, counter0);
        assert forall|k: int| 0 <= k < rows@.len() implies #[trigger] rows@[k].local_id
            < *counter by {
            crate::model::lemma_ids_below_at(spec_keep_rows(orig, flags@), counter0, k);
        }
    }
}

} // verus!
