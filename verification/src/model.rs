//! A ghost model of ticket storage, and the laws of reconciliation.
//!
//! The planning functions in [`crate::reconcile`] say which
//! operations one save issues; this module says what those operations
//! do to a board's rows when storage executes them: the deletion pass
//! soft-deletes every live row whose identifier the snapshot dropped
//! ([`lemma_deletion_plan_executes_mark`] shows that executing the
//! planned identifiers one by one comes to the same), a create
//! appends a live row under a fresh identifier, an update overwrites
//! category and content of the rows bearing its identifier and is a
//! recorded no-op when no row does.  On top of that model stand the
//! reconciliation laws, idempotence above all.

use vstd::prelude::*;
use crate::entities::ticket::TicketView;
use crate::payload::ListView;
use crate::reconcile::{
    lemma_deletion_plan_members, spec_deletion_plan, spec_received_ids, spec_upsert_ops,
    TicketOpView,
};

verus! {

/// One persisted ticket row of the board, as the laws need it: its
/// identifier, the two fields an update overwrites, and the
/// soft-delete flag.
pub ghost struct Row {
    pub id: int,
    pub category: Seq<char>,
    pub content: Seq<char>,
    pub deleted: bool,
}

/// What a row looks like to a client: category and content.
pub open spec fn contents_of(rows: Seq<Row>) -> Seq<(Seq<char>, Seq<char>)> {
    rows.map_values(|r: Row| (r.category, r.content))
}

/// The rows not soft-deleted, in storage order.
pub open spec fn live(rows: Seq<Row>) -> Seq<Row>
    decreases rows.len(),
{
    if rows.len() == 0 {
        Seq::empty()
    } else {
        let rest = live(rows.drop_last());
        if !rows.last().deleted {
            rest.push(rows.last())
        } else {
            rest
        }
    }
}

/// Does any row bear this identifier?
pub open spec fn has_id(rows: Seq<Row>, id: int) -> bool {
    exists|i: int| 0 <= i < rows.len() && (#[trigger] rows[i]).id == id
}

/// The deletion pass: soft-delete every live row whose identifier the
/// snapshot does not carry.
pub open spec fn mark_deleted(rows: Seq<Row>, received: Set<int>) -> Seq<Row> {
    rows.map_values(
        |r: Row| if !r.deleted && !received.contains(r.id) {
            Row { deleted: true, ..r }
        } else {
            r
        },
    )
}

/// One update: overwrite category and content of the rows bearing the
/// identifier, leaving their soft-delete flag alone.  When no row
/// bears it, nothing changes — the storage call fails and is recorded
/// as a partial failure.
pub open spec fn overwrite(rows: Seq<Row>, id: int, category: Seq<char>, content: Seq<char>) -> Seq<
    Row,
> {
    rows.map_values(
        |r: Row| if r.id == id {
            Row { id: r.id, category, content, deleted: r.deleted }
        } else {
            r
        },
    )
}

/// Execute the planned operations in order: creates append live rows
/// under the next fresh identifier; updates overwrite in place; an
/// update without an identifier is a recorded no-op.
pub open spec fn apply_ops(rows: Seq<Row>, ops: Seq<TicketOpView>, fresh: Seq<int>) -> Seq<Row>
    decreases ops.len(),
{
    if ops.len() == 0 {
        rows
    } else {
        match ops[0] {
            TicketOpView::Create(c) => apply_ops(
                rows.push(
                    Row { id: fresh[0], category: c.category, content: c.content, deleted: false },
                ),
                ops.drop_first(),
                fresh.drop_first(),
            ),
            TicketOpView::Update(c) => match c.id {
                Some(u) => apply_ops(overwrite(rows, u, c.category, c.content), ops.drop_first(), fresh),
                None => apply_ops(rows, ops.drop_first(), fresh),
            },
        }
    }
}

/// One full reconciliation of a snapshot against the board's rows:
/// the deletion pass, then the planned upserts, creates drawing their
/// identifiers from `fresh`.
pub open spec fn spec_reconcile(
    rows: Seq<Row>,
    lists: Seq<ListView>,
    board_id: int,
    author_id: int,
    fresh: Seq<int>,
) -> Seq<Row> {
    apply_ops(
        mark_deleted(rows, spec_received_ids(lists)),
        spec_upsert_ops(lists, board_id, author_id),
        fresh,
    )
}

/// How many creates the operations hold.
pub open spec fn count_creates(ops: Seq<TicketOpView>) -> int
    decreases ops.len(),
{
    if ops.len() == 0 {
        0
    } else {
        (match ops[0] {
            TicketOpView::Create(_) => 1int,
            TicketOpView::Update(_) => 0int,
        }) + count_creates(ops.drop_first())
    }
}

/// The identifiers the updates among the operations target.
pub open spec fn update_ids(ops: Seq<TicketOpView>) -> Set<int>
    decreases ops.len(),
{
    if ops.len() == 0 {
        Set::empty()
    } else {
        let rest = update_ids(ops.drop_first());
        match ops[0] {
            TicketOpView::Update(c) => match c.id {
                Some(u) => rest.insert(u),
                None => rest,
            },
            TicketOpView::Create(_) => rest,
        }
    }
}

/// The category and content the last update targeting this identifier
/// carries, if any update does.
pub open spec fn last_update(ops: Seq<TicketOpView>, id: int) -> Option<(Seq<char>, Seq<char>)>
    decreases ops.len(),
{
    if ops.len() == 0 {
        None
    } else {
        let rest = last_update(ops.drop_first(), id);
        if rest is Some {
            rest
        } else {
            match ops[0] {
                TicketOpView::Update(c) => if c.id == Some(id) {
                    Some((c.category, c.content))
                } else {
                    None
                },
                TicketOpView::Create(_) => None,
            }
        }
    }
}

/// One row after every update of the operations has run over it.
pub open spec fn updated_row(ops: Seq<TicketOpView>, r: Row) -> Row {
    match last_update(ops, r.id) {
        Some(cc) => Row { id: r.id, category: cc.0, content: cc.1, deleted: r.deleted },
        None => r,
    }
}

/// The rows after every update of the operations has run over them.
pub open spec fn updated_all(rows: Seq<Row>, ops: Seq<TicketOpView>) -> Seq<Row> {
    rows.map_values(|r: Row| updated_row(ops, r))
}

/// The rows the creates among the operations append, in order,
/// drawing identifiers from `fresh`.
pub open spec fn created_rows(ops: Seq<TicketOpView>, fresh: Seq<int>) -> Seq<Row>
    decreases ops.len(),
{
    if ops.len() == 0 {
        Seq::empty()
    } else {
        match ops[0] {
            TicketOpView::Create(c) => seq![
                Row { id: fresh[0], category: c.category, content: c.content, deleted: false },
            ] + created_rows(ops.drop_first(), fresh.drop_first()),
            TicketOpView::Update(_) => created_rows(ops.drop_first(), fresh),
        }
    }
}

proof fn lemma_count_creates_nonneg(ops: Seq<TicketOpView>)
    ensures
        count_creates(ops) >= 0,
    decreases ops.len(),
{
    if ops.len() > 0 {
        lemma_count_creates_nonneg(ops.drop_first());
    }
}

proof fn lemma_update_ids_rest(ops: Seq<TicketOpView>, id: int)
    requires
        ops.len() > 0,
        update_ids(ops.drop_first()).contains(id),
    ensures
        update_ids(ops).contains(id),
{
}

proof fn lemma_last_update_none(ops: Seq<TicketOpView>, id: int)
    requires
        !update_ids(ops).contains(id),
    ensures
        last_update(ops, id) is None,
    decreases ops.len(),
{
    if ops.len() > 0 {
        if update_ids(ops.drop_first()).contains(id) {
            lemma_update_ids_rest(ops, id);
        }
        lemma_last_update_none(ops.drop_first(), id);
    }
}

/// What executing the operations leaves behind, when the fresh
/// identifiers collide with nothing: the old rows with every update
/// applied, then the created rows.
proof fn lemma_apply_ops_decomposes(rows: Seq<Row>, ops: Seq<TicketOpView>, fresh: Seq<int>)
    requires
        count_creates(ops) <= fresh.len(),
        forall|k1: int, k2: int|
            0 <= k1 < k2 < fresh.len() ==> #[trigger] fresh[k1] != #[trigger] fresh[k2],
        forall|k: int| 0 <= k < fresh.len() ==> !has_id(rows, #[trigger] fresh[k]),
        forall|k: int| 0 <= k < fresh.len() ==> !update_ids(ops).contains(#[trigger] fresh[k]),
    ensures
        apply_ops(rows, ops, fresh) == updated_all(rows, ops) + created_rows(ops, fresh),
    decreases ops.len(),
{
    if ops.len() == 0 {
        assert(updated_all(rows, ops) =~= rows);
        assert(apply_ops(rows, ops, fresh) =~= updated_all(rows, ops) + created_rows(ops, fresh));
    } else {
        let rest = ops.drop_first();
        assert forall|id: int| update_ids(rest).contains(id) implies update_ids(ops).contains(
            id,
        ) by {
            lemma_update_ids_rest(ops, id);
        }
        match ops[0] {
            TicketOpView::Create(c) => {
                let new = Row { id: fresh[0], category: c.category, content: c.content, deleted: false };
                let rows2 = rows.push(new);
                let fresh2 = fresh.drop_first();
                assert(count_creates(rest) <= fresh2.len());
                lemma_count_creates_nonneg(rest);
                assert(fresh.len() >= 1);
                assert(fresh2.len() == fresh.len() - 1);
                assert forall|k: int| 0 <= k < fresh2.len() implies !has_id(
                    rows2,
                    #[trigger] fresh2[k],
                ) by {
                    assert(fresh2[k] == fresh[k + 1]);
                    assert(fresh[k + 1] != fresh[0]);
                    if has_id(rows2, fresh2[k]) {
                        let i = choose|i: int| 0 <= i < rows2.len() && rows2[i].id == fresh2[k];
                        if i < rows.len() {
                            assert(rows[i].id == fresh2[k]);
                            assert(has_id(rows, fresh[k + 1]));
                        }
                    }
                }
                lemma_apply_ops_decomposes(rows2, rest, fresh2);
                // the appended row is untouched by the remaining updates
                lemma_last_update_none(rest, new.id);
                assert(updated_row(rest, new) == new);
                assert(updated_all(rows2, rest) =~= updated_all(rows, rest).push(new));
                // the head create changes no row's last update
                assert(updated_all(rows, rest) =~= updated_all(rows, ops)) by {
                    assert forall|i: int| 0 <= i < rows.len() implies updated_row(rest, rows[i])
                        == updated_row(ops, rows[i]) by {
                        assert(last_update(ops, rows[i].id) == last_update(rest, rows[i].id));
                    }
                }
                assert(apply_ops(rows, ops, fresh) == updated_all(rows, rest).push(new)
                    + created_rows(rest, fresh2));
                assert(updated_all(rows, ops).push(new) + created_rows(rest, fresh2)
                    =~= updated_all(rows, ops) + created_rows(ops, fresh));
            },
            TicketOpView::Update(c) => {
                match c.id {
                    Some(u) => {
                        let rows2 = overwrite(rows, u, c.category, c.content);
                        assert forall|k: int| 0 <= k < fresh.len() implies !has_id(
                            rows2,
                            #[trigger] fresh[k],
                        ) by {
                            if has_id(rows2, fresh[k]) {
                                let i = choose|i: int|
                                    0 <= i < rows2.len() && rows2[i].id == fresh[k];
                                assert(rows2[i].id == rows[i].id);
                                assert(has_id(rows, fresh[k]));
                            }
                        }
                        lemma_apply_ops_decomposes(rows2, rest, fresh);
                        assert(updated_all(rows2, rest) =~= updated_all(rows, ops)) by {
                            assert forall|i: int| 0 <= i < rows.len() implies updated_row(
                                rest,
                                rows2[i],
                            ) == updated_row(ops, rows[i]) by {
                                if rows[i].id == u {
                                    if last_update(rest, u) is Some {
                                    } else {
                                        assert(last_update(ops, u) == Some(
                                            (c.category, c.content),
                                        ));
                                    }
                                } else {
                                    assert(rows2[i] == rows[i]);
                                    assert(last_update(ops, rows[i].id) == last_update(
                                        rest,
                                        rows[i].id,
                                    ));
                                }
                            }
                        }
                    },
                    None => {
                        lemma_apply_ops_decomposes(rows, rest, fresh);
                        assert(updated_all(rows, rest) =~= updated_all(rows, ops)) by {
                            assert forall|i: int| 0 <= i < rows.len() implies updated_row(
                                rest,
                                rows[i],
                            ) == updated_row(ops, rows[i]) by {
                                assert(last_update(ops, rows[i].id) == last_update(
                                    rest,
                                    rows[i].id,
                                ));
                            }
                        }
                    },
                }
            },
        }
    }
}

/// Soft-delete the rows bearing one identifier: one storage call of
/// the deletion pass.
pub open spec fn delete_one(rows: Seq<Row>, id: int) -> Seq<Row> {
    rows.map_values(
        |r: Row| if r.id == id {
            Row { deleted: true, ..r }
        } else {
            r
        },
    )
}

/// Execute a deletion plan: soft-delete the planned identifiers one
/// by one, in order.
pub open spec fn delete_by_ids(rows: Seq<Row>, ids: Seq<int>) -> Seq<Row>
    decreases ids.len(),
{
    if ids.len() == 0 {
        rows
    } else {
        delete_by_ids(delete_one(rows, ids[0]), ids.drop_first())
    }
}

proof fn lemma_delete_by_ids_len(rows: Seq<Row>, ids: Seq<int>)
    ensures
        delete_by_ids(rows, ids).len() == rows.len(),
    decreases ids.len(),
{
    if ids.len() > 0 {
        lemma_delete_by_ids_len(delete_one(rows, ids[0]), ids.drop_first());
    }
}

proof fn lemma_delete_by_ids_pointwise(rows: Seq<Row>, ids: Seq<int>, i: int)
    requires
        0 <= i < rows.len(),
    ensures
        delete_by_ids(rows, ids).len() == rows.len(),
        delete_by_ids(rows, ids)[i] == (if ids.contains(rows[i].id) {
            Row { deleted: true, ..rows[i] }
        } else {
            rows[i]
        }),
    decreases ids.len(),
{
    if ids.len() > 0 {
        let rows2 = delete_one(rows, ids[0]);
        lemma_delete_by_ids_pointwise(rows2, ids.drop_first(), i);
        assert(rows2[i].id == rows[i].id);
        if ids.contains(rows[i].id) {
            let j = choose|j: int| 0 <= j < ids.len() && ids[j] == rows[i].id;
            if j > 0 {
                assert(ids.drop_first()[j - 1] == rows[i].id);
                assert(ids.drop_first().contains(rows[i].id));
            }
        }
        if ids.drop_first().contains(rows[i].id) {
            let j = choose|j: int|
                0 <= j < ids.drop_first().len() && ids.drop_first()[j] == rows[i].id;
            assert(ids[j + 1] == rows[i].id);
            assert(ids.contains(rows[i].id));
        }
    }
}

proof fn lemma_live_members(rows: Seq<Row>)
    ensures
        forall|j: int|
            0 <= j < live(rows).len() ==> !(#[trigger] live(rows)[j]).deleted && exists|i: int|
                0 <= i < rows.len() && rows[i] == live(rows)[j],
        forall|i: int|
            0 <= i < rows.len() && !(#[trigger] rows[i]).deleted ==> exists|j: int|
                0 <= j < live(rows).len() && live(rows)[j] == rows[i],
    decreases rows.len(),
{
    if rows.len() > 0 {
        let prefix = rows.drop_last();
        lemma_live_members(prefix);
        assert forall|j: int|
            0 <= j < live(rows).len() implies !(#[trigger] live(rows)[j]).deleted && exists|i: int|
                0 <= i < rows.len() && rows[i] == live(rows)[j] by {
            if j < live(prefix).len() {
                assert(live(rows)[j] == live(prefix)[j]);
                let i = choose|i: int| 0 <= i < prefix.len() && prefix[i] == live(prefix)[j];
                assert(rows[i] == live(rows)[j]);
            } else {
                assert(live(rows)[j] == rows.last());
                assert(rows[rows.len() - 1] == live(rows)[j]);
            }
        }
        assert forall|i: int|
            0 <= i < rows.len() && !(#[trigger] rows[i]).deleted implies exists|j: int|
                0 <= j < live(rows).len() && live(rows)[j] == rows[i] by {
            if i < rows.len() - 1 {
                assert(prefix[i] == rows[i]);
                let j = choose|j: int| 0 <= j < live(prefix).len() && live(prefix)[j] == prefix[i];
                assert(live(rows)[j] == rows[i]);
            } else {
                assert(live(rows)[live(rows).len() - 1] == rows[i]);
            }
        }
    }
}

/// Executing the deletion plan the engine computes from the board's
/// live rows does to storage exactly what the model's deletion pass
/// says: every live row whose identifier the snapshot dropped is
/// soft-deleted, and nothing else changes.
pub proof fn lemma_deletion_plan_executes_mark(
    rows: Seq<Row>,
    existing: Seq<TicketView>,
    received: Set<int>,
)
    requires
        existing.len() == live(rows).len(),
        forall|i: int|
            0 <= i < existing.len() ==> (#[trigger] existing[i]).id == Some(live(rows)[i].id),
    ensures
        delete_by_ids(rows, spec_deletion_plan(existing, received)) == mark_deleted(
            rows,
            received,
        ),
{
    let ids = spec_deletion_plan(existing, received);
    lemma_live_members(rows);
    assert forall|x: int|
        ids.contains(x) <==> (!received.contains(x) && exists|i: int|
            0 <= i < rows.len() && !(#[trigger] rows[i]).deleted && rows[i].id == x) by {
        lemma_deletion_plan_members(existing, received, x);
        if exists|i: int|
            0 <= i < existing.len() && (#[trigger] existing[i]).id == Some(x) {
            let i = choose|i: int|
                0 <= i < existing.len() && (#[trigger] existing[i]).id == Some(x);
            assert(live(rows)[i].id == x);
            let k = choose|k: int| 0 <= k < rows.len() && rows[k] == live(rows)[i];
            assert(!rows[k].deleted && rows[k].id == x);
        }
        if exists|i: int|
            0 <= i < rows.len() && !(#[trigger] rows[i]).deleted && rows[i].id == x {
            let i = choose|i: int|
                0 <= i < rows.len() && !(#[trigger] rows[i]).deleted && rows[i].id == x;
            let j = choose|j: int| 0 <= j < live(rows).len() && live(rows)[j] == rows[i];
            assert(existing[j].id == Some(x));
        }
    }
    assert forall|i: int| 0 <= i < rows.len() implies delete_by_ids(rows, ids)[i] == mark_deleted(
        rows,
        received,
    )[i] by {
        lemma_delete_by_ids_pointwise(rows, ids, i);
        let r = rows[i];
        if ids.contains(r.id) {
            assert(!received.contains(r.id));
            if r.deleted {
                assert((Row { deleted: true, ..r }) == r);
            }
        } else {
            if !r.deleted && !received.contains(r.id) {
                assert(ids.contains(r.id));
            }
        }
    }
    lemma_delete_by_ids_len(rows, ids);
    assert(delete_by_ids(rows, ids) =~= mark_deleted(rows, received));
}

proof fn lemma_live_add(a: Seq<Row>, b: Seq<Row>)
    ensures
        live(a + b) == live(a) + live(b),
    decreases b.len(),
{
    if b.len() == 0 {
        assert(a + b =~= a);
        assert(live(a) + live(b) =~= live(a));
    } else {
        assert((a + b).drop_last() =~= a + b.drop_last());
        assert((a + b).last() == b.last());
        lemma_live_add(a, b.drop_last());
        if !b.last().deleted {
            assert(live(a) + live(b) =~= (live(a) + live(b.drop_last())).push(b.last()));
        }
    }
}

proof fn lemma_live_all_live(rows: Seq<Row>)
    requires
        forall|i: int| 0 <= i < rows.len() ==> !(#[trigger] rows[i]).deleted,
    ensures
        live(rows) == rows,
    decreases rows.len(),
{
    if rows.len() > 0 {
        lemma_live_all_live(rows.drop_last());
        assert(live(rows) =~= rows);
    }
}

proof fn lemma_live_all_dead(rows: Seq<Row>)
    requires
        forall|i: int| 0 <= i < rows.len() ==> (#[trigger] rows[i]).deleted,
    ensures
        live(rows) == Seq::<Row>::empty(),
    decreases rows.len(),
{
    if rows.len() > 0 {
        lemma_live_all_dead(rows.drop_last());
    }
}

proof fn lemma_created_rows_facts(ops: Seq<TicketOpView>, fresh: Seq<int>)
    requires
        count_creates(ops) <= fresh.len(),
    ensures
        created_rows(ops, fresh).len() == count_creates(ops),
        forall|i: int|
            0 <= i < created_rows(ops, fresh).len() ==> {
                &&& !(#[trigger] created_rows(ops, fresh)[i]).deleted
                &&& fresh.contains(created_rows(ops, fresh)[i].id)
            },
    decreases ops.len(),
{
    lemma_count_creates_nonneg(ops);
    if ops.len() > 0 {
        let rest = ops.drop_first();
        lemma_count_creates_nonneg(rest);
        match ops[0] {
            TicketOpView::Create(c) => {
                let fresh2 = fresh.drop_first();
                lemma_created_rows_facts(rest, fresh2);
                assert forall|i: int| 0 <= i < created_rows(ops, fresh).len() implies {
                    &&& !(#[trigger] created_rows(ops, fresh)[i]).deleted
                    &&& fresh.contains(created_rows(ops, fresh)[i].id)
                } by {
                    if i == 0 {
                        assert(created_rows(ops, fresh)[0].id == fresh[0]);
                        assert(fresh[0] == fresh[0]);
                    } else {
                        assert(created_rows(ops, fresh)[i] == created_rows(rest, fresh2)[i - 1]);
                        assert(fresh2.contains(created_rows(rest, fresh2)[i - 1].id));
                        let k = choose|k: int|
                            0 <= k < fresh2.len() && fresh2[k] == created_rows(rest, fresh2)[i
                                - 1].id;
                        assert(fresh[k + 1] == fresh2[k]);
                    }
                }
            },
            TicketOpView::Update(_) => {
                lemma_created_rows_facts(rest, fresh);
            },
        }
    }
}

proof fn lemma_created_contents(ops: Seq<TicketOpView>, f1: Seq<int>, f2: Seq<int>)
    requires
        count_creates(ops) <= f1.len(),
        count_creates(ops) <= f2.len(),
    ensures
        contents_of(created_rows(ops, f1)) == contents_of(created_rows(ops, f2)),
    decreases ops.len(),
{
    lemma_count_creates_nonneg(ops);
    if ops.len() > 0 {
        let rest = ops.drop_first();
        lemma_count_creates_nonneg(rest);
        match ops[0] {
            TicketOpView::Create(_) => {
                lemma_created_contents(rest, f1.drop_first(), f2.drop_first());
                let a1 = created_rows(ops, f1);
                let a2 = created_rows(ops, f2);
                let r1 = created_rows(rest, f1.drop_first());
                let r2 = created_rows(rest, f2.drop_first());
                assert(contents_of(r1).len() == contents_of(r2).len());
                assert forall|i: int| 0 <= i < a1.len() implies contents_of(a1)[i] == contents_of(
                    a2,
                )[i] by {
                    if i > 0 {
                        assert(a1[i] == r1[i - 1]);
                        assert(a2[i] == r2[i - 1]);
                        assert(contents_of(r1)[i - 1] == contents_of(r2)[i - 1]);
                    }
                }
                assert(contents_of(a1) =~= contents_of(a2));
            },
            TicketOpView::Update(_) => {
                lemma_created_contents(rest, f1, f2);
            },
        }
    }
}

proof fn lemma_updated_all_twice(rows: Seq<Row>, ops: Seq<TicketOpView>)
    ensures
        updated_all(updated_all(rows, ops), ops) == updated_all(rows, ops),
{
    assert(updated_all(updated_all(rows, ops), ops) =~= updated_all(rows, ops));
}

/// Idempotence of reconciliation: submitting the same snapshot twice
/// in immediate succession — no concurrent interleaving, storage
/// assigning genuinely fresh identifiers to created rows each time —
/// leaves, after the second call, exactly the same non-deleted
/// tickets by category and content, in the same order, as after the
/// first call.
pub proof fn lemma_reconcile_idempotent(
    rows: Seq<Row>,
    lists: Seq<ListView>,
    board_id: int,
    author_id: int,
    fresh1: Seq<int>,
    fresh2: Seq<int>,
)
    requires
        count_creates(spec_upsert_ops(lists, board_id, author_id)) <= fresh1.len(),
        count_creates(spec_upsert_ops(lists, board_id, author_id)) <= fresh2.len(),
        forall|k1: int, k2: int|
            0 <= k1 < k2 < fresh1.len() ==> #[trigger] fresh1[k1] != #[trigger] fresh1[k2],
        forall|k1: int, k2: int|
            0 <= k1 < k2 < fresh2.len() ==> #[trigger] fresh2[k1] != #[trigger] fresh2[k2],
        forall|k: int|
            0 <= k < fresh1.len() ==> {
                &&& !has_id(rows, #[trigger] fresh1[k])
                &&& !update_ids(spec_upsert_ops(lists, board_id, author_id)).contains(fresh1[k])
                &&& !spec_received_ids(lists).contains(fresh1[k])
            },
        forall|k: int|
            0 <= k < fresh2.len() ==> {
                &&& !has_id(rows, #[trigger] fresh2[k])
                &&& !update_ids(spec_upsert_ops(lists, board_id, author_id)).contains(fresh2[k])
                &&& !fresh1.contains(fresh2[k])
            },
    ensures
        contents_of(
            live(
                spec_reconcile(
                    spec_reconcile(rows, lists, board_id, author_id, fresh1),
                    lists,
                    board_id,
                    author_id,
                    fresh2,
                ),
            ),
        ) == contents_of(live(spec_reconcile(rows, lists, board_id, author_id, fresh1))),
{
    let ops = spec_upsert_ops(lists, board_id, author_id);
    let recv = spec_received_ids(lists);
    let t1 = mark_deleted(rows, recv);
    assert forall|k: int| 0 <= k < fresh1.len() implies !has_id(t1, #[trigger] fresh1[k]) by {
        if has_id(t1, fresh1[k]) {
            let i = choose|i: int| 0 <= i < t1.len() && t1[i].id == fresh1[k];
            assert(rows[i].id == fresh1[k]);
        }
    }
    lemma_apply_ops_decomposes(t1, ops, fresh1);
    let u1 = updated_all(t1, ops);
    let c1 = created_rows(ops, fresh1);
    let r1 = u1 + c1;
    assert(spec_reconcile(rows, lists, board_id, author_id, fresh1) == r1);
    lemma_created_rows_facts(ops, fresh1);

    // every live updated row still carries a received identifier, so
    // the second deletion pass leaves the updated rows alone ...
    assert forall|i: int| 0 <= i < u1.len() implies (!(#[trigger] u1[i]).deleted
        ==> recv.contains(u1[i].id)) by {
        assert(u1[i] == updated_row(ops, t1[i]));
    }
    let t2 = mark_deleted(r1, recv);
    let d1 = mark_deleted(c1, recv);
    assert(t2 =~= mark_deleted(u1, recv) + d1);
    assert(mark_deleted(u1, recv) =~= u1);
    assert(t2 == u1 + d1);

    // ... and soft-deletes every row the first call created, since
    // their fresh identifiers are not received
    assert forall|i: int| 0 <= i < d1.len() implies (#[trigger] d1[i]).deleted by {
        assert(fresh1.contains(c1[i].id));
        let k = choose|k: int| 0 <= k < fresh1.len() && fresh1[k] == c1[i].id;
        assert(!recv.contains(c1[i].id));
    }

    assert forall|k: int| 0 <= k < fresh2.len() implies !has_id(t2, #[trigger] fresh2[k]) by {
        if has_id(t2, fresh2[k]) {
            let i = choose|i: int| 0 <= i < t2.len() && t2[i].id == fresh2[k];
            if i < u1.len() {
                assert(u1[i].id == t1[i].id);
                assert(t1[i].id == rows[i].id);
                assert(has_id(rows, fresh2[k]));
            } else {
                assert(t2[i].id == c1[i - u1.len()].id);
                assert(fresh1.contains(c1[i - u1.len()].id));
            }
        }
    }
    lemma_apply_ops_decomposes(t2, ops, fresh2);
    let c2 = created_rows(ops, fresh2);
    let r2 = updated_all(t2, ops) + c2;
    assert(spec_reconcile(r1, lists, board_id, author_id, fresh2) == r2);
    lemma_created_rows_facts(ops, fresh2);

    // updating an already-updated row changes nothing
    let e1 = updated_all(d1, ops);
    assert(updated_all(t2, ops) =~= updated_all(u1, ops) + e1);
    lemma_updated_all_twice(t1, ops);
    assert(updated_all(u1, ops) == u1);

    // the rows the first call created stay dead through the updates
    assert forall|i: int| 0 <= i < e1.len() implies (#[trigger] e1[i]).deleted by {
        assert(e1[i] == updated_row(ops, d1[i]));
    }
    lemma_live_all_dead(e1);
    lemma_live_all_live(c1);
    lemma_live_all_live(c2);
    lemma_live_add(u1 + e1, c2);
    lemma_live_add(u1, e1);
    lemma_live_add(u1, c1);
    assert(live(r2) == live(u1) + live(e1) + live(c2)) by {
        assert(r2 == (u1 + e1) + c2);
    }
    assert(live(r2) =~= live(u1) + c2);
    assert(live(r1) == live(u1) + c1);
    lemma_created_contents(ops, fresh1, fresh2);
    assert(contents_of(live(u1) + c2) =~= contents_of(live(u1)) + contents_of(c2));
    assert(contents_of(live(u1) + c1) =~= contents_of(live(u1)) + contents_of(c1));
}

} // verus!
