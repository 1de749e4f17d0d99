//! The board reconciliation engine.
//!
//! A client submits a full snapshot of a board's tickets.  The engine
//! compares it with the persisted ticket set and produces the minimal
//! operation plan that aligns the two: persisted tickets whose
//! identifiers the snapshot no longer carries are soft-deleted, then
//! every submitted ticket is either created (sentinel zero or absent
//! board path) or updated (real identifier), in submission order.
//! The transport layer executes the plan call by call, records
//! per-ticket failures without aborting their siblings, and feeds the
//! outcomes back into [`aggregate_save_result`].

use vstd::prelude::*;
use crate::clock::now_epoch_seconds;
use crate::entities::ticket::{Ticket, TicketCore, TicketView};
use crate::errors::{AppError, TicketFailure};
use crate::payload::{ListView, ProjectData, TicketRefView};
use crate::request::UserContext;

verus! {

/// One planned persistence operation: store a new ticket, or
/// overwrite an existing row in full.
pub enum TicketOp {
    Create(Ticket),
    Update(Ticket),
}

/// Mathematical image of a [`TicketOp`]: the operation kind and the
/// time-independent fields of its ticket.
pub ghost enum TicketOpView {
    Create(TicketCore),
    Update(TicketCore),
}

impl View for TicketOp {
    type V = TicketOpView;

    open spec fn view(&self) -> TicketOpView {
        match self {
            TicketOp::Create(t) => TicketOpView::Create(t@.stable()),
            TicketOp::Update(t) => TicketOpView::Update(t@.stable()),
        }
    }
}

/// Every non-zero, non-absent ticket identifier present anywhere in
/// the snapshot's category lists.
pub open spec fn spec_received_ids(lists: Seq<ListView>) -> Set<int> {
    Set::new(
        |id: int|
            id != 0 && exists|li: int, tj: int|
                0 <= li < lists.len() && 0 <= tj < lists[li].tickets.len()
                    && (#[trigger] lists[li].tickets[tj]).id == Some(id),
    )
}

/// What the upsert pass plans for one submitted ticket: the sentinel
/// zero identifier means a brand-new ticket; anything else — a real
/// identifier, or none at all — is treated as an update carrying the
/// submitted identifier.
pub open spec fn spec_ticket_op(
    t: TicketRefView,
    category: Seq<char>,
    board_id: int,
    author_id: int,
) -> TicketOpView {
    if t.id == Some(0int) {
        TicketOpView::Create(
            TicketCore {
                id: None,
                board_id,
                author_id,
                category,
                content: t.content,
                deleted: false,
            },
        )
    } else {
        TicketOpView::Update(
            TicketCore {
                id: t.id,
                board_id,
                author_id,
                category,
                content: t.content,
                deleted: false,
            },
        )
    }
}

/// The upsert operations of one category list, in submission order.
pub open spec fn spec_list_ops(l: ListView, board_id: int, author_id: int) -> Seq<TicketOpView> {
    l.tickets.map_values(|t: TicketRefView| spec_ticket_op(t, l.category, board_id, author_id))
}

/// The upsert operations of the whole snapshot: list by list, ticket
/// by ticket, in submission order.
pub open spec fn spec_upsert_ops(lists: Seq<ListView>, board_id: int, author_id: int) -> Seq<
    TicketOpView,
>
    decreases lists.len(),
{
    if lists.len() == 0 {
        Seq::empty()
    } else {
        spec_upsert_ops(lists.drop_last(), board_id, author_id) + spec_list_ops(
            lists.last(),
            board_id,
            author_id,
        )
    }
}

/// The creation path plans one new ticket per submitted ticket,
/// whatever identifier it carries.
pub open spec fn spec_creation_cores(lists: Seq<ListView>, board_id: int, author_id: int) -> Seq<
    TicketCore,
>
    decreases lists.len(),
{
    if lists.len() == 0 {
        Seq::empty()
    } else {
        spec_creation_cores(lists.drop_last(), board_id, author_id) + lists.last().tickets
            .map_values(
            |t: TicketRefView| TicketCore {
                id: None,
                board_id,
                author_id,
                category: lists.last().category,
                content: t.content,
                deleted: false,
            },
        )
    }
}

/// The identifiers the deletion pass soft-deletes: every persisted
/// ticket whose identifier the snapshot does not carry, in storage
/// order.
pub open spec fn spec_deletion_plan(existing: Seq<TicketView>, received: Set<int>) -> Seq<int>
    decreases existing.len(),
{
    if existing.len() == 0 {
        Seq::empty()
    } else {
        let rest = spec_deletion_plan(existing.drop_last(), received);
        match existing.last().id {
            Some(id) => if !received.contains(id) {
                rest.push(id)
            } else {
                rest
            },
            None => rest,
        }
    }
}

/// The identifier set a vector of identifiers denotes.
pub open spec fn ids_as_set(v: Seq<i64>) -> Set<int> {
    v.map_values(|x: i64| x as int).to_set()
}

proof fn lemma_ids_as_set_contains(v: Seq<i64>, x: i64)
    ensures
        ids_as_set(v).contains(x as int) <==> v.contains(x),
{
    let mapped = v.map_values(|y: i64| y as int);
    if v.contains(x) {
        let j = choose|j: int| 0 <= j < v.len() && v[j] == x;
        assert(mapped[j] == x as int);
        assert(mapped.contains(x as int));
    }
    if mapped.to_set().contains(x as int) {
        let j = choose|j: int| 0 <= j < mapped.len() && mapped[j] == x as int;
        assert(v[j] == x);
    }
}

/// Is this identifier among the collected ones?
fn contains_id(v: &Vec<i64>, x: i64) -> (r: bool)
    ensures
        r == v@.contains(x),
{
    let mut i: usize = 0;
    while i < v.len()
        invariant
            0 <= i <= v@.len(),
            forall|j: int| 0 <= j < i ==> v@[j] != x,
        decreases v@.len() - i,
    {
        if v[i] == x {
            return true;
        }
        i = i + 1;
    }
    false
}

/// Collect the non-zero, non-absent identifiers present anywhere in
/// the snapshot: exactly the members of [`spec_received_ids`].
pub fn collect_received_ids(pd: &ProjectData) -> (r: Vec<i64>)
    ensures
        forall|id: i64| r@.contains(id) <==> spec_received_ids(pd@.lists).contains(id as int),
{
    let ghost lists_v = pd@.lists;
    let mut r: Vec<i64> = Vec::new();
    let mut li: usize = 0;
    while li < pd.lists.len()
        invariant
            0 <= li <= pd.lists@.len(),
            lists_v == pd@.lists,
            lists_v.len() == pd.lists@.len(),
            forall|id: i64|
                r@.contains(id) <==> (id != 0 && exists|a: int, b: int|
                    0 <= a < li && 0 <= b < lists_v[a].tickets.len()
                        && (#[trigger] lists_v[a].tickets[b]).id == Some(id as int)),
        decreases pd.lists@.len() - li,
    {
        let list = &pd.lists[li];
        proof {
            assert(lists_v[li as int] == pd.lists@[li as int]@);
        }
        let mut tj: usize = 0;
        while tj < list.tickets.len()
            invariant
                0 <= tj <= list.tickets@.len(),
                lists_v == pd@.lists,
                lists_v.len() == pd.lists@.len(),
                0 <= li < lists_v.len(),
                lists_v[li as int] == list@,
                lists_v[li as int].tickets.len() == list.tickets@.len(),
                forall|id: i64|
                    r@.contains(id) <==> (id != 0 && exists|a: int, b: int|
                        (0 <= a < li && 0 <= b < lists_v[a].tickets.len() || a == li && 0 <= b
                            < tj) && (#[trigger] lists_v[a].tickets[b]).id == Some(id as int)),
            decreases list.tickets@.len() - tj,
        {
            let t = &list.tickets[tj];
            proof {
                assert(lists_v[li as int].tickets[tj as int] == list.tickets@[tj as int]@);
            }
            let ghost prior = r@;
            if let Some(v) = t.id {
                if v != 0 {
                    r.push(v);
                    proof {
                        assert(r@ == prior.push(v));
                        assert(r@[prior.len() as int] == v);
                    }
                }
            }
            proof {
                assert forall|id: i64|
                    r@.contains(id) <==> (id != 0 && exists|a: int, b: int|
                        (0 <= a < li && 0 <= b < lists_v[a].tickets.len() || a == li && 0 <= b < tj
                            + 1) && (#[trigger] lists_v[a].tickets[b]).id == Some(id as int)) by {
                    if r@.contains(id) {
                        if prior.contains(id) {
                        } else {
                            assert(lists_v[li as int].tickets[tj as int].id == Some(id as int));
                        }
                    }
                    if id != 0 && exists|a: int, b: int|
                        (0 <= a < li && 0 <= b < lists_v[a].tickets.len() || a == li && 0 <= b < tj
                            + 1) && (#[trigger] lists_v[a].tickets[b]).id == Some(id as int) {
                        let (a, b) = choose|a: int, b: int|
                            (0 <= a < li && 0 <= b < lists_v[a].tickets.len() || a == li && 0 <= b
                                < tj + 1) && (#[trigger] lists_v[a].tickets[b]).id == Some(
                                id as int,
                            );
                        if a == li && b == tj {
                            assert(r@.contains(id));
                        } else {
                            assert(prior.contains(id));
                            let j = choose|j: int| 0 <= j < prior.len() && prior[j] == id;
                            assert(r@[j] == id);
                            assert(r@.contains(id));
                        }
                    }
                }
            }
            tj = tj + 1;
        }
        li = li + 1;
    }
    proof {
        assert forall|id: i64|
            r@.contains(id) <==> spec_received_ids(lists_v).contains(id as int) by {
            assert(spec_received_ids(lists_v).contains(id as int) <==> (id as int != 0 && exists|
                a: int,
                b: int,
            |
                0 <= a < lists_v.len() && 0 <= b < lists_v[a].tickets.len()
                    && (#[trigger] lists_v[a].tickets[b]).id == Some(id as int)));
        }
    }
    r
}

/// The deletion pass: the identifier of every persisted ticket the
/// snapshot no longer carries, in storage order.
pub fn deletion_plan(existing: &Vec<Ticket>, received: &Vec<i64>) -> (r: Vec<i64>)
    ensures
        r@.map_values(|x: i64| x as int) == spec_deletion_plan(
            existing@.map_values(|t: Ticket| t@),
            ids_as_set(received@),
        ),
{
    let ghost views = existing@.map_values(|t: Ticket| t@);
    let ghost rset = ids_as_set(received@);
    let mut r: Vec<i64> = Vec::new();
    let mut i: usize = 0;
    while i < existing.len()
        invariant
            0 <= i <= existing@.len(),
            views == existing@.map_values(|t: Ticket| t@),
            rset == ids_as_set(received@),
            r@.map_values(|x: i64| x as int) == spec_deletion_plan(views.take(i as int), rset),
        decreases existing@.len() - i,
    {
        proof {
            assert(views.take(i + 1).drop_last() =~= views.take(i as int));
            assert(views.take(i + 1).last() == views[i as int]);
        }
        let ghost prior = r@;
        if let Some(id) = existing[i].id {
            proof {
                lemma_ids_as_set_contains(received@, id);
            }
            if !contains_id(received, id) {
                r.push(id);
                proof {
                    assert(r@.map_values(|x: i64| x as int) =~= prior.map_values(
                        |x: i64| x as int,
                    ).push(id as int));
                }
            }
        }
        i = i + 1;
    }
    proof {
        assert(views.take(existing@.len() as int) =~= views);
    }
    r
}

/// The upsert pass, in submission order: a ticket submitted with the
/// sentinel zero identifier becomes a brand-new ticket of this board;
/// any other submitted ticket becomes a full overwrite carrying its
/// submitted identifier, this board, the requester as author, its
/// list's category, its content, and fresh timestamps.
pub fn upsert_plan(pd: &ProjectData, board_id: i64, user: &UserContext) -> (r: Vec<TicketOp>)
    ensures
        r@.map_values(|op: TicketOp| op@) == spec_upsert_ops(
            pd@.lists,
            board_id as int,
            user.user_id as int,
        ),
{
    let ghost lists_v = pd@.lists;
    let ghost b = board_id as int;
    let ghost a = user.user_id as int;
    let now = now_epoch_seconds();
    let mut r: Vec<TicketOp> = Vec::new();
    let mut li: usize = 0;
    while li < pd.lists.len()
        invariant
            0 <= li <= pd.lists@.len(),
            lists_v == pd@.lists,
            lists_v.len() == pd.lists@.len(),
            b == board_id as int,
            a == user.user_id as int,
            r@.map_values(|op: TicketOp| op@) == spec_upsert_ops(lists_v.take(li as int), b, a),
        decreases pd.lists@.len() - li,
    {
        let list = &pd.lists[li];
        proof {
            assert(lists_v[li as int] == pd.lists@[li as int]@);
        }
        let mut tj: usize = 0;
        while tj < list.tickets.len()
            invariant
                0 <= tj <= list.tickets@.len(),
                lists_v == pd@.lists,
                lists_v.len() == pd.lists@.len(),
                0 <= li < lists_v.len(),
                lists_v[li as int] == list@,
                lists_v[li as int].tickets.len() == list.tickets@.len(),
                b == board_id as int,
                a == user.user_id as int,
                r@.map_values(|op: TicketOp| op@) == spec_upsert_ops(lists_v.take(li as int), b, a)
                    + spec_list_ops(lists_v[li as int], b, a).take(tj as int),
            decreases list.tickets@.len() - tj,
        {
            let t = &list.tickets[tj];
            proof {
                assert(lists_v[li as int].tickets[tj as int] == list.tickets@[tj as int]@);
            }
            let ghost prior = r@;
            let is_new = match t.id {
                Some(v) => v == 0,
                None => false,
            };
            let op = if is_new {
                TicketOp::Create(
                    Ticket::create(
                        board_id,
                        user.user_id,
                        list.category.clone(),
                        t.content.clone(),
                    ),
                )
            } else {
                TicketOp::Update(
                    Ticket::new(
                        t.id,
                        board_id,
                        user.user_id,
                        list.category.clone(),
                        t.content.clone(),
                        now,
                        now,
                    ),
                )
            };
            proof {
                assert(op@ == spec_ticket_op(
                    lists_v[li as int].tickets[tj as int],
                    lists_v[li as int].category,
                    b,
                    a,
                ));
            }
            r.push(op);
            proof {
                assert(r@.map_values(|op: TicketOp| op@) =~= prior.map_values(
                    |op: TicketOp| op@,
                ).push(r@.last()@));
                assert(spec_list_ops(lists_v[li as int], b, a)[tj as int] == spec_ticket_op(
                    lists_v[li as int].tickets[tj as int],
                    lists_v[li as int].category,
                    b,
                    a,
                ));
                assert(spec_list_ops(lists_v[li as int], b, a).take(tj + 1) =~= spec_list_ops(
                    lists_v[li as int],
                    b,
                    a,
                ).take(tj as int).push(spec_list_ops(lists_v[li as int], b, a)[tj as int]));
            }
            tj = tj + 1;
        }
        proof {
            assert(lists_v.take(li + 1).drop_last() =~= lists_v.take(li as int));
            assert(lists_v.take(li + 1).last() == lists_v[li as int]);
            assert(spec_list_ops(lists_v[li as int], b, a).take(
                list.tickets@.len() as int,
            ) =~= spec_list_ops(lists_v[li as int], b, a));
        }
        li = li + 1;
    }
    proof {
        assert(lists_v.take(pd.lists@.len() as int) =~= lists_v);
    }
    r
}

/// The creation path: every submitted ticket of every list becomes a
/// brand-new ticket of the freshly created board, in submission
/// order, whatever identifier it carried.
pub fn creation_plan(pd: &ProjectData, board_id: i64, user: &UserContext) -> (r: Vec<Ticket>)
    ensures
        r@.map_values(|t: Ticket| t@.stable()) == spec_creation_cores(
            pd@.lists,
            board_id as int,
            user.user_id as int,
        ),
{
    let ghost lists_v = pd@.lists;
    let ghost b = board_id as int;
    let ghost a = user.user_id as int;
    let mut r: Vec<Ticket> = Vec::new();
    let mut li: usize = 0;
    while li < pd.lists.len()
        invariant
            0 <= li <= pd.lists@.len(),
            lists_v == pd@.lists,
            lists_v.len() == pd.lists@.len(),
            b == board_id as int,
            a == user.user_id as int,
            r@.map_values(|t: Ticket| t@.stable()) == spec_creation_cores(
                lists_v.take(li as int),
                b,
                a,
            ),
        decreases pd.lists@.len() - li,
    {
        let list = &pd.lists[li];
        proof {
            assert(lists_v[li as int] == pd.lists@[li as int]@);
        }
        let ghost list_cores = lists_v[li as int].tickets.map_values(
            |t: TicketRefView| TicketCore {
                id: None,
                board_id: b,
                author_id: a,
                category: lists_v[li as int].category,
                content: t.content,
                deleted: false,
            },
        );
        let mut tj: usize = 0;
        while tj < list.tickets.len()
            invariant
                0 <= tj <= list.tickets@.len(),
                lists_v == pd@.lists,
                lists_v.len() == pd.lists@.len(),
                0 <= li < lists_v.len(),
                lists_v[li as int] == list@,
                lists_v[li as int].tickets.len() == list.tickets@.len(),
                b == board_id as int,
                a == user.user_id as int,
                list_cores == lists_v[li as int].tickets.map_values(
                    |t: TicketRefView| TicketCore {
                        id: None,
                        board_id: b,
                        author_id: a,
                        category: lists_v[li as int].category,
                        content: t.content,
                        deleted: false,
                    },
                ),
                list_cores.len() == list.tickets@.len(),
                r@.map_values(|t: Ticket| t@.stable()) == spec_creation_cores(
                    lists_v.take(li as int),
                    b,
                    a,
                ) + list_cores.take(tj as int),
            decreases list.tickets@.len() - tj,
        {
            let t = &list.tickets[tj];
            proof {
                assert(lists_v[li as int].tickets[tj as int] == list.tickets@[tj as int]@);
            }
            let ghost prior = r@;
            let ticket = Ticket::create(
                board_id,
                user.user_id,
                list.category.clone(),
                t.content.clone(),
            );
            r.push(ticket);
            proof {
                assert(r@.map_values(|t: Ticket| t@.stable()) =~= prior.map_values(
                    |t: Ticket| t@.stable(),
                ).push(r@.last()@.stable()));
                assert(list_cores.take(tj + 1) =~= list_cores.take(tj as int).push(
                    list_cores[tj as int],
                ));
            }
            tj = tj + 1;
        }
        proof {
            assert(lists_v.take(li + 1).drop_last() =~= lists_v.take(li as int));
            assert(lists_v.take(li + 1).last() == lists_v[li as int]);
            assert(list_cores.take(list.tickets@.len() as int) =~= list_cores);
        }
        li = li + 1;
    }
    proof {
        assert(lists_v.take(pd.lists@.len() as int) =~= lists_v);
    }
    r
}

/// The full update-path plan for one snapshot against the persisted
/// ticket set: the deletion pass first, then the upserts in
/// submission order.
pub struct ReconcilePlan {
    pub deletes: Vec<i64>,
    pub upserts: Vec<TicketOp>,
}

/// Plan the update path: collect the received identifiers, plan the
/// deletions of the persisted tickets the snapshot dropped, and plan
/// the upserts.
pub fn plan_board_update(
    pd: &ProjectData,
    existing: &Vec<Ticket>,
    board_id: i64,
    user: &UserContext,
) -> (plan: ReconcilePlan)
    ensures
        plan.deletes@.map_values(|x: i64| x as int) == spec_deletion_plan(
            existing@.map_values(|t: Ticket| t@),
            spec_received_ids(pd@.lists),
        ),
        plan.upserts@.map_values(|op: TicketOp| op@) == spec_upsert_ops(
            pd@.lists,
            board_id as int,
            user.user_id as int,
        ),
{
    let received = collect_received_ids(pd);
    proof {
        assert forall|id: int|
            ids_as_set(received@).contains(id) <==> spec_received_ids(pd@.lists).contains(
                id,
            ) by {
            if ids_as_set(received@).contains(id) {
                let mapped = received@.map_values(|x: i64| x as int);
                assert(mapped.contains(id));
                let j = choose|j: int| 0 <= j < mapped.len() && mapped[j] == id;
                assert(received@[j] as int == id);
                assert(received@.contains(received@[j]));
            }
            if spec_received_ids(pd@.lists).contains(id) {
                let (a, b) = choose|a: int, b: int|
                    0 <= a < pd@.lists.len() && 0 <= b < pd@.lists[a].tickets.len()
                        && (#[trigger] pd@.lists[a].tickets[b]).id == Some(id);
                assert(pd@.lists[a] == pd.lists@[a]@);
                assert(pd@.lists[a].tickets[b] == pd.lists@[a].tickets@[b]@);
                let idv = pd.lists@[a].tickets@[b].id;
                assert(idv is Some && idv->0 as int == id);
                assert(received@.contains(idv->0));
                lemma_ids_as_set_contains(received@, idv->0);
            }
        }
        assert(ids_as_set(received@) =~= spec_received_ids(pd@.lists));
    }
    let deletes = deletion_plan(existing, &received);
    let upserts = upsert_plan(pd, board_id, user);
    ReconcilePlan { deletes, upserts }
}

/// What one complete save reports: the board the snapshot landed on,
/// and the ticket-level failures that were recorded along the way.
pub struct SaveSummary {
    pub board_id: i64,
    pub failures: Vec<TicketFailure>,
}

/// Aggregate a save: strict on the primary entity, lenient on the
/// secondary ones.  A failed board update fails the whole operation
/// with that error, whatever the tickets did; a successful board
/// update reports success carrying whichever ticket-level failures
/// were recorded.
pub fn aggregate_save_result(
    board_id: i64,
    board_result: Result<(), AppError>,
    failures: Vec<TicketFailure>,
) -> (r: Result<SaveSummary, AppError>)
    ensures
        board_result matches Err(e) ==> (r matches Err(e2) && e2 == e),
        board_result is Ok ==> (r matches Ok(s) && s.board_id == board_id && s.failures
            == failures),
{
    match board_result {
        Ok(()) => Ok(SaveSummary { board_id, failures }),
        Err(e) => Err(e),
    }
}

/// How many operations the lists before list `li` contribute: the
/// flat position where list `li`'s operations start.
pub open spec fn spec_ops_before(lists: Seq<ListView>, li: int) -> int
    decreases li,
{
    if li <= 0 {
        0
    } else {
        spec_ops_before(lists, li - 1) + lists[li - 1].tickets.len()
    }
}

proof fn lemma_ops_before_nonneg(lists: Seq<ListView>, li: int)
    ensures
        spec_ops_before(lists, li) >= 0,
    decreases li,
{
    if li > 0 {
        lemma_ops_before_nonneg(lists, li - 1);
    }
}

proof fn lemma_ops_before_drop_last(lists: Seq<ListView>, li: int)
    requires
        0 <= li <= lists.len() - 1,
    ensures
        spec_ops_before(lists.drop_last(), li) == spec_ops_before(lists, li),
    decreases li,
{
    if li > 0 {
        lemma_ops_before_drop_last(lists, li - 1);
        assert(lists.drop_last()[li - 1] == lists[li - 1]);
    }
}

proof fn lemma_upsert_ops_len(lists: Seq<ListView>, b: int, a: int)
    ensures
        spec_upsert_ops(lists, b, a).len() == spec_ops_before(lists, lists.len() as int),
    decreases lists.len(),
{
    if lists.len() > 0 {
        lemma_upsert_ops_len(lists.drop_last(), b, a);
        lemma_ops_before_drop_last(lists, lists.len() - 1);
    }
}

/// Where each submitted ticket's operation lands: the ticket at
/// position `tj` of list `li` is planned at flat position
/// `spec_ops_before(lists, li) + tj`, and the operation is exactly
/// what [`spec_ticket_op`] prescribes for it.
pub proof fn lemma_upsert_op_at(lists: Seq<ListView>, b: int, a: int, li: int, tj: int)
    requires
        0 <= li < lists.len(),
        0 <= tj < lists[li].tickets.len(),
    ensures
        0 <= spec_ops_before(lists, li) + tj < spec_upsert_ops(lists, b, a).len(),
        spec_upsert_ops(lists, b, a)[spec_ops_before(lists, li) + tj] == spec_ticket_op(
            lists[li].tickets[tj],
            lists[li].category,
            b,
            a,
        ),
    decreases lists.len(),
{
    lemma_ops_before_nonneg(lists, li);
    lemma_upsert_ops_len(lists, b, a);
    let prefix = spec_upsert_ops(lists.drop_last(), b, a);
    lemma_upsert_ops_len(lists.drop_last(), b, a);
    if li == lists.len() - 1 {
        lemma_ops_before_drop_last(lists, li);
        assert(prefix.len() == spec_ops_before(lists, li));
        assert(spec_upsert_ops(lists, b, a)[prefix.len() + tj] == spec_list_ops(
            lists.last(),
            b,
            a,
        )[tj]);
        assert(spec_list_ops(lists[li], b, a)[tj] == spec_ticket_op(
            lists[li].tickets[tj],
            lists[li].category,
            b,
            a,
        ));
    } else {
        lemma_upsert_op_at(lists.drop_last(), b, a, li, tj);
        lemma_ops_before_drop_last(lists, li);
        assert(lists.drop_last()[li] == lists[li]);
        assert(spec_upsert_ops(lists, b, a)[spec_ops_before(lists, li) + tj] == prefix[
            spec_ops_before(lists, li) + tj
        ]);
    }
}

/// A submitted ticket carrying the sentinel zero identifier is always
/// planned as a create — never an update: a brand-new ticket of this
/// board with no identifier, the list's category, and the submitted
/// content.
pub proof fn lemma_sentinel_zero_creates(lists: Seq<ListView>, b: int, a: int, li: int, tj: int)
    requires
        0 <= li < lists.len(),
        0 <= tj < lists[li].tickets.len(),
        lists[li].tickets[tj].id == Some(0int),
    ensures
        0 <= spec_ops_before(lists, li) + tj < spec_upsert_ops(lists, b, a).len(),
        spec_upsert_ops(lists, b, a)[spec_ops_before(lists, li) + tj] == TicketOpView::Create(
            TicketCore {
                id: None,
                board_id: b,
                author_id: a,
                category: lists[li].category,
                content: lists[li].tickets[tj].content,
                deleted: false,
            },
        ),
{
    lemma_upsert_op_at(lists, b, a, li, tj);
}

/// A submitted ticket whose identifier is not the sentinel zero is
/// always planned as an update carrying exactly the submitted
/// identifier — never a create — even when no persisted row bears
/// that identifier: executing such an update yields one recorded
/// partial failure, not an abort.
pub proof fn lemma_existing_id_updates(lists: Seq<ListView>, b: int, a: int, li: int, tj: int)
    requires
        0 <= li < lists.len(),
        0 <= tj < lists[li].tickets.len(),
        lists[li].tickets[tj].id != Some(0int),
    ensures
        0 <= spec_ops_before(lists, li) + tj < spec_upsert_ops(lists, b, a).len(),
        spec_upsert_ops(lists, b, a)[spec_ops_before(lists, li) + tj] == TicketOpView::Update(
            TicketCore {
                id: lists[li].tickets[tj].id,
                board_id: b,
                author_id: a,
                category: lists[li].category,
                content: lists[li].tickets[tj].content,
                deleted: false,
            },
        ),
{
    lemma_upsert_op_at(lists, b, a, li, tj);
}

/// What the deletion pass holds, element for element: an identifier
/// is planned for deletion exactly when some persisted ticket bears
/// it and the snapshot does not carry it.  Soft-deleting these
/// identifiers row by row is what the storage model's deletion pass
/// does to the board's live rows.
pub proof fn lemma_deletion_plan_members(existing: Seq<TicketView>, received: Set<int>, id: int)
    ensures
        spec_deletion_plan(existing, received).contains(id) <==> (!received.contains(id)
            && exists|i: int| 0 <= i < existing.len() && (#[trigger] existing[i]).id == Some(id)),
    decreases existing.len(),
{
    if existing.len() > 0 {
        let prefix = existing.drop_last();
        lemma_deletion_plan_members(prefix, received, id);
        let plan = spec_deletion_plan(existing, received);
        let pplan = spec_deletion_plan(prefix, received);
        assert forall|i: int|
            0 <= i < prefix.len() implies #[trigger] prefix[i] == existing[i] by {}
        if plan.contains(id) && !pplan.contains(id) {
            let j = choose|j: int| 0 <= j < plan.len() && plan[j] == id;
            if j < pplan.len() {
                assert(pplan[j] == id);
            } else {
                assert(existing.last().id == Some(id));
                assert(existing[existing.len() - 1].id == Some(id));
            }
        }
        if pplan.contains(id) {
            let j = choose|j: int| 0 <= j < pplan.len() && pplan[j] == id;
            assert(plan[j] == id);
            assert(plan.contains(id));
        }
        if !received.contains(id) && exists|i: int|
            0 <= i < existing.len() && (#[trigger] existing[i]).id == Some(id) {
            let i = choose|i: int| 0 <= i < existing.len() && (#[trigger] existing[i]).id == Some(id);
            if i < existing.len() - 1 {
                assert(prefix[i].id == Some(id));
                assert(pplan.contains(id));
            } else {
                assert(plan =~= pplan.push(id));
                assert(plan[pplan.len() as int] == id);
                assert(plan.contains(id));
            }
        }
    }
}

/// When no submitted identifier matches any persisted ticket, the
/// deletion pass plans every persisted ticket of the board: the plan
/// is exactly the ticket identifiers, in storage order.
pub proof fn lemma_unmatched_snapshot_deletes_all(existing: Seq<TicketView>, received: Set<int>)
    requires
        forall|i: int|
            0 <= i < existing.len() ==> (match (#[trigger] existing[i]).id {
                Some(id) => !received.contains(id),
                None => true,
            }),
    ensures
        spec_deletion_plan(existing, received) == crate::services::tickets::spec_ticket_ids(
            existing,
        ),
    decreases existing.len(),
{
    if existing.len() > 0 {
        assert(forall|i: int|
            0 <= i < existing.drop_last().len() ==> existing.drop_last()[i] == existing[i]);
        lemma_unmatched_snapshot_deletes_all(existing.drop_last(), received);
    }
}

} // verus!
