//! The board query assembler: reshape a board's persisted tickets
//! into the categorized view returned to clients.
//!
//! For each of the three fixed categories — "Keep", "Problem", "Try",
//! always in that order — the ticket set is filtered to the matching
//! category and projected to identifier and content, keeping storage
//! return order within each list.  A ticket whose category falls
//! outside the fixed set appears in no list, though it remains
//! persisted: a deliberate boundary behavior.

use vstd::prelude::*;
use vstd::string::StringExecFns;
use crate::entities::board::Board;
use crate::entities::ticket::{Ticket, TicketView};
use crate::parse::{all_digits, digits_value, format_id};
use crate::payload;
use crate::payload::{BoardTicketSummary, ListView, ProjectData, TicketRefView};

verus! {

/// The fixed category names, in their fixed order.
pub open spec fn spec_categories() -> Seq<Seq<char>> {
    seq!["Keep"@, "Problem"@, "Try"@]
}

/// The tickets of one category, in storage order, projected to
/// identifier and content.
pub open spec fn spec_category_tickets(ts: Seq<TicketView>, cat: Seq<char>) -> Seq<TicketRefView>
    decreases ts.len(),
{
    if ts.len() == 0 {
        Seq::empty()
    } else {
        let rest = spec_category_tickets(ts.drop_last(), cat);
        if ts.last().category == cat {
            rest.push(TicketRefView { id: ts.last().id, content: ts.last().content })
        } else {
            rest
        }
    }
}

/// The three assembled category lists for a ticket set: one list per
/// fixed category, in the fixed order, each keyed by its category
/// name.
pub open spec fn spec_assembled_lists(ts: Seq<TicketView>) -> Seq<ListView> {
    spec_categories().map_values(
        |cat: Seq<char>| ListView { id: cat, category: cat, tickets: spec_category_tickets(ts, cat) },
    )
}

/// Filter the tickets to one category and project each to identifier
/// and content, in order.
fn tickets_in_category(tickets: &Vec<Ticket>, cat: &String) -> (r: Vec<payload::Ticket>)
    ensures
        r@.map_values(|t: payload::Ticket| t@) == spec_category_tickets(
            tickets@.map_values(|t: Ticket| t@),
            cat@,
        ),
{
    let ghost views = tickets@.map_values(|t: Ticket| t@);
    let mut r: Vec<payload::Ticket> = Vec::new();
    let mut i: usize = 0;
    while i < tickets.len()
        invariant
            0 <= i <= tickets@.len(),
            views == tickets@.map_values(|t: Ticket| t@),
            r@.map_values(|t: payload::Ticket| t@) == spec_category_tickets(
                views.take(i as int),
                cat@,
            ),
        decreases tickets@.len() - i,
    {
        proof {
            assert(views.take(i + 1).drop_last() =~= views.take(i as int));
            assert(views.take(i + 1).last() == views[i as int]);
        }
        let t = &tickets[i];
        let ghost prior = r@;
        if t.category == *cat {
            r.push(payload::Ticket { id: t.id, content: t.content.clone() });
            proof {
                assert(r@.map_values(|t: payload::Ticket| t@) =~= prior.map_values(
                    |t: payload::Ticket| t@,
                ).push(r@.last()@));
            }
        }
        i = i + 1;
    }
    proof {
        assert(views.take(tickets@.len() as int) =~= views);
    }
    r
}

/// Assemble the categorized view of a board: title, identifier, and
/// for each fixed category, its tickets in storage order.  The
/// board's identifier is also rendered as decimal text in the nested
/// project structure, absent when the board has none.
pub fn assemble(board: &Board, tickets: &Vec<Ticket>) -> (r: BoardTicketSummary)
    requires
        match board@.id {
            Some(v) => 0 <= v,
            None => true,
        },
    ensures
        r.title@ == board@.title,
        r.id as int == (match board@.id {
            Some(v) => v,
            None => 0,
        }),
        match (board@.id, r.project_data@.id) {
            (Some(v), Some(s)) => {
                &&& s.len() > 0
                &&& all_digits(s)
                &&& digits_value(s) == v
                &&& (s.len() > 1 ==> s[0] != '0')
            },
            (None, None) => true,
            _ => false,
        },
        r.project_data@.lists == spec_assembled_lists(tickets@.map_values(|t: Ticket| t@)),
{
    let ghost views = tickets@.map_values(|t: Ticket| t@);
    let keep = String::from_str("Keep");
    let problem = String::from_str("Problem");
    let tri = String::from_str("Try");
    let keep_tickets = tickets_in_category(tickets, &keep);
    let problem_tickets = tickets_in_category(tickets, &problem);
    let try_tickets = tickets_in_category(tickets, &tri);
    let lists = vec![
        payload::List { id: keep.clone(), category: keep, tickets: keep_tickets },
        payload::List { id: problem.clone(), category: problem, tickets: problem_tickets },
        payload::List { id: tri.clone(), category: tri, tickets: try_tickets },
    ];
    proof {
        assert(lists@.map_values(|l: payload::List| l@) =~= spec_assembled_lists(views));
    }
    let id: i64 = match board.id {
        Some(v) => v,
        None => 0,
    };
    let id_text: Option<String> = match board.id {
        Some(v) => Some(format_id(v)),
        None => None,
    };
    BoardTicketSummary {
        title: board.title.clone(),
        id,
        project_data: ProjectData { id: id_text, lists },
    }
}

/// The assembler is order-stable: the categories always come out as
/// "Keep", "Problem", "Try" in that order, and each list holds
/// exactly its category's tickets in storage order.  Together with
/// the assembler's own contract — its output is a function of the
/// board and ticket views alone — repeated calls on the same ticket
/// set produce identical lists.
pub proof fn lemma_assemble_order_stable(ts: Seq<TicketView>)
    ensures
        spec_assembled_lists(ts).len() == 3,
        spec_assembled_lists(ts)[0].category == "Keep"@,
        spec_assembled_lists(ts)[1].category == "Problem"@,
        spec_assembled_lists(ts)[2].category == "Try"@,
        forall|k: int|
            0 <= k < 3 ==> (#[trigger] spec_assembled_lists(ts)[k]).tickets
                == spec_category_tickets(ts, spec_assembled_lists(ts)[k].category),
{
}

} // verus!
