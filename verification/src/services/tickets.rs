//! Ticket-level rules: the preconditions of each storage call, and
//! the deletion cascade plan.
//!
//! Ticket operations are secondary: their failures are recorded, never
//! fatal.  These checks reproduce the rules the storage layer is owed:
//! a new ticket carries no identifier, an update requires one, a
//! delete requires the ticket to exist.

use vstd::prelude::*;
use crate::entities::ticket::{Ticket, TicketView};
use crate::errors::AppError;

verus! {

/// The identifiers of the tickets that have one, in order.
pub open spec fn spec_ticket_ids(ts: Seq<TicketView>) -> Seq<int>
    decreases ts.len(),
{
    if ts.len() == 0 {
        Seq::empty()
    } else {
        let rest = spec_ticket_ids(ts.drop_last());
        match ts.last().id {
            Some(id) => rest.push(id),
            None => rest,
        }
    }
}

/// A ticket about to be stored must not carry an identifier: storage
/// assigns one.
pub fn save_ticket_check(ticket: &Ticket) -> (r: Result<(), AppError>)
    ensures
        r is Ok <==> ticket@.id is None,
        r matches Err(e) ==> e is InvalidInput,
{
    if ticket.id.is_some() {
        Err(AppError::InvalidInput)
    } else {
        Ok(())
    }
}

/// A ticket about to be updated must carry the identifier of the row
/// it overwrites.
pub fn update_ticket_check(ticket: &Ticket) -> (r: Result<(), AppError>)
    ensures
        r is Ok <==> ticket@.id is Some,
        r matches Err(e) ==> e is InvalidInput,
{
    if ticket.id.is_none() {
        Err(AppError::InvalidInput)
    } else {
        Ok(())
    }
}

/// A ticket can be deleted only if the lookup found it.
pub fn delete_ticket_check(found: &Option<Ticket>) -> (r: Result<(), AppError>)
    ensures
        r is Ok <==> found is Some,
        r matches Err(e) ==> e is NotFound,
{
    match found {
        Some(_) => Ok(()),
        None => Err(AppError::NotFound),
    }
}

/// The deletion cascade of a board: every ticket of the board that
/// has an identifier is soft-deleted, in order, before the board
/// itself.  Failures along the cascade are recorded per ticket and do
/// not stop it.
pub fn cascade_delete_plan(tickets: &Vec<Ticket>) -> (r: Vec<i64>)
    ensures
        r@.map_values(|x: i64| x as int) == spec_ticket_ids(
            tickets@.map_values(|t: Ticket| t@),
        ),
{
    let ghost views = tickets@.map_values(|t: Ticket| t@);
    let mut r: Vec<i64> = Vec::new();
    let mut i: usize = 0;
    while i < tickets.len()
        invariant
            0 <= i <= tickets@.len(),
            views == tickets@.map_values(|t: Ticket| t@),
            r@.map_values(|x: i64| x as int) == spec_ticket_ids(views.take(i as int)),
        decreases tickets@.len() - i,
    {
        proof {
            assert(views.take(i + 1).drop_last() =~= views.take(i as int));
            assert(views.take(i + 1).last() == views[i as int]);
        }
        if let Some(id) = tickets[i].id {
            r.push(id);
        }
        i = i + 1;
    }
    proof {
        assert(views.take(tickets@.len() as int) =~= views);
    }
    r
}

} // verus!
