//! Board-level rules: listing, visibility, title update, deletion.
//!
//! Each function here is the decision half of one storage-backed use
//! case: the transport layer loads rows, hands them in as plain
//! values, and performs whatever persistence call the verdict allows.

use vstd::prelude::*;
use crate::auth::{assert_owner, spec_can_read, spec_is_owner};
use crate::entities::board::{Board, BoardView};
use crate::errors::AppError;
use crate::payload::BoardSummary;
use crate::request::UserContext;

verus! {

/// One listing line per board: its title, and its identifier (zero
/// when storage has not assigned one, which a listed board never is).
pub fn board_summaries(boards: &Vec<Board>) -> (r: Vec<BoardSummary>)
    ensures
        r@.len() == boards@.len(),
        forall|i: int|
            0 <= i < boards@.len() ==> {
                &&& (#[trigger] r@[i]).title@ == boards@[i]@.title
                &&& r@[i].id as int == (match boards@[i]@.id {
                    Some(v) => v,
                    None => 0,
                })
            },
{
    let mut r: Vec<BoardSummary> = Vec::new();
    let mut i: usize = 0;
    while i < boards.len()
        invariant
            0 <= i <= boards@.len(),
            r@.len() == i,
            forall|j: int|
                0 <= j < i ==> {
                    &&& (#[trigger] r@[j]).title@ == boards@[j]@.title
                    &&& r@[j].id as int == (match boards@[j]@.id {
                        Some(v) => v,
                        None => 0,
                    })
                },
        decreases boards@.len() - i,
    {
        let board = &boards[i];
        let id: i64 = match board.id {
            Some(v) => v,
            None => 0,
        };
        r.push(BoardSummary { title: board.title.clone(), id });
        i = i + 1;
    }
    r
}

/// Pick the board a lookup by identifier returned, applying the read
/// policy: the first row is visible when the requester owns it or it
/// is not soft-deleted; anything else is `NotFound`.
pub fn select_visible_board(boards: Vec<Board>, user: &UserContext) -> (r: Result<Board, AppError>)
    ensures
        match r {
            Ok(b) => {
                &&& boards@.len() > 0
                &&& b@ == boards@[0]@
                &&& spec_can_read(b@, user.user_id as int)
            },
            Err(e) => {
                &&& e is NotFound
                &&& (boards@.len() == 0 || !spec_can_read(boards@[0]@, user.user_id as int))
            },
        },
{
    let mut boards = boards;
    if boards.len() > 0 {
        let board = boards.remove(0);
        if board.created_by == user.user_id || !board.is_deleted() {
            return Ok(board);
        }
    }
    Err(AppError::NotFound)
}

/// What the title-update rule decides for a board and a requester.
pub open spec fn spec_update_board_check(board: BoardView, user_id: int) -> Result<(), AppError> {
    if board.id is None {
        Err(AppError::InvalidInput)
    } else if !spec_is_owner(board, user_id) {
        Err(AppError::Unauthorized)
    } else {
        Ok(())
    }
}

/// Update a board's title in place, if the rule allows it: the board
/// must be persisted (have an identifier) and the requester must own
/// it.  On refusal the board is untouched; the caller persists the
/// mutated board only on success.
pub fn update_board(user: &UserContext, board: &mut Board, new_title: String) -> (r: Result<
    (),
    AppError,
>)
    ensures
        r is Ok <==> spec_update_board_check(old(board)@, user.user_id as int) is Ok,
        r matches Err(e) ==> spec_update_board_check(old(board)@, user.user_id as int) == Err::<
            (),
            AppError,
        >(e),
        r is Ok ==> {
            &&& final(board)@.title == new_title@
            &&& final(board)@.id == old(board)@.id
            &&& final(board)@.created_by == old(board)@.created_by
            &&& final(board)@.created_at == old(board)@.created_at
            &&& final(board)@.deleted == old(board)@.deleted
        },
        r is Err ==> *final(board) == *old(board),
{
    if board.id.is_none() {
        return Err(AppError::InvalidInput);
    }
    match assert_owner(board, user) {
        Ok(()) => {
            board.update(new_title);
            Ok(())
        },
        Err(e) => Err(e),
    }
}

/// What the deletion rule decides for a looked-up board and a
/// requester.
pub open spec fn spec_delete_board_check(found: Option<BoardView>, user_id: int) -> Result<
    (),
    AppError,
> {
    match found {
        None => Err(AppError::NotFound),
        Some(b) => if !spec_is_owner(b, user_id) {
            Err(AppError::Unauthorized)
        } else {
            Ok(())
        },
    }
}

/// Decide a board deletion: the board must exist and the requester
/// must own it.  Only then may the caller issue the delete.
pub fn delete_board_check(found: &Option<Board>, user: &UserContext) -> (r: Result<(), AppError>)
    ensures
        r is Ok <==> spec_delete_board_check(
            match found {
                Some(b) => Some(b@),
                None => None,
            },
            user.user_id as int,
        ) is Ok,
        r matches Err(e) ==> spec_delete_board_check(
            match found {
                Some(b) => Some(b@),
                None => None,
            },
            user.user_id as int,
        ) == Err::<(), AppError>(e),
{
    match found {
        None => Err(AppError::NotFound),
        Some(b) => assert_owner(b, user),
    }
}

} // verus!
