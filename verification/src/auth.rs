//! The authorization policy: ownership gates every board mutation,
//! while reads are deliberately wider.
//!
//! A board may be mutated or deleted only by its creator.  A board may
//! be read by its owner, or by any authenticated user as long as it is
//! not soft-deleted.  Ticket mutations are not separately checked
//! against the ticket's author: they inherit authorization through the
//! board they belong to, which callers must have checked first.

use vstd::prelude::*;
use crate::entities::board::{Board, BoardView};
use crate::errors::AppError;
use crate::request::UserContext;
use crate::services::boards::{spec_delete_board_check, spec_update_board_check};

verus! {

/// Ownership: the write-side policy.
pub open spec fn spec_is_owner(board: BoardView, user_id: int) -> bool {
    board.created_by == user_id
}

/// Visibility: the read-side policy, wider than ownership on purpose.
pub open spec fn spec_can_read(board: BoardView, user_id: int) -> bool {
    spec_is_owner(board, user_id) || !board.deleted
}

/// Permit a board mutation only when the requester created the board.
pub fn assert_owner(board: &Board, user: &UserContext) -> (r: Result<(), AppError>)
    ensures
        r is Ok <==> spec_is_owner(board@, user.user_id as int),
        r matches Err(e) ==> e is Unauthorized,
{
    if board.created_by == user.user_id {
        Ok(())
    } else {
        Err(AppError::Unauthorized)
    }
}

/// May this user read this board?
pub fn can_read(board: &Board, user: &UserContext) -> (r: bool)
    ensures
        r == spec_can_read(board@, user.user_id as int),
{
    board.created_by == user.user_id || !board.is_deleted()
}

/// Authorization law: a user who did not create a persisted board
/// receives `Unauthorized` from the update path and from the delete
/// path, whatever else the submitted payload holds.
pub proof fn lemma_non_owner_unauthorized(board: BoardView, user_id: int)
    requires
        board.id is Some,
        board.created_by != user_id,
    ensures
        !spec_is_owner(board, user_id),
        spec_update_board_check(board, user_id) == Err::<(), AppError>(AppError::Unauthorized),
        spec_delete_board_check(Some(board), user_id) == Err::<(), AppError>(AppError::Unauthorized),
{
}

} // verus!
