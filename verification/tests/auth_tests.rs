use kpt_back::auth::{assert_owner, can_read};
use kpt_back::entities::board::Board;
use kpt_back::errors::AppError;
use kpt_back::request::UserContext;
use kpt_back::services::boards::{
    board_summaries, delete_board_check, select_visible_board, update_board,
};

fn board_of(id: Option<i64>, title: &str, owner: i64) -> Board {
    Board::new(id, String::from(title), owner, 0, 0)
}

#[test]
fn owner_check_passes_for_creator_only() {
    let board = board_of(Some(7), "Retro", 3);
    assert!(assert_owner(&board, &UserContext { user_id: 3 }).is_ok());
    assert!(matches!(
        assert_owner(&board, &UserContext { user_id: 4 }),
        Err(AppError::Unauthorized)
    ));
}

#[test]
fn read_policy_is_owner_or_not_deleted() {
    let live = board_of(Some(7), "Retro", 3);
    assert!(can_read(&live, &UserContext { user_id: 3 }));
    assert!(can_read(&live, &UserContext { user_id: 4 }));

    let mut gone = board_of(Some(8), "Old", 3);
    gone.delete();
    assert!(can_read(&gone, &UserContext { user_id: 3 }));
    assert!(!can_read(&gone, &UserContext { user_id: 4 }));
}

#[test]
fn update_board_requires_identifier() {
    let mut board = board_of(None, "Retro", 3);
    let r = update_board(&UserContext { user_id: 3 }, &mut board, String::from("New"));
    assert!(matches!(r, Err(AppError::InvalidInput)));
    assert_eq!(board.title(), "Retro");
}

#[test]
fn update_board_rejects_non_owner() {
    let mut board = board_of(Some(7), "Retro", 3);
    let r = update_board(&UserContext { user_id: 4 }, &mut board, String::from("Mine now"));
    assert!(matches!(r, Err(AppError::Unauthorized)));
    assert_eq!(board.title(), "Retro");
}

#[test]
fn update_board_updates_for_owner() {
    let mut board = board_of(Some(7), "Retro", 3);
    let r = update_board(&UserContext { user_id: 3 }, &mut board, String::from("Sprint 1"));
    assert!(r.is_ok());
    assert_eq!(board.title(), "Sprint 1");
    assert_eq!(board.id(), Some(7));
}

#[test]
fn delete_board_check_cases() {
    assert!(matches!(
        delete_board_check(&None, &UserContext { user_id: 3 }),
        Err(AppError::NotFound)
    ));
    let board = board_of(Some(7), "Retro", 3);
    assert!(matches!(
        delete_board_check(&Some(board_of(Some(7), "Retro", 3)), &UserContext { user_id: 4 }),
        Err(AppError::Unauthorized)
    ));
    assert!(delete_board_check(&Some(board), &UserContext { user_id: 3 }).is_ok());
}

#[test]
fn select_visible_board_cases() {
    // no row at all
    assert!(matches!(
        select_visible_board(Vec::new(), &UserContext { user_id: 3 }),
        Err(AppError::NotFound)
    ));
    // a live board is visible to anyone
    let r = select_visible_board(vec![board_of(Some(7), "Retro", 3)], &UserContext { user_id: 4 });
    assert_eq!(r.unwrap().id(), Some(7));
    // a deleted board stays visible to its owner ...
    let mut gone = board_of(Some(8), "Old", 3);
    gone.delete();
    let r = select_visible_board(vec![gone], &UserContext { user_id: 3 });
    assert_eq!(r.unwrap().id(), Some(8));
    // ... and hidden from everyone else
    let mut gone2 = board_of(Some(8), "Old", 3);
    gone2.delete();
    assert!(matches!(
        select_visible_board(vec![gone2], &UserContext { user_id: 4 }),
        Err(AppError::NotFound)
    ));
}

#[test]
fn board_summaries_project_title_and_id() {
    let boards = vec![board_of(Some(7), "A", 1), board_of(None, "B", 1)];
    let summaries = board_summaries(&boards);
    assert_eq!(summaries.len(), 2);
    assert_eq!(summaries[0].id, 7);
    assert_eq!(summaries[0].title.as_str(), "A");
    assert_eq!(summaries[1].id, 0);
    assert_eq!(summaries[1].title.as_str(), "B");
}

#[test]
fn error_messages() {
    assert_eq!(AppError::InvalidInput.message().as_str(), "titleId is invalid");
    assert_eq!(AppError::NotFound.message().as_str(), "Board not found or access denied");
    assert_eq!(AppError::Unauthorized.message().as_str(), "Unauthorized");
    assert_eq!(
        AppError::StorageFailure(String::from("db down")).message().as_str(),
        "db down"
    );
}
