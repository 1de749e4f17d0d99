use kpt_back::entities::account::Account;
use kpt_back::entities::board::Board;
use kpt_back::entities::ticket::Ticket;
use kpt_back::services::accounts::{authenticate, SessionToken, SESSION_EXPIRY_SECONDS};

#[test]
fn account_create_hashes_and_verifies() {
    let account = Account::create("secret", "alice");
    assert_eq!(account.id, None);
    assert_eq!(account.display_name.as_str(), "alice");
    assert_ne!(account.hashed_password.as_str(), "secret");
    assert!(account.matches_password("secret"));
    assert!(!account.matches_password("wrong"));
    assert!(!account.matches_password(""));
}

#[test]
fn account_new_keeps_fields() {
    let account = Account::new(Some(9), String::from("$argon2$bogus"), String::from("bob"));
    assert_eq!(account.id(), Some(9));
    assert_eq!(account.display_name.as_str(), "bob");
    // a stored hash that does not parse matches no password
    assert!(!account.matches_password("anything"));
}

#[test]
fn authenticate_accepts_right_password_only() {
    let created = Account::create("pw1", "carol");
    let persisted = Account::new(Some(5), created.hashed_password, created.display_name);
    assert_eq!(authenticate(Some(persisted.clone()), "pw1"), Some(5));
    assert_eq!(authenticate(Some(persisted), "pw2"), None);
    assert_eq!(authenticate(None, "pw1"), None);
}

#[test]
fn session_token_cookie_shape() {
    let token = SessionToken::new(String::from("abc123"));
    assert_eq!(token.value(), "abc123");
    assert_eq!(
        token.cookie().as_str(),
        "rustwi_session=abc123; Max-Age=604800; Path=/; HttpOnly"
    );
    assert_eq!(SESSION_EXPIRY_SECONDS, 604800);
}

#[test]
fn board_lifecycle() {
    let mut board = Board::create(String::from("Sprint 1"), 3);
    assert_eq!(board.id(), None);
    assert_eq!(board.title(), "Sprint 1");
    assert_eq!(board.created_by, 3);
    assert!(!board.is_deleted());
    assert_eq!(board.created_at, board.updated_at);

    board.update(String::from("Sprint 2"));
    assert_eq!(board.title(), "Sprint 2");
    assert_eq!(board.id(), None);

    board.delete();
    assert!(board.is_deleted());
    assert_eq!(board.title(), "Sprint 2");
}

#[test]
fn board_new_keeps_fields() {
    let board = Board::new(Some(7), String::from("Retro"), 2, 100, 200);
    assert_eq!(board.id(), Some(7));
    assert_eq!(board.title(), "Retro");
    assert_eq!(board.created_by, 2);
    assert_eq!(board.created_at, 100);
    assert_eq!(board.updated_at, 200);
    assert!(!board.is_deleted());
}

#[test]
fn ticket_lifecycle() {
    let mut ticket = Ticket::create(7, 3, String::from("Keep"), String::from("ship it"));
    assert_eq!(ticket.id(), None);
    assert_eq!(ticket.board_id, 7);
    assert_eq!(ticket.author_id, 3);
    assert_eq!(ticket.category.as_str(), "Keep");
    assert_eq!(ticket.content.as_str(), "ship it");
    assert!(!ticket.is_deleted());
    assert_eq!(ticket.created_at, ticket.updated_at);

    ticket.update(String::from("Try"), String::from("pair more"));
    assert_eq!(ticket.category.as_str(), "Try");
    assert_eq!(ticket.content.as_str(), "pair more");
    assert_eq!(ticket.board_id, 7);

    ticket.delete();
    assert!(ticket.is_deleted());
}

#[test]
fn ticket_new_keeps_fields() {
    let ticket = Ticket::new(
        Some(12),
        7,
        3,
        String::from("Problem"),
        String::from("flaky tests"),
        10,
        20,
    );
    assert_eq!(ticket.id(), Some(12));
    assert_eq!(ticket.board_id, 7);
    assert_eq!(ticket.author_id, 3);
    assert_eq!(ticket.category.as_str(), "Problem");
    assert_eq!(ticket.content.as_str(), "flaky tests");
    assert_eq!(ticket.created_at, 10);
    assert_eq!(ticket.updated_at, 20);
    assert!(!ticket.is_deleted());
}
