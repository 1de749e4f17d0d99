use kpt_back::assemble::assemble;
use kpt_back::entities::board::Board;
use kpt_back::entities::ticket::Ticket;

fn ticket_of(id: i64, category: &str, content: &str) -> Ticket {
    Ticket::new(Some(id), 7, 3, String::from(category), String::from(content), 0, 0)
}

#[test]
fn assemble_groups_by_fixed_categories_in_order() {
    let board = Board::new(Some(7), String::from("Retro"), 3, 0, 0);
    let tickets = vec![
        ticket_of(1, "Try", "t1"),
        ticket_of(2, "Keep", "k1"),
        ticket_of(3, "Problem", "p1"),
        ticket_of(4, "Keep", "k2"),
    ];
    let view = assemble(&board, &tickets);
    assert_eq!(view.id, 7);
    assert_eq!(view.title.as_str(), "Retro");
    assert_eq!(view.project_data.id.as_deref(), Some("7"));
    let lists = &view.project_data.lists;
    assert_eq!(lists.len(), 3);
    assert_eq!(lists[0].category.as_str(), "Keep");
    assert_eq!(lists[1].category.as_str(), "Problem");
    assert_eq!(lists[2].category.as_str(), "Try");
    // storage order kept within each category
    assert_eq!(lists[0].tickets.len(), 2);
    assert_eq!(lists[0].tickets[0].id, Some(2));
    assert_eq!(lists[0].tickets[0].content.as_str(), "k1");
    assert_eq!(lists[0].tickets[1].id, Some(4));
    assert_eq!(lists[0].tickets[1].content.as_str(), "k2");
    assert_eq!(lists[1].tickets.len(), 1);
    assert_eq!(lists[1].tickets[0].id, Some(3));
    assert_eq!(lists[2].tickets.len(), 1);
    assert_eq!(lists[2].tickets[0].id, Some(1));
}

#[test]
fn assemble_is_order_stable_across_calls() {
    let board = Board::new(Some(7), String::from("Retro"), 3, 0, 0);
    let tickets = vec![
        ticket_of(1, "Problem", "a"),
        ticket_of(2, "Keep", "b"),
        ticket_of(3, "Keep", "c"),
    ];
    let first = assemble(&board, &tickets);
    let second = assemble(&board, &tickets);
    assert_eq!(first.project_data.lists.len(), second.project_data.lists.len());
    for (l1, l2) in first.project_data.lists.iter().zip(second.project_data.lists.iter()) {
        assert_eq!(l1.category, l2.category);
        assert_eq!(l1.tickets.len(), l2.tickets.len());
        for (t1, t2) in l1.tickets.iter().zip(l2.tickets.iter()) {
            assert_eq!(t1.id, t2.id);
            assert_eq!(t1.content, t2.content);
        }
    }
}

#[test]
fn assemble_drops_unknown_categories() {
    let board = Board::new(Some(7), String::from("Retro"), 3, 0, 0);
    let tickets = vec![ticket_of(1, "Keep", "k"), ticket_of(2, "Other", "lost")];
    let view = assemble(&board, &tickets);
    let total: usize = view.project_data.lists.iter().map(|l| l.tickets.len()).sum();
    assert_eq!(total, 1);
    assert_eq!(view.project_data.lists[0].tickets[0].id, Some(1));
}

#[test]
fn assemble_board_without_identifier() {
    let board = Board::create(String::from("Fresh"), 3);
    let view = assemble(&board, &Vec::new());
    assert_eq!(view.id, 0);
    assert_eq!(view.project_data.id, None);
    assert_eq!(view.project_data.lists.len(), 3);
    assert!(view.project_data.lists.iter().all(|l| l.tickets.is_empty()));
}
