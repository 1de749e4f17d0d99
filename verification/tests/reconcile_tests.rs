use kpt_back::entities::ticket::Ticket;
use kpt_back::errors::{AppError, TicketFailure};
use kpt_back::payload::{List, ProjectData, Ticket as TicketRef};
use kpt_back::reconcile::{
    aggregate_save_result, collect_received_ids, creation_plan, deletion_plan, plan_board_update,
    upsert_plan, TicketOp,
};
use kpt_back::request::UserContext;
use kpt_back::services::tickets::{
    cascade_delete_plan, delete_ticket_check, save_ticket_check, update_ticket_check,
};

fn list_of(category: &str, tickets: Vec<TicketRef>) -> List {
    List { id: String::from(category), category: String::from(category), tickets }
}

fn submitted(id: Option<i64>, content: &str) -> TicketRef {
    TicketRef { id, content: String::from(content) }
}

fn persisted(id: i64, category: &str, content: &str) -> Ticket {
    Ticket::new(Some(id), 7, 3, String::from(category), String::from(content), 0, 0)
}

#[test]
fn received_ids_skip_zero_and_absent() {
    let pd = ProjectData {
        id: None,
        lists: vec![
            list_of("Keep", vec![submitted(Some(0), "new"), submitted(Some(12), "upd")]),
            list_of("Try", vec![submitted(None, "noid"), submitted(Some(15), "upd2")]),
        ],
    };
    let mut ids = collect_received_ids(&pd);
    ids.sort();
    assert_eq!(ids, vec![12, 15]);
}

#[test]
fn deletion_plan_drops_unreceived_only() {
    let existing = vec![
        persisted(12, "Keep", "a"),
        persisted(15, "Try", "b"),
        persisted(20, "Problem", "c"),
    ];
    let received = vec![12, 20];
    assert_eq!(deletion_plan(&existing, &received), vec![15]);
}

#[test]
fn deletion_plan_unmatched_snapshot_deletes_everything() {
    let existing = vec![persisted(1, "Keep", "a"), persisted(2, "Try", "b")];
    assert_eq!(deletion_plan(&existing, &Vec::new()), vec![1, 2]);
}

#[test]
fn upserts_create_on_zero_and_update_otherwise() {
    let pd = ProjectData {
        id: None,
        lists: vec![list_of(
            "Keep",
            vec![submitted(Some(0), "A"), submitted(Some(12), "B"), submitted(None, "C")],
        )],
    };
    let ops = upsert_plan(&pd, 7, &UserContext { user_id: 3 });
    assert_eq!(ops.len(), 3);
    match &ops[0] {
        TicketOp::Create(t) => {
            assert_eq!(t.id, None);
            assert_eq!(t.board_id, 7);
            assert_eq!(t.author_id, 3);
            assert_eq!(t.category.as_str(), "Keep");
            assert_eq!(t.content.as_str(), "A");
        }
        TicketOp::Update(_) => panic!("sentinel zero must create"),
    }
    match &ops[1] {
        TicketOp::Update(t) => {
            assert_eq!(t.id, Some(12));
            assert_eq!(t.content.as_str(), "B");
            assert_eq!(t.category.as_str(), "Keep");
        }
        TicketOp::Create(_) => panic!("real identifier must update"),
    }
    match &ops[2] {
        TicketOp::Update(t) => {
            assert_eq!(t.id, None);
            assert!(update_ticket_check(t).is_err());
        }
        TicketOp::Create(_) => panic!("absent identifier goes to the update path"),
    }
}

#[test]
fn full_update_scenario() {
    // snapshot {title "Sprint 1", titleId "7", Keep: [{0,"A"}, {12,"B"}]}
    // against persisted tickets 12 and 15 of board 7
    let pd = ProjectData {
        id: Some(String::from("7")),
        lists: vec![list_of("Keep", vec![submitted(Some(0), "A"), submitted(Some(12), "B")])],
    };
    let existing = vec![persisted(12, "Keep", "old B"), persisted(15, "Try", "stale")];
    let plan = plan_board_update(&pd, &existing, 7, &UserContext { user_id: 3 });
    assert_eq!(plan.deletes, vec![15]);
    assert_eq!(plan.upserts.len(), 2);
    match &plan.upserts[0] {
        TicketOp::Create(t) => assert_eq!(t.content.as_str(), "A"),
        TicketOp::Update(_) => panic!("ticket A is new"),
    }
    match &plan.upserts[1] {
        TicketOp::Update(t) => {
            assert_eq!(t.id, Some(12));
            assert_eq!(t.content.as_str(), "B");
        }
        TicketOp::Create(_) => panic!("ticket 12 exists"),
    }
}

#[test]
fn creation_path_creates_everything() {
    // a snapshot without a board identifier creates every ticket anew
    let pd = ProjectData {
        id: None,
        lists: vec![
            list_of("Keep", vec![submitted(Some(12), "was an update"), submitted(Some(0), "new")]),
            list_of("Try", vec![submitted(None, "also new")]),
        ],
    };
    let tickets = creation_plan(&pd, 42, &UserContext { user_id: 3 });
    assert_eq!(tickets.len(), 3);
    for t in &tickets {
        assert_eq!(t.id, None);
        assert_eq!(t.board_id, 42);
        assert_eq!(t.author_id, 3);
        assert!(save_ticket_check(t).is_ok());
    }
    assert_eq!(tickets[0].content.as_str(), "was an update");
    assert_eq!(tickets[1].content.as_str(), "new");
    assert_eq!(tickets[2].content.as_str(), "also new");
}

#[test]
fn cascade_deletes_every_ticket_of_the_board() {
    let tickets = vec![
        persisted(1, "Keep", "a"),
        persisted(2, "Try", "b"),
        persisted(3, "Problem", "c"),
    ];
    assert_eq!(cascade_delete_plan(&tickets), vec![1, 2, 3]);
    // a ticket that never got an identifier cannot be deleted and is skipped
    let mut with_orphan = tickets;
    with_orphan.push(Ticket::create(7, 3, String::from("Keep"), String::from("unsaved")));
    assert_eq!(cascade_delete_plan(&with_orphan), vec![1, 2, 3]);
}

#[test]
fn ticket_checks() {
    let fresh = Ticket::create(7, 3, String::from("Keep"), String::from("x"));
    assert!(save_ticket_check(&fresh).is_ok());
    assert!(matches!(update_ticket_check(&fresh), Err(AppError::InvalidInput)));
    let stored = persisted(12, "Keep", "x");
    assert!(matches!(save_ticket_check(&stored), Err(AppError::InvalidInput)));
    assert!(update_ticket_check(&stored).is_ok());
    assert!(delete_ticket_check(&Some(stored)).is_ok());
    assert!(matches!(delete_ticket_check(&None), Err(AppError::NotFound)));
}

#[test]
fn aggregate_is_strict_on_board_lenient_on_tickets() {
    let failures = vec![TicketFailure { ticket_id: Some(99), reason: String::from("no row") }];
    let ok = aggregate_save_result(7, Ok(()), failures.clone());
    let summary = ok.unwrap();
    assert_eq!(summary.board_id, 7);
    assert_eq!(summary.failures.len(), 1);
    assert_eq!(summary.failures[0].ticket_id, Some(99));

    let err = aggregate_save_result(7, Err(AppError::Unauthorized), failures);
    assert!(matches!(err, Err(AppError::Unauthorized)));

    let storage = aggregate_save_result(7, Err(AppError::StorageFailure(String::from("down"))), Vec::new());
    assert!(matches!(storage, Err(AppError::StorageFailure(_))));
}

// A tiny in-memory board: execute a plan the way storage would, so the
// planner's end-to-end behavior can be observed on concrete values.
fn run_save(rows: &mut Vec<Ticket>, pd: &ProjectData, next_id: &mut i64) {
    let plan = plan_board_update(pd, &live_rows(rows), 7, &UserContext { user_id: 3 });
    for id in &plan.deletes {
        for row in rows.iter_mut() {
            if row.id == Some(*id) {
                row.delete();
            }
        }
    }
    for op in plan.upserts {
        match op {
            TicketOp::Create(t) => {
                let stored =
                    Ticket::new(Some(*next_id), t.board_id, t.author_id, t.category, t.content, 0, 0);
                *next_id += 1;
                rows.push(stored);
            }
            TicketOp::Update(t) => {
                if update_ticket_check(&t).is_ok() {
                    for row in rows.iter_mut() {
                        if row.id == t.id {
                            row.update(t.category.clone(), t.content.clone());
                        }
                    }
                }
            }
        }
    }
}

fn live_rows(rows: &Vec<Ticket>) -> Vec<Ticket> {
    rows.iter().filter(|r| !r.is_deleted()).cloned().collect()
}

fn live_contents(rows: &Vec<Ticket>) -> Vec<(String, String)> {
    let mut v: Vec<(String, String)> = live_rows(rows)
        .into_iter()
        .map(|r| (r.category, r.content))
        .collect();
    v.sort();
    v
}

#[test]
fn saving_the_same_snapshot_twice_is_idempotent() {
    let pd = ProjectData {
        id: Some(String::from("7")),
        lists: vec![
            list_of("Keep", vec![submitted(Some(0), "A"), submitted(Some(12), "B")]),
            list_of("Try", vec![submitted(Some(0), "C"), submitted(Some(99), "missing row")]),
        ],
    };
    let mut rows = vec![persisted(12, "Keep", "old"), persisted(15, "Try", "stale")];
    let mut next_id = 100;
    run_save(&mut rows, &pd, &mut next_id);
    let after_first = live_contents(&rows);
    run_save(&mut rows, &pd, &mut next_id);
    let after_second = live_contents(&rows);
    assert_eq!(after_first, after_second);
    assert_eq!(
        after_first,
        vec![
            (String::from("Keep"), String::from("A")),
            (String::from("Keep"), String::from("B")),
            (String::from("Try"), String::from("C")),
        ]
    );
}
