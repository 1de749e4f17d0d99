//! The ticket entity: one categorized content item owned by a board.

use vstd::prelude::*;
use crate::clock::now_epoch_seconds;

verus! {

/// Mathematical image of a [`Ticket`].
pub ghost struct TicketView {
    pub id: Option<int>,
    pub board_id: int,
    pub author_id: int,
    pub category: Seq<char>,
    pub content: Seq<char>,
    pub created_at: int,
    pub updated_at: int,
    pub deleted: bool,
}

/// The fields of a ticket that the reconciliation logic decides on:
/// everything but the timestamps, which come from the wall clock and
/// are pinned down by no contract.
pub ghost struct TicketCore {
    pub id: Option<int>,
    pub board_id: int,
    pub author_id: int,
    pub category: Seq<char>,
    pub content: Seq<char>,
    pub deleted: bool,
}

impl TicketView {
    /// This ticket without its timestamps.
    pub open spec fn stable(self) -> TicketCore {
        TicketCore {
            id: self.id,
            board_id: self.board_id,
            author_id: self.author_id,
            category: self.category,
            content: self.content,
            deleted: self.deleted,
        }
    }
}

/// A ticket.  An absent `id` signals "not yet created"; every
/// persisted ticket belongs to exactly one board and is destroyed only
/// via the soft-delete flag.  The category is free text: the fixed
/// category set is enforced by the view assembler, not here.
#[derive(Debug, Clone)]
pub struct Ticket {
    pub id: Option<i64>,
    pub board_id: i64,
    pub author_id: i64,
    pub category: String,
    pub content: String,
    pub created_at: i64,
    pub updated_at: i64,
    pub deleted: bool,
}

impl View for Ticket {
    type V = TicketView;

    open spec fn view(&self) -> TicketView {
        TicketView {
            id: match self.id {
                Some(v) => Some(v as int),
                None => None,
            },
            board_id: self.board_id as int,
            author_id: self.author_id as int,
            category: self.category@,
            content: self.content@,
            created_at: self.created_at as int,
            updated_at: self.updated_at as int,
            deleted: self.deleted,
        }
    }
}

impl Ticket {
    /// Rebuild a ticket from persisted fields, as storage hands them
    /// back, or carry a submitted identifier into an update.  A ticket
    /// built this way is not marked deleted.
    pub fn new(
        id: Option<i64>,
        board_id: i64,
        author_id: i64,
        category: String,
        content: String,
        created_at: i64,
        updated_at: i64,
    ) -> (ticket: Ticket)
        ensures
            ticket@ == (TicketView {
                id: match id {
                    Some(v) => Some(v as int),
                    None => None,
                },
                board_id: board_id as int,
                author_id: author_id as int,
                category: category@,
                content: content@,
                created_at: created_at as int,
                updated_at: updated_at as int,
                deleted: false,
            }),
    {
        Ticket { id, board_id, author_id, category, content, created_at, updated_at, deleted: false }
    }

    /// A brand-new ticket, not yet persisted: no identifier, stamped
    /// with the current instant.
    pub fn create(board_id: i64, author_id: i64, category: String, content: String) -> (ticket: Ticket)
        ensures
            ticket@.stable() == (TicketCore {
                id: None,
                board_id: board_id as int,
                author_id: author_id as int,
                category: category@,
                content: content@,
                deleted: false,
            }),
            ticket@.created_at == ticket@.updated_at,
    {
        let now = now_epoch_seconds();
        Ticket {
            id: None,
            board_id,
            author_id,
            category,
            content,
            created_at: now,
            updated_at: now,
            deleted: false,
        }
    }

    /// Overwrite category and content in full and refresh the update
    /// timestamp; identifier and ownership are untouched.
    pub fn update(&mut self, new_category: String, new_content: String)
        ensures
            final(self)@.category == new_category@,
            final(self)@.content == new_content@,
            final(self)@.id == old(self)@.id,
            final(self)@.board_id == old(self)@.board_id,
            final(self)@.author_id == old(self)@.author_id,
            final(self)@.created_at == old(self)@.created_at,
            final(self)@.deleted == old(self)@.deleted,
    {
        self.category = new_category;
        self.content = new_content;
        self.updated_at = now_epoch_seconds();
    }

    pub fn id(&self) -> (r: Option<i64>)
        ensures
            r == self.id,
    {
        self.id
    }

    pub fn is_deleted(&self) -> (r: bool)
        ensures
            r == self@.deleted,
    {
        self.deleted
    }

    /// Soft-delete: set the flag; nothing else changes.
    pub fn delete(&mut self)
        ensures
            final(self)@ == (TicketView { deleted: true, ..old(self)@ }),
    {
        self.deleted = true;
    }
}

} // verus!
