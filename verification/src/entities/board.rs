//! The board entity: an owned, soft-deletable container of tickets.

use vstd::prelude::*;
use crate::clock::now_epoch_seconds;

verus! {

/// Mathematical image of a [`Board`].
pub ghost struct BoardView {
    pub id: Option<int>,
    pub title: Seq<char>,
    pub created_by: int,
    pub created_at: int,
    pub updated_at: int,
    pub deleted: bool,
}

/// A retrospective board.  `id` is absent until storage assigns one on
/// first persist; once assigned it never changes.  Destruction is the
/// soft-delete flag only: rows are never physically removed.
#[derive(Debug, Clone)]
pub struct Board {
    pub id: Option<i64>,
    pub title: String,
    pub created_by: i64,
    pub created_at: i64,
    pub updated_at: i64,
    pub deleted: bool,
}

impl View for Board {
    type V = BoardView;

    open spec fn view(&self) -> BoardView {
        BoardView {
            id: match self.id {
                Some(v) => Some(v as int),
                None => None,
            },
            title: self.title@,
            created_by: self.created_by as int,
            created_at: self.created_at as int,
            updated_at: self.updated_at as int,
            deleted: self.deleted,
        }
    }
}

impl Board {
    /// Rebuild a board from persisted fields, as storage hands them
    /// back.  A row read from storage is not marked deleted.
    pub fn new(
        id: Option<i64>,
        title: String,
        created_by: i64,
        created_at: i64,
        updated_at: i64,
    ) -> (board: Board)
        ensures
            board@ == (BoardView {
                id: match id {
                    Some(v) => Some(v as int),
                    None => None,
                },
                title: title@,
                created_by: created_by as int,
                created_at: created_at as int,
                updated_at: updated_at as int,
                deleted: false,
            }),
    {
        Board { id, title, created_by, created_at, updated_at, deleted: false }
    }

    /// A brand-new board owned by `created_by`, not yet persisted: no
    /// identifier, both timestamps set to the same current instant.
    pub fn create(title: String, created_by: i64) -> (board: Board)
        ensures
            board@.id is None,
            board@.title == title@,
            board@.created_by == created_by as int,
            board@.created_at == board@.updated_at,
            !board@.deleted,
    {
        let now = now_epoch_seconds();
        Board { id: None, title, created_by, created_at: now, updated_at: now, deleted: false }
    }

    /// Replace the title and refresh the update timestamp.  Everything
    /// else, the identifier above all, is untouched.
    pub fn update(&mut self, new_title: String)
        ensures
            final(self)@.title == new_title@,
            final(self)@.id == old(self)@.id,
            final(self)@.created_by == old(self)@.created_by,
            final(self)@.created_at == old(self)@.created_at,
            final(self)@.deleted == old(self)@.deleted,
    {
        self.title = new_title;
        self.updated_at = now_epoch_seconds();
    }

    pub fn id(&self) -> (r: Option<i64>)
        ensures
            r == self.id,
    {
        self.id
    }

    pub fn is_deleted(&self) -> (r: bool)
        ensures
            r == self@.deleted,
    {
        self.deleted
    }

    /// Soft-delete: set the flag and refresh the update timestamp.
    pub fn delete(&mut self)
        ensures
            final(self)@.deleted,
            final(self)@.id == old(self)@.id,
            final(self)@.title == old(self)@.title,
            final(self)@.created_by == old(self)@.created_by,
            final(self)@.created_at == old(self)@.created_at,
    {
        self.deleted = true;
        self.updated_at = now_epoch_seconds();
    }

    pub fn title(&self) -> (r: &str)
        ensures
            r@ == self@.title,
    {
        self.title.as_str()
    }
}

} // verus!
