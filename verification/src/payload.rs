//! The wire shapes exchanged with clients.
//!
//! A submitted board snapshot carries a title, an optional board
//! identifier (absence means "create a new board"), and an ordered
//! collection of category lists.  Each submitted ticket holds either a
//! real identifier (an existing ticket), the sentinel zero identifier
//! (a new ticket), or no identifier at all.  These shapes are kept
//! strictly separate from the persisted entities; the reconciliation
//! engine maps between the two.

use vstd::prelude::*;

verus! {

/// Mathematical image of a submitted [`Ticket`] reference.
pub ghost struct TicketRefView {
    pub id: Option<int>,
    pub content: Seq<char>,
}

/// One ticket as submitted by a client: the optional identifier and
/// its free-text content.
#[derive(Debug, Clone)]
pub struct Ticket {
    pub id: Option<i64>,
    pub content: String,
}

impl View for Ticket {
    type V = TicketRefView;

    open spec fn view(&self) -> TicketRefView {
        TicketRefView {
            id: match self.id {
                Some(v) => Some(v as int),
                None => None,
            },
            content: self.content@,
        }
    }
}

/// Mathematical image of a [`List`].
pub ghost struct ListView {
    pub id: Seq<char>,
    pub category: Seq<char>,
    pub tickets: Seq<TicketRefView>,
}

/// One category list of a snapshot: its client-side identifier, the
/// category name, and the tickets filed under it, in submission order.
#[derive(Debug, Clone)]
pub struct List {
    pub id: String,
    pub category: String,
    pub tickets: Vec<Ticket>,
}

impl View for List {
    type V = ListView;

    open spec fn view(&self) -> ListView {
        ListView {
            id: self.id@,
            category: self.category@,
            tickets: self.tickets@.map_values(|t: Ticket| t@),
        }
    }
}

/// Mathematical image of a [`ProjectData`].
pub ghost struct ProjectDataView {
    pub id: Option<Seq<char>>,
    pub lists: Seq<ListView>,
}

/// The categorized ticket structure of a snapshot or an assembled
/// view: the optional board identifier rendered as text, and the
/// category lists in order.
#[derive(Debug, Clone)]
pub struct ProjectData {
    pub id: Option<String>,
    pub lists: Vec<List>,
}

impl View for ProjectData {
    type V = ProjectDataView;

    open spec fn view(&self) -> ProjectDataView {
        ProjectDataView {
            id: match self.id {
                Some(ref s) => Some(s@),
                None => None,
            },
            lists: self.lists@.map_values(|l: List| l@),
        }
    }
}

/// Mathematical image of a [`SavePayload`].
pub ghost struct SavePayloadView {
    pub project_data: ProjectDataView,
    pub title: Seq<char>,
    pub title_id: Option<Seq<char>>,
}

/// A full submitted snapshot: the categorized ticket structure, the
/// board title, and the optional board identifier.  An absent
/// `title_id` means a new board is to be created.
#[derive(Debug, Clone)]
pub struct SavePayload {
    pub project_data: ProjectData,
    pub title: String,
    pub title_id: Option<String>,
}

impl View for SavePayload {
    type V = SavePayloadView;

    open spec fn view(&self) -> SavePayloadView {
        SavePayloadView {
            project_data: self.project_data@,
            title: self.title@,
            title_id: match self.title_id {
                Some(ref s) => Some(s@),
                None => None,
            },
        }
    }
}

/// One line of the board listing: a board's title and identifier.
#[derive(Debug, Clone)]
pub struct BoardSummary {
    pub title: String,
    pub id: i64,
}

/// The categorized view of one board returned to clients: title,
/// identifier, and the tickets regrouped into the fixed category
/// lists.
#[derive(Debug, Clone)]
pub struct BoardTicketSummary {
    pub title: String,
    pub id: i64,
    pub project_data: ProjectData,
}

} // verus!
