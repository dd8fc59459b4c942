use vstd::prelude::*;

verus! {

/// Mathematical image of a stored todo item: what the contracts of the
/// store speak about.
pub ghost struct TodoView {
    pub id: int,
    pub title: Seq<char>,
    pub completed: bool,
    pub created_at: int,
}

/// A todo item as the store hands it out: a persisted row of the
/// `todos` table, with the generated `id` and the creation time
/// (Unix seconds) filled in.
#[derive(Debug)]
pub struct Todo {
    pub id: i64,
    pub title: String,
    pub completed: bool,
    pub created_at: i64,
}

impl View for Todo {
    type V = TodoView;

    open spec fn view(&self) -> TodoView {
        TodoView {
            id: self.id as int,
            title: self.title@,
            completed: self.completed,
            created_at: self.created_at as int,
        }
    }
}

/// Why an operation failed.
#[derive(Debug)]
pub enum TodoError {
    /// The id refers to no stored item, and the operation requires one.
    NotFound,
    /// The datastore could not execute a statement; the message carries
    /// the driver's words.
    Persistence(String),
    /// The datastore could not be opened or its schema could not be set
    /// up at startup.
    Initialization(String),
}

} // verus!
