mod clock;
pub mod model;
pub mod store;
pub mod todo;
