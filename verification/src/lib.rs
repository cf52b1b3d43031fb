pub mod accounting;
pub mod api;
pub mod auth;
pub mod cli;
pub mod external;
pub mod model;
pub mod probe;
pub mod store;
pub mod text;
