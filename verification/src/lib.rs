pub mod text;
pub mod removal;
pub mod model;
pub mod syntax;
pub mod paths;
