pub mod cmd;
pub mod figma;
pub mod fixed;
pub mod kiwi;
pub mod remote;
pub mod schema;
pub mod text;
pub mod placement;
pub mod calendar;
