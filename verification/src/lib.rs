//! The decision logic of a desktop launcher for a Node.js web service.
pub mod text;
pub mod version;
pub mod calendar;
pub mod supervisor;
pub mod paths;
pub mod node;
pub mod runtime;
pub mod install;
pub mod orphan;
pub mod pnpm;
pub mod desktop;
