pub mod actors;
pub mod api;
pub mod assertions;
pub mod cases;
pub mod filters;
pub mod loader;
pub mod prepare;
pub mod report;
pub mod runner;
pub mod settings;
pub mod types;
