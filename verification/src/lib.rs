pub mod alert;
pub mod config;
pub mod df;
pub mod disk;
pub mod format;
pub mod history;
pub mod keyed_map;
pub mod mail;
pub mod report;
pub mod severity;
pub mod summary;
pub mod system;
pub mod text;
pub mod trend;
