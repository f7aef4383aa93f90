//! A store of dashboard documents: identity, timestamps, file naming, and the
//! rules for creating, importing, updating and listing documents.
//!
//! The store keeps one JSON file per dashboard. This library decides what is
//! written and what is answered; reading and writing the files is left to
//! the caller, who hands over what the disk gave.

pub mod calendar;
pub mod dashboard;
pub mod errors;
pub mod identity;
pub mod json;
pub mod listing;
pub mod paths;
pub mod store;
pub mod text;
pub mod timestamp;

pub use dashboard::{CreateDashboardRequest, Dashboard, DashboardListItem, UpdateDashboardRequest};
pub use errors::{Fault, StoreError};
pub use listing::list_dashboards;
pub use paths::{get_dashboard_path, is_dashboard_file, DASHBOARDS_DIR};
pub use store::{
    create_dashboard, delete_dashboard, get_dashboard, import_dashboard, update_dashboard,
    FileRead,
};
pub use timestamp::get_now_iso;
