pub mod api;
pub mod control_api;
pub mod folder_api;
pub mod folder_scan;
pub mod services_api;
