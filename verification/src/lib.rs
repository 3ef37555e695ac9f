pub mod text;
pub mod backend_api;
pub mod config;
pub mod wm;
pub mod wm_manager;
pub mod workspace_types;
pub mod workspaces;
pub mod tiling_layout;
pub mod snap;
pub mod tiling;
pub mod core_types;
pub mod registry;
pub mod lifecycle;
pub mod protocol;
pub mod session;
pub mod backend_x11;
pub mod chrome;
pub mod shortcuts;
pub mod workspace_bar;
pub mod assets;
pub mod session_runtime;
pub mod paths;
pub mod ui_core;
pub mod registry_laws;
pub mod workspace_bar_paint;
pub mod workspace_bar_x11;
pub mod ui_keys;
