//! The rules of the DSH launcher.

pub mod backup;
pub mod backup_laws;
pub mod checks;
pub mod clock;
pub mod insert_laws;
pub mod json;
pub mod launch;
pub mod locate;
pub mod npm;
pub mod npm_laws;
pub mod numbers;
pub mod order;
pub mod patch;
pub mod patch_laws;
pub mod path;
pub mod place_laws;
pub mod plugin_laws;
pub mod plugin_ops;
pub mod plugin_ops_laws;
pub mod plugins;
pub mod process;
pub mod process_laws;
pub mod proxy;
pub mod proxy_laws;
pub mod restore;
pub mod restore_laws;
pub mod setting_laws;
pub mod settings;
pub mod text;
pub mod text_laws;
pub mod tray;
pub mod update;
pub mod update_laws;
pub mod util;
pub mod version;
