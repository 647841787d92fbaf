//! Verified core of the TURZX 3.5" dashboard: frame buffers, dirty-region
//! tracking, the panel wire protocol, the `{{ variable }}` context, colour
//! specs, SVG path tokens, hardware-alert rules, the dashboard's sensor text,
//! MangoHud config management, and the Steam local-cache readers.

mod alerts;
mod backend;
mod color;
mod configedit;
mod context;
mod dashboard;
mod dirty;
mod frame;
mod keyvalues;
mod mangohud;
mod numbers;
mod nvidia;
mod panel;
mod pathdata;
mod preview;
mod protocol;
mod scenes;
mod settings;
mod steam;
mod text;

pub use alerts::{
    prio, select_showing, still_live, Alert, AlertConfig, Alerts, PanelOwner, Readings, Showing,
};
pub use backend::{find_panel_port, BackendError, PortInfo};
pub use color::{flat_of, PaintSpec, Rgba};
pub use configedit::{set_config_text, ConfigEditError, TomlRefusal};
pub use context::Context;
pub use dashboard::{
    dashboard_fields, fan_text, fps_text, frac_text, launch_subtitle, overlay, pct_text, progress_text,
    temp_text,
};
pub use dirty::DirtyTracker;
pub use frame::{Frame, Rect};
pub use keyvalues::{parse_kv, KvNode, KvVal};
pub use mangohud::{managed_config, output_folder_setting, strip_block, BEGIN, END, FOLDER_KEY};
pub use numbers::{parse_trimmed_i32, parse_trimmed_i64, parse_trimmed_u32, parse_trimmed_u64};
pub use nvidia::nvidia_fields;
pub use panel::{
    parse_orientation, Orientation, PanelLink, PANEL_HEIGHT, PANEL_WIDTH, TURZX_PID, TURZX_VID,
};
pub use pathdata::{path_commands, svg_path_data, Lexer, PathCmd};
pub use preview::{frame_file_name, PngBackend};
pub use protocol::{pack_coords, Command};
pub use scenes::{
    choose_scene_path, default_background, default_period, orient_scene_path, variant_path,
};
pub use settings::{check_key, settable_keys, GpuSel, Kind, LaunchStat, Panel};
pub use steam::{
    appid_from_environ, find_child, first_child, is_process_dir, keep_last, library_paths,
    lowest_id, manifest_file_name, manifest_name, parse_decimal, parse_schema_names,
    parse_unlocked, schema_file_name, stats_file_name, vdf_pair, Game, Launch, PollStep, Steam,
    Unlock,
};
