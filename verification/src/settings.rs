//! The configuration's settable keys and the small enums it holds.

use vstd::prelude::*;

use crate::panel::Orientation;
use crate::text::{push_str, same_text};

verus! {

broadcast use vstd::string::group_string_axioms;

/// The kind of value a setting takes.
#[derive(Debug, Clone, Copy, PartialEq, Eq, Structural)]
pub enum Kind {
    Str,
    Bool,
    Int,
    Float,
}

/// The settable keys, `"table.field"` -> value kind.
pub open spec fn key_table() -> Seq<(Seq<char>, Kind)> {
    seq![
        ("panel.orientation"@, Kind::Str),
        ("sensors.gpu"@, Kind::Str),
        ("sensors.manage_mangohud"@, Kind::Bool),
        ("sensors.mangohud_log_dir"@, Kind::Str),
        ("sensors.fps_stale_secs"@, Kind::Float),
        ("sensors.fps_bar_max"@, Kind::Float),
        ("sensors.mangohud_prune_hours"@, Kind::Float),
        ("alerts.enabled"@, Kind::Bool),
        ("alerts.gpu_temp_c"@, Kind::Int),
        ("alerts.gpu_temp_clear_c"@, Kind::Int),
        ("alerts.vram_frac"@, Kind::Float),
        ("alerts.vram_frac_clear"@, Kind::Float),
        ("alerts.fan_min_rpm"@, Kind::Int),
        ("alerts.fan_clear_rpm"@, Kind::Int),
        ("alerts.min_secs"@, Kind::Float),
        ("steam.enabled"@, Kind::Bool),
        ("steam.achievement_secs"@, Kind::Float),
        ("steam.launch_animation"@, Kind::Bool),
        ("steam.launch_stat"@, Kind::Str),
    ]
}

/// The kind of the first entry of the table named `key`.
pub open spec fn kind_of(t: Seq<(Seq<char>, Kind)>, key: Seq<char>) -> Option<Kind>
    decreases t.len(),
{
    if t.len() == 0 {
        None
    } else if t[0].0 == key {
        Some(t[0].1)
    } else {
        kind_of(t.drop_first(), key)
    }
}

/// The settable keys in the order `config show` lists them.
pub fn settable_keys() -> (v: Vec<(&'static str, Kind)>)
    ensures
        v@.len() == key_table().len(),
        forall|i: int| 0 <= i < v@.len() ==> (#[trigger] v@[i]).0@ == key_table()[i].0 && v@[i].1
            == key_table()[i].1,
{
    let v = vec![
        ("panel.orientation", Kind::Str),
        ("sensors.gpu", Kind::Str),
        ("sensors.manage_mangohud", Kind::Bool),
        ("sensors.mangohud_log_dir", Kind::Str),
        ("sensors.fps_stale_secs", Kind::Float),
        ("sensors.fps_bar_max", Kind::Float),
        ("sensors.mangohud_prune_hours", Kind::Float),
        ("alerts.enabled", Kind::Bool),
        ("alerts.gpu_temp_c", Kind::Int),
        ("alerts.gpu_temp_clear_c", Kind::Int),
        ("alerts.vram_frac", Kind::Float),
        ("alerts.vram_frac_clear", Kind::Float),
        ("alerts.fan_min_rpm", Kind::Int),
        ("alerts.fan_clear_rpm", Kind::Int),
        ("alerts.min_secs", Kind::Float),
        ("steam.enabled", Kind::Bool),
        ("steam.achievement_secs", Kind::Float),
        ("steam.launch_animation", Kind::Bool),
        ("steam.launch_stat", Kind::Str),
    ];
    v
}

proof fn lemma_kind_of_index(t: Seq<(Seq<char>, Kind)>, key: Seq<char>, i: int)
    requires
        0 <= i <= t.len(),
        forall|j: int| 0 <= j < i ==> (#[trigger] t[j]).0 != key,
        i == t.len() || t[i].0 == key,
    ensures
        kind_of(t, key) == if i < t.len() {
            Some(t[i].1)
        } else {
            None::<Kind>
        },
    decreases t.len(),
{
    if t.len() > 0 && t[0].0 != key {
        assert forall|j: int| 0 <= j < i - 1 implies (#[trigger] t.drop_first()[j]).0 != key by {
            assert(t.drop_first()[j] == t[j + 1]);
        }
        lemma_kind_of_index(t.drop_first(), key, i - 1);
    }
}

/// The keys of `t[0..n]`, each on a line of its own indented by two spaces.
pub open spec fn key_lines(t: Seq<(Seq<char>, Kind)>, n: int) -> Seq<char>
    decreases n,
{
    if n <= 0 || n > t.len() {
        Seq::empty()
    } else {
        key_lines(t, n - 1) + "\n  "@ + t[n - 1].0
    }
}

/// The kind of setting `key` names; an unknown key is refused with the list of
/// known ones.
pub fn check_key(key: &str) -> (r: Result<Kind, String>)
    ensures
        match r {
            Ok(k) => kind_of(key_table(), key@) == Some(k),
            Err(m) => kind_of(key_table(), key@) is None && m@ == "unknown key `"@ + key@
                + "`. known keys:"@ + key_lines(key_table(), key_table().len() as int),
        },
{
    let keys = settable_keys();
    let mut i: usize = 0;
    while i < keys.len()
        invariant
            keys@.len() == key_table().len(),
            forall|j: int| 0 <= j < keys@.len() ==> (#[trigger] keys@[j]).0@ == key_table()[j].0 && keys@[j].1
                == key_table()[j].1,
            i <= keys@.len(),
            forall|j: int| 0 <= j < i ==> (#[trigger] key_table()[j]).0 != key@,
        decreases keys@.len() - i,
    {
        if same_text(keys[i].0, key) {
            proof {
                lemma_kind_of_index(key_table(), key@, i as int);
            }
            return Ok(keys[i].1);
        }
        i += 1;
    }
    proof {
        lemma_kind_of_index(key_table(), key@, i as int);
    }
    let mut msg = String::new();
    push_str(&mut msg, "unknown key `");
    push_str(&mut msg, key);
    push_str(&mut msg, "`. known keys:");
    let ghost head = msg@;
    let mut j: usize = 0;
    while j < keys.len()
        invariant
            keys@.len() == key_table().len(),
            forall|i: int| 0 <= i < keys@.len() ==> (#[trigger] keys@[i]).0@ == key_table()[i].0 && keys@[i].1
                == key_table()[i].1,
            j <= keys@.len(),
            msg@ == head + key_lines(key_table(), j as int),
        decreases keys@.len() - j,
    {
        push_str(&mut msg, "\n  ");
        push_str(&mut msg, keys[j].0);
        assert(msg@ =~= head + key_lines(key_table(), j + 1));
        j += 1;
    }
    Err(msg)
}

/// GPU data source for the dashboard.
#[derive(Debug, Clone, Copy, PartialEq, Eq, Structural)]
pub enum GpuSel {
    /// `nvidia-smi` if it works, else AMD sysfs.
    Auto,
    /// AMD render node `gpu_busy_percent` / `mem_info_vram_*` / amdgpu hwmon.
    Amd,
    /// `nvidia-smi --query-gpu`.
    Nvidia,
}

impl GpuSel {
    /// The lower-case name the configuration uses.
    pub fn name(self) -> (s: &'static str)
        ensures
            s@ == match self {
                GpuSel::Auto => "auto"@,
                GpuSel::Amd => "amd"@,
                GpuSel::Nvidia => "nvidia"@,
            },
    {
        match self {
            GpuSel::Auto => "auto",
            GpuSel::Amd => "amd",
            GpuSel::Nvidia => "nvidia",
        }
    }
}

/// The single stat shown on the launch card.
#[derive(Debug, Clone, Copy, PartialEq, Eq, Structural)]
pub enum LaunchStat {
    /// `X / Y SUCCES` for the game.
    Achievements,
    /// Just "STEAM".
    SteamOnly,
}

impl LaunchStat {
    /// The lower-case name the configuration uses.
    pub fn name(self) -> (s: &'static str)
        ensures
            s@ == match self {
                LaunchStat::Achievements => "achievements"@,
                LaunchStat::SteamOnly => "none"@,
            },
    {
        match self {
            LaunchStat::Achievements => "achievements",
            LaunchStat::SteamOnly => "none",
        }
    }
}

/// `[panel]` section.
#[derive(Debug, Clone, Copy, PartialEq, Eq, Structural)]
pub struct Panel {
    pub orientation: Orientation,
}

} // verus!
