//! Hardware alerts: decide which alert scene (if any) should own the panel now.
//!
//! Fixed precedence — fan-stopped > GPU thermal > VRAM saturation. Each alert
//! has a trigger threshold and a lower `*_clear` threshold (hysteresis); an
//! active alert holds for at least `min_millis` before the dashboard returns,
//! but a higher-precedence alert preempts immediately.
//!
//! Time is a monotonic millisecond count supplied by the caller; the VRAM
//! thresholds are fractions of the total expressed in parts per million.

use vstd::prelude::*;

verus! {

/// One poll of every sensor source. `None` = source missing or unreadable.
#[derive(Debug, Clone, Copy, PartialEq, Eq, Structural)]
pub struct Readings {
    pub gpu_pct: Option<u32>,
    pub gpu_temp_c: Option<i32>,
    pub cpu_pct: Option<u32>,
    pub cpu_temp_c: Option<i32>,
    pub vram_used: Option<u64>,
    pub vram_total: Option<u64>,
    /// In-game FPS, when a game is logging. `None` otherwise.
    pub fps: Option<u32>,
    /// Lowest reading across all fan tachs (0 = a stopped fan). `None` if the
    /// platform exposes no fan tach.
    pub fan_rpm: Option<u32>,
}

impl Readings {
    /// Nothing read.
    pub fn empty() -> (r: Self)
        ensures
            r == (Readings {
                gpu_pct: None,
                gpu_temp_c: None,
                cpu_pct: None,
                cpu_temp_c: None,
                vram_used: None,
                vram_total: None,
                fps: None,
                fan_rpm: None,
            }),
    {
        Readings {
            gpu_pct: None,
            gpu_temp_c: None,
            cpu_pct: None,
            cpu_temp_c: None,
            vram_used: None,
            vram_total: None,
            fps: None,
            fan_rpm: None,
        }
    }
}

/// The alerts, highest precedence first.
#[derive(Debug, Clone, Copy, PartialEq, Eq, Structural)]
pub enum Alert {
    Fan,
    GpuTemp,
    Vram,
}

/// Position in the precedence order (0 = highest).
pub open spec fn rank(a: Alert) -> nat {
    match a {
        Alert::Fan => 0,
        Alert::GpuTemp => 1,
        Alert::Vram => 2,
    }
}

/// Alert thresholds. `gpu_temp_c`, `vram_ppm` and `fan_min_rpm` of `0`
/// disable that alert.
#[derive(Debug, Clone, Copy, PartialEq, Eq, Structural)]
pub struct AlertConfig {
    pub enabled: bool,
    /// GPU edge temperature, degrees C.
    pub gpu_temp_c: i32,
    pub gpu_temp_clear_c: i32,
    /// VRAM used / total, in millionths.
    pub vram_ppm: u32,
    pub vram_clear_ppm: u32,
    /// Lowest fan tach, RPM — fires when a fan is below this.
    pub fan_min_rpm: u32,
    pub fan_clear_rpm: u32,
    /// Minimum time an alert stays up before the dashboard can return.
    pub min_millis: u64,
}

impl AlertConfig {
    /// The shipped thresholds: 85/80 C, 95%/90% VRAM, 400/600 RPM, 4 s.
    pub fn default() -> (c: Self)
        ensures
            c == (AlertConfig {
                enabled: true,
                gpu_temp_c: 85,
                gpu_temp_clear_c: 80,
                vram_ppm: 950_000,
                vram_clear_ppm: 900_000,
                fan_min_rpm: 400,
                fan_clear_rpm: 600,
                min_millis: 4000,
            }),
    {
        AlertConfig {
            enabled: true,
            gpu_temp_c: 85,
            gpu_temp_clear_c: 80,
            vram_ppm: 950_000,
            vram_clear_ppm: 900_000,
            fan_min_rpm: 400,
            fan_clear_rpm: 600,
            min_millis: 4000,
        }
    }
}

/// VRAM use is at least `ppm` millionths of the total (a known, non-zero total).
pub open spec fn vram_at_least(r: Readings, ppm: u32) -> bool {
    match (r.vram_used, r.vram_total) {
        (Some(u), Some(t)) => t > 0 && u * 1_000_000 >= ppm * t,
        _ => false,
    }
}

/// The reading is past the alert's trigger threshold (and the alert is on).
pub open spec fn triggered(c: AlertConfig, a: Alert, r: Readings) -> bool {
    match a {
        Alert::GpuTemp => c.gpu_temp_c > 0 && (r.gpu_temp_c matches Some(t) && t >= c.gpu_temp_c),
        Alert::Vram => c.vram_ppm > 0 && vram_at_least(r, c.vram_ppm),
        Alert::Fan => c.fan_min_rpm > 0 && (r.fan_rpm matches Some(v) && v < c.fan_min_rpm),
    }
}

/// The reading has not yet dropped back past the alert's clear threshold.
pub open spec fn sustained(c: AlertConfig, a: Alert, r: Readings) -> bool {
    match a {
        Alert::GpuTemp => r.gpu_temp_c matches Some(t) && t >= c.gpu_temp_clear_c,
        Alert::Vram => vram_at_least(r, c.vram_clear_ppm),
        Alert::Fan => r.fan_rpm matches Some(v) && v < c.fan_clear_rpm,
    }
}

/// Alert `a` wants the panel: over its trigger, or already showing and still
/// over its clear threshold.
pub open spec fn wants(c: AlertConfig, a: Alert, r: Readings, showing: Option<Alert>) -> bool {
    triggered(c, a, r) || (showing == Some(a) && sustained(c, a, r))
}

/// The highest-precedence alert that wants the panel.
pub open spec fn wanted(c: AlertConfig, r: Readings, showing: Option<Alert>) -> Option<Alert> {
    if wants(c, Alert::Fan, r, showing) {
        Some(Alert::Fan)
    } else if wants(c, Alert::GpuTemp, r, showing) {
        Some(Alert::GpuTemp)
    } else if wants(c, Alert::Vram, r, showing) {
        Some(Alert::Vram)
    } else {
        None
    }
}

/// Milliseconds from `since` to `now`; none when `now` is earlier.
pub open spec fn elapsed_ms(since: u64, now: u64) -> nat {
    if now >= since {
        (now - since) as nat
    } else {
        0
    }
}

/// At least `min` milliseconds have passed from `since` to `now`.
pub open spec fn held_for(since: u64, now: u64, min: u64) -> bool {
    elapsed_ms(since, now) >= min
}

/// The active alert (and since when) after one evaluation at `now`.
pub open spec fn next_active(c: AlertConfig, active: Option<(Alert, u64)>, r: Readings, now: u64) -> Option<
    (Alert, u64),
> {
    if !c.enabled {
        None
    } else {
        let showing = match active {
            Some((a, _)) => Some(a),
            None => None,
        };
        match (wanted(c, r, showing), active) {
            (Some(a), Some((cur, since))) => if a == cur {
                Some((cur, since))
            } else if rank(a) < rank(cur) || held_for(since, now, c.min_millis) {
                Some((a, now))
            } else {
                Some((cur, since))
            },
            (Some(a), None) => Some((a, now)),
            (None, Some((cur, since))) => if held_for(since, now, c.min_millis) {
                None
            } else {
                Some((cur, since))
            },
            (None, None) => None,
        }
    }
}

pub struct Alerts {
    cfg: AlertConfig,
    active: Option<(Alert, u64)>,
}

impl Alerts {
    pub closed spec fn config(&self) -> AlertConfig {
        self.cfg
    }

    /// The alert on the panel and when it took over.
    pub closed spec fn active(&self) -> Option<(Alert, u64)> {
        self.active
    }

    pub fn new(cfg: AlertConfig) -> (a: Self)
        ensures
            a.config() == cfg,
            a.active() is None,
    {
        Alerts { cfg, active: None }
    }

    /// Which alert should own the panel at `now` (`None` = show the dashboard).
    pub fn evaluate(&mut self, r: &Readings, now: u64) -> (shown: Option<Alert>)
        ensures
            final(self).config() == old(self).config(),
            final(self).active() == next_active(old(self).config(), old(self).active(), *r, now),
            shown == match final(self).active() {
                Some((a, _)) => Some(a),
                None => None,
            },
    {
        if !self.cfg.enabled {
            self.active = None;
            return None;
        }
        let showing = match self.active {
            Some((a, _)) => Some(a),
            None => None,
        };
        let want = self.wanted(r, showing);
        let min = self.cfg.min_millis;
        self.active = match (want, self.active) {
            (Some(a), Some((cur, since))) => {
                if a == cur {
                    Some((cur, since))
                } else if prio(a) < prio(cur) || held(since, now, min) {
                    Some((a, now))
                } else {
                    Some((cur, since))
                }
            },
            (Some(a), None) => Some((a, now)),
            (None, Some((cur, since))) => {
                if held(since, now, min) {
                    None
                } else {
                    Some((cur, since))
                }
            },
            (None, None) => None,
        };
        match self.active {
            Some((a, _)) => Some(a),
            None => None,
        }
    }

    fn wanted(&self, r: &Readings, showing: Option<Alert>) -> (w: Option<Alert>)
        ensures
            w == wanted(self.cfg, *r, showing),
    {
        if self.triggered(Alert::Fan, r) || (showing == Some(Alert::Fan) && self.sustained(Alert::Fan, r)) {
            Some(Alert::Fan)
        } else if self.triggered(Alert::GpuTemp, r) || (showing == Some(Alert::GpuTemp) && self.sustained(
            Alert::GpuTemp,
            r,
        )) {
            Some(Alert::GpuTemp)
        } else if self.triggered(Alert::Vram, r) || (showing == Some(Alert::Vram) && self.sustained(
            Alert::Vram,
            r,
        )) {
            Some(Alert::Vram)
        } else {
            None
        }
    }

    fn triggered(&self, a: Alert, r: &Readings) -> (b: bool)
        ensures
            b == triggered(self.cfg, a, *r),
    {
        let c = &self.cfg;
        match a {
            Alert::GpuTemp => c.gpu_temp_c > 0 && match r.gpu_temp_c {
                Some(t) => t >= c.gpu_temp_c,
                None => false,
            },
            Alert::Vram => c.vram_ppm > 0 && vram_over(r, c.vram_ppm),
            Alert::Fan => c.fan_min_rpm > 0 && match r.fan_rpm {
                Some(v) => v < c.fan_min_rpm,
                None => false,
            },
        }
    }

    fn sustained(&self, a: Alert, r: &Readings) -> (b: bool)
        ensures
            b == sustained(self.cfg, a, *r),
    {
        let c = &self.cfg;
        match a {
            Alert::GpuTemp => match r.gpu_temp_c {
                Some(t) => t >= c.gpu_temp_clear_c,
                None => false,
            },
            Alert::Vram => vram_over(r, c.vram_clear_ppm),
            Alert::Fan => match r.fan_rpm {
                Some(v) => v < c.fan_clear_rpm,
                None => false,
            },
        }
    }
}

fn held(since: u64, now: u64, min: u64) -> (b: bool)
    ensures
        b == held_for(since, now, min),
{
    let elapsed = if now >= since {
        now - since
    } else {
        0
    };
    elapsed >= min
}

/// Position in the precedence order (0 = highest).
pub fn prio(a: Alert) -> (p: usize)
    ensures
        p == rank(a),
{
    match a {
        Alert::Fan => 0,
        Alert::GpuTemp => 1,
        Alert::Vram => 2,
    }
}

fn vram_over(r: &Readings, ppm: u32) -> (b: bool)
    ensures
        b == vram_at_least(*r, ppm),
{
    match (r.vram_used, r.vram_total) {
        (Some(u), Some(t)) => {
            assert((ppm as u128) * (t as u128) <= 0xffff_ffff * 0xffff_ffff_ffff_ffffu128) by (nonlinear_arith)
                requires
                    ppm <= 0xffff_ffff,
                    t <= 0xffff_ffff_ffff_ffffu64,
            ;
            t > 0 && (u as u128) * 1_000_000 >= (ppm as u128) * (t as u128)
        },
        _ => false,
    }
}

/// Once shown, an alert stays while its reading is between the clear and the
/// trigger threshold and nothing of higher precedence fires (hysteresis).
pub proof fn lemma_hysteresis_holds(c: AlertConfig, a: Alert, since: u64, r: Readings, now: u64)
    requires
        c.enabled,
        sustained(c, a, r),
        forall|b: Alert| rank(b) < rank(a) ==> !triggered(c, b, r),
    ensures
        next_active(c, Some((a, since)), r, now) == Some((a, since)),
{
}

/// With nothing shown, a fan slower than `fan_min_rpm` (a non-zero limit)
/// takes the panel from `now`.
pub proof fn lemma_slow_fan_fires(c: AlertConfig, r: Readings, now: u64, rpm: u32)
    requires
        c.enabled,
        c.fan_min_rpm > 0,
        r.fan_rpm == Some(rpm),
        rpm < c.fan_min_rpm,
    ensures
        next_active(c, None, r, now) == Some((Alert::Fan, now)),
{
}

/// With nothing shown and no fan alert firing, a GPU at or over
/// `gpu_temp_c` (a positive limit) takes the panel from `now`.
pub proof fn lemma_hot_gpu_fires(c: AlertConfig, r: Readings, now: u64, t: i32)
    requires
        c.enabled,
        c.gpu_temp_c > 0,
        r.gpu_temp_c == Some(t),
        t >= c.gpu_temp_c,
        c.fan_min_rpm == 0 || r.fan_rpm is None || r.fan_rpm.unwrap() >= c.fan_min_rpm,
    ensures
        next_active(c, None, r, now) == Some((Alert::GpuTemp, now)),
{
}

/// A shown fan alert that has been up `min_millis` ends once every fan
/// reads at least `fan_clear_rpm` and nothing else is over its trigger.
pub proof fn lemma_fan_alert_clears(c: AlertConfig, since: u64, r: Readings, now: u64, rpm: u32)
    requires
        c.enabled,
        r.fan_rpm == Some(rpm),
        rpm >= c.fan_clear_rpm,
        rpm >= c.fan_min_rpm,
        now >= since + c.min_millis,
        c.gpu_temp_c <= 0 || r.gpu_temp_c is None || r.gpu_temp_c.unwrap() < c.gpu_temp_c,
        c.vram_ppm == 0 || r.vram_used is None || r.vram_total is None || r.vram_total.unwrap() == 0
            || r.vram_used.unwrap() * 1_000_000 < c.vram_ppm * r.vram_total.unwrap(),
    ensures
        next_active(c, Some((Alert::Fan, since)), r, now) is None,
{
}

/// A shown fan alert stays, with its start time, while the slowest fan
/// reads below `fan_clear_rpm`: between the trigger and the clear speed
/// the alert holds.
pub proof fn lemma_fan_alert_holds(c: AlertConfig, since: u64, r: Readings, now: u64, rpm: u32)
    requires
        c.enabled,
        r.fan_rpm == Some(rpm),
        rpm < c.fan_clear_rpm,
    ensures
        next_active(c, Some((Alert::Fan, since)), r, now) == Some((Alert::Fan, since)),
{
}

/// A shown GPU temperature alert stays while the GPU reads at least
/// `gpu_temp_clear_c` and no fan alert fires.
pub proof fn lemma_gpu_alert_holds(c: AlertConfig, since: u64, r: Readings, now: u64, t: i32)
    requires
        c.enabled,
        r.gpu_temp_c == Some(t),
        t >= c.gpu_temp_clear_c,
        c.fan_min_rpm == 0 || r.fan_rpm is None || r.fan_rpm.unwrap() >= c.fan_min_rpm,
    ensures
        next_active(c, Some((Alert::GpuTemp, since)), r, now) == Some((Alert::GpuTemp, since)),
{
}

/// A shown VRAM alert stays while use is at least `vram_clear_ppm`
/// millionths of the total and neither a fan nor a GPU temperature alert
/// fires.
pub proof fn lemma_vram_alert_holds(c: AlertConfig, since: u64, r: Readings, now: u64, used: u64, total: u64)
    requires
        c.enabled,
        r.vram_used == Some(used),
        r.vram_total == Some(total),
        total > 0,
        used * 1_000_000 >= c.vram_clear_ppm * total,
        c.fan_min_rpm == 0 || r.fan_rpm is None || r.fan_rpm.unwrap() >= c.fan_min_rpm,
        c.gpu_temp_c <= 0 || r.gpu_temp_c is None || r.gpu_temp_c.unwrap() < c.gpu_temp_c,
    ensures
        next_active(c, Some((Alert::Vram, since)), r, now) == Some((Alert::Vram, since)),
{
}

/// A higher-precedence alert that fires takes the panel at once, however
/// recently the current one started.
pub proof fn lemma_higher_precedence_preempts(c: AlertConfig, cur: Alert, since: u64, b: Alert, r: Readings, now: u64)
    requires
        c.enabled,
        triggered(c, b, r),
        rank(b) < rank(cur),
        forall|x: Alert| rank(x) < rank(b) ==> !triggered(c, x, r),
    ensures
        next_active(c, Some((cur, since)), r, now) == Some((b, now)),
{
}

/// With nothing over its threshold, the shown alert stays until it has been
/// up `min_millis`, then the dashboard returns.
pub proof fn lemma_min_time_then_clear(c: AlertConfig, cur: Alert, since: u64, r: Readings, now: u64)
    requires
        c.enabled,
        forall|x: Alert| !triggered(c, x, r),
        !sustained(c, cur, r),
    ensures
        next_active(c, Some((cur, since)), r, now) == if held_for(since, now, c.min_millis) {
            None
        } else {
            Some((cur, since))
        },
{
}

/// A disabled configuration never shows an alert.
pub proof fn lemma_disabled_never_alerts(c: AlertConfig, active: Option<(Alert, u64)>, r: Readings, now: u64)
    requires
        !c.enabled,
    ensures
        next_active(c, active, r, now) is None,
{
}

/// What owns the panel in the steady state.
#[derive(Debug, Clone, Copy, PartialEq, Eq, Structural)]
pub enum Showing {
    Dashboard,
    Alert(Alert),
    Launch,
    Achievement,
}

/// Precedence of what owns the panel: a hardware alert, then the launch card,
/// then the achievement popup, else the dashboard.
pub fn select_showing(hw: Option<Alert>, launch_live: bool, achievement_live: bool) -> (s: Showing)
    ensures
        s == match hw {
            Some(a) => Showing::Alert(a),
            None => if launch_live {
                Showing::Launch
            } else if achievement_live {
                Showing::Achievement
            } else {
                Showing::Dashboard
            },
        },
{
    match (hw, launch_live, achievement_live) {
        (Some(a), _, _) => Showing::Alert(a),
        (None, true, _) => Showing::Launch,
        (None, false, true) => Showing::Achievement,
        (None, false, false) => Showing::Dashboard,
    }
}

/// The precedence `select_showing` applies.
pub open spec fn wanted_showing(hw: Option<Alert>, launch_live: bool, achievement_live: bool) -> Showing {
    match hw {
        Some(a) => Showing::Alert(a),
        None => if launch_live {
            Showing::Launch
        } else if achievement_live {
            Showing::Achievement
        } else {
            Showing::Dashboard
        },
    }
}

/// What owns the panel, and since when (milliseconds): the clock its scene
/// plays from.
#[derive(Debug, Clone, Copy, PartialEq, Eq, Structural)]
pub struct PanelOwner {
    pub showing: Showing,
    pub since: u64,
}

impl PanelOwner {
    /// The dashboard, from `now`.
    pub fn new(now: u64) -> (o: PanelOwner)
        ensures
            o == (PanelOwner { showing: Showing::Dashboard, since: now }),
    {
        PanelOwner { showing: Showing::Dashboard, since: now }
    }

    /// One sensor poll at `now`: the panel goes to what the precedence
    /// picks, and a scene that takes over starts its clock at `now`; one that
    /// keeps the panel keeps its clock. Tells whether the owner changed.
    pub fn poll(&mut self, hw: Option<Alert>, launch_live: bool, achievement_live: bool, now: u64) -> (changed: bool)
        ensures
            final(self).showing == wanted_showing(hw, launch_live, achievement_live),
            changed == (final(self).showing != old(self).showing),
            final(self).since == if changed {
                now
            } else {
                old(self).since
            },
    {
        let want = select_showing(hw, launch_live, achievement_live);
        if want != self.showing {
            self.showing = want;
            self.since = now;
            true
        } else {
            false
        }
    }
}

/// An overlay that started at `started` is still up at `now` when less than
/// `span` milliseconds have passed (none have, when `now` is earlier).
pub fn still_live(started: u64, now: u64, span: u64) -> (b: bool)
    ensures
        b == (elapsed_ms(started, now) < span),
{
    let elapsed = if now >= started {
        now - started
    } else {
        0
    };
    elapsed < span
}

} // verus!
