//! The text the dashboard and alert scenes show for sensor readings. Values
//! are space-padded to a fixed width so the bitmap font lines them up under a
//! fixed `x`. Fractions for bars are left to the caller.

use vstd::prelude::*;

use crate::alerts::{Alert, AlertConfig, Readings};
use crate::context::Context;
use crate::settings::LaunchStat;
use crate::text::{decimal_chars, decimal_len, digit_char, push_char, push_decimal, push_str};

verus! {

broadcast use vstd::string::group_string_axioms;

/// `n` spaces.
pub open spec fn spaces(n: int) -> Seq<char> {
    Seq::new(if n > 0 { n as nat } else { 0 }, |i: int| ' ')
}

/// Right-aligned in a field of three.
pub open spec fn pad3(s: Seq<char>) -> Seq<char> {
    spaces(3 - s.len()) + s
}

/// `n` in decimal, with a `-` when negative.
pub open spec fn signed_chars(n: int) -> Seq<char> {
    if n < 0 {
        seq!['-'] + decimal_chars((-n) as nat)
    } else {
        decimal_chars(n as nat)
    }
}

pub open spec fn degrees() -> Seq<char> {
    seq!['\u{b0}', 'C']
}

/// A load: `{:>3}%` of the value capped at 999, or `  -%`.
pub open spec fn pct_chars(v: Option<u32>) -> Seq<char> {
    match v {
        Some(n) => pad3(decimal_chars(if n <= 999 { n as nat } else { 999 })) + seq!['%'],
        None => seq![' ', ' ', '-', '%'],
    }
}

/// A temperature: `{:>3}°C`, or `  -°C`.
pub open spec fn temp_chars(v: Option<i32>) -> Seq<char> {
    match v {
        Some(n) => pad3(signed_chars(n as int)) + degrees(),
        None => seq![' ', ' ', '-'] + degrees(),
    }
}

/// Frames per second: `{:>3}`, or `  -`.
pub open spec fn fps_chars(v: Option<u32>) -> Seq<char> {
    match v {
        Some(f) => pad3(decimal_chars(f as nat)),
        None => seq![' ', ' ', '-'],
    }
}

/// A fan speed: `<n> RPM`, or `-`.
pub open spec fn fan_chars(v: Option<u32>) -> Seq<char> {
    match v {
        Some(r) => decimal_chars(r as nat) + seq![' ', 'R', 'P', 'M'],
        None => seq!['-'],
    }
}

fn push_spaces(out: &mut String, n: usize)
    requires
        n <= 3,
    ensures
        final(out)@ == old(out)@ + spaces(n as int),
{
    let mut i: usize = 0;
    while i < n
        invariant
            i <= n <= 3,
            out@ == old(out)@ + spaces(i as int),
        decreases n - i,
    {
        push_char(out, ' ');
        assert(spaces(i + 1) =~= spaces(i as int).push(' '));
        i += 1;
    }
}

/// Appends `n` in decimal, signed.
fn push_signed(out: &mut String, n: i32)
    ensures
        final(out)@ == old(out)@ + signed_chars(n as int),
{
    if n < 0 {
        push_char(out, '-');
        let m = (0i64 - n as i64) as u32;
        push_decimal(out, m);
        assert(old(out)@.push('-') + decimal_chars(m as nat) =~= old(out)@ + signed_chars(n as int));
    } else {
        push_decimal(out, n as u32);
    }
}

fn signed_len(n: i32) -> (k: usize)
    ensures
        k == signed_chars(n as int).len(),
{
    if n < 0 {
        1 + decimal_len((0i64 - n as i64) as u32)
    } else {
        decimal_len(n as u32)
    }
}

/// A load as a bar fraction, to three places: `0.000` to `1.000`, a load
/// over 100 % counting as full and a missing one as empty.
pub open spec fn frac_chars(v: Option<u32>) -> Seq<char> {
    let n: nat = match v {
        Some(x) => if x >= 100 {
            100
        } else {
            x as nat
        },
        None => 0,
    };
    if n >= 100 {
        seq!['1', '.', '0', '0', '0']
    } else {
        seq!['0', '.', digit_char(n / 10), digit_char(n % 10), '0']
    }
}

/// A load's bar fraction for the dashboard.
pub fn frac_text(v: Option<u32>) -> (s: String)
    ensures
        s@ == frac_chars(v),
{
    let n: u32 = match v {
        Some(x) => if x >= 100 {
            100
        } else {
            x
        },
        None => 0,
    };
    let mut s = String::new();
    if n >= 100 {
        push_char(&mut s, '1');
        push_char(&mut s, '.');
        push_char(&mut s, '0');
        push_char(&mut s, '0');
        push_char(&mut s, '0');
    } else {
        push_char(&mut s, '0');
        push_char(&mut s, '.');
        push_char(&mut s, ((n / 10) as u8 + 48) as char);
        push_char(&mut s, ((n % 10) as u8 + 48) as char);
        push_char(&mut s, '0');
    }
    assert(s@ =~= frac_chars(v));
    s
}

/// A load for the dashboard.
pub fn pct_text(v: Option<u32>) -> (s: String)
    ensures
        s@ == pct_chars(v),
{
    let mut s = String::new();
    match v {
        Some(n) => {
            let m = if n <= 999 {
                n
            } else {
                999
            };
            push_spaces(&mut s, 3 - decimal_len(m));
            push_decimal(&mut s, m);
            push_char(&mut s, '%');
            assert(s@ =~= pct_chars(v));
        },
        None => {
            push_str(&mut s, "  -%");
            proof {
                reveal_strlit("  -%");
            }
            assert(s@ =~= pct_chars(v));
        },
    }
    s
}

/// A temperature for the dashboard.
pub fn temp_text(v: Option<i32>) -> (s: String)
    ensures
        s@ == temp_chars(v),
{
    let mut s = String::new();
    match v {
        Some(n) => {
            let k = signed_len(n);
            if k < 3 {
                push_spaces(&mut s, 3 - k);
            }
            push_signed(&mut s, n);
            push_char(&mut s, '\u{b0}');
            push_char(&mut s, 'C');
            assert(s@ =~= temp_chars(v));
        },
        None => {
            push_str(&mut s, "  -");
            proof {
                reveal_strlit("  -");
            }
            push_char(&mut s, '\u{b0}');
            push_char(&mut s, 'C');
            assert(s@ =~= temp_chars(v));
        },
    }
    s
}

/// Frames per second for the dashboard.
pub fn fps_text(v: Option<u32>) -> (s: String)
    ensures
        s@ == fps_chars(v),
{
    let mut s = String::new();
    match v {
        Some(f) => {
            let k = decimal_len(f);
            if k < 3 {
                push_spaces(&mut s, 3 - k);
            }
            push_decimal(&mut s, f);
            assert(s@ =~= fps_chars(v));
        },
        None => {
            push_str(&mut s, "  -");
            proof {
                reveal_strlit("  -");
            }
            assert(s@ =~= fps_chars(v));
        },
    }
    s
}

/// A fan speed for the dashboard.
pub fn fan_text(v: Option<u32>) -> (s: String)
    ensures
        s@ == fan_chars(v),
{
    let mut s = String::new();
    match v {
        Some(r) => {
            push_decimal(&mut s, r);
            push_str(&mut s, " RPM");
            proof {
                reveal_strlit(" RPM");
            }
            assert(s@ =~= fan_chars(v));
        },
        None => {
            push_char(&mut s, '-');
            assert(s@ =~= fan_chars(v));
        },
    }
    s
}

/// The dashboard's slots that hold whole numbers.
pub open spec fn dashboard_slots(r: Readings) -> Map<Seq<char>, Seq<char>> {
    Map::empty().insert("gpu.pct"@, pct_chars(r.gpu_pct)).insert("cpu.pct"@, pct_chars(r.cpu_pct)).insert(
        "gpu.temp"@,
        temp_chars(r.gpu_temp_c),
    ).insert("cpu.temp"@, temp_chars(r.cpu_temp_c)).insert("fps"@, fps_chars(r.fps)).insert(
        "fan.rpm"@,
        fan_chars(r.fan_rpm),
    ).insert("gpu.frac"@, frac_chars(r.gpu_pct)).insert("cpu.frac"@, frac_chars(r.cpu_pct))
}

/// A context holding the dashboard's whole-number slots for `r`: loads and
/// their bar fractions, temperatures, FPS and fan speed.
pub fn dashboard_fields(r: &Readings) -> (c: Context)
    ensures
        c.wf(),
        c@ == dashboard_slots(*r),
{
    let mut c = Context::new();
    c.set("gpu.pct", pct_text(r.gpu_pct).as_str());
    c.set("cpu.pct", pct_text(r.cpu_pct).as_str());
    c.set("gpu.temp", temp_text(r.gpu_temp_c).as_str());
    c.set("cpu.temp", temp_text(r.cpu_temp_c).as_str());
    c.set("fps", fps_text(r.fps).as_str());
    c.set("fan.rpm", fan_text(r.fan_rpm).as_str());
    c.set("gpu.frac", frac_text(r.gpu_pct).as_str());
    c.set("cpu.frac", frac_text(r.cpu_pct).as_str());
    c
}

/// The alert scene's slots for alert `a` that need no fractions: all of the
/// fan alert's, the GPU alert's but its bar fraction, and the VRAM alert's
/// title, label and action.
pub open spec fn alert_slots(a: Alert, r: Readings, cfg: AlertConfig) -> Map<Seq<char>, Seq<char>> {
    match a {
        Alert::GpuTemp => Map::empty().insert("alert.title"@, "! ALERTE THERMIQUE"@).insert(
            "alert.label"@,
            "GPU TEMP"@,
        ).insert(
            "alert.value"@,
            signed_chars(
                match r.gpu_temp_c {
                    Some(t) => t as int,
                    None => 0,
                },
            ) + degrees(),
        ).insert("alert.threshold"@, "SEUIL "@ + signed_chars(cfg.gpu_temp_c as int) + degrees()).insert(
            "alert.action"@,
            "VENTILATION 100%"@,
        ),
        Alert::Vram => Map::empty().insert("alert.title"@, "! MEMOIRE SATUREE"@).insert(
            "alert.label"@,
            "VRAM"@,
        ).insert("alert.action"@, "PURGE CACHE"@),
        Alert::Fan => Map::empty().insert("alert.title"@, "! VENTILATEUR ARRETE"@).insert(
            "alert.label"@,
            "FAN"@,
        ).insert(
            "alert.value"@,
            decimal_chars(
                match r.fan_rpm {
                    Some(v) => v as nat,
                    None => 0,
                },
            ) + " RPM"@,
        ).insert("alert.threshold"@, "MINIMUM "@ + decimal_chars(cfg.fan_min_rpm as nat) + " RPM"@).insert(
            "alert.action"@,
            "ARRET IMMINENT"@,
        ).insert("alert.frac"@, "0.000"@),
    }
}

/// Fill the alert scene's `{{ alert.* }}` slots that need no fractions.
pub fn overlay(a: Alert, r: &Readings, cfg: &AlertConfig, ctx: &mut Context)
    requires
        old(ctx).wf(),
    ensures
        final(ctx).wf(),
        final(ctx)@ == old(ctx)@.union_prefer_right(alert_slots(a, *r, *cfg)),
{
    match a {
        Alert::GpuTemp => {
            let t = match r.gpu_temp_c {
                Some(t) => t,
                None => 0,
            };
            let mut value = String::new();
            push_signed(&mut value, t);
            push_char(&mut value, '\u{b0}');
            push_char(&mut value, 'C');
            let mut threshold = String::new();
            push_str(&mut threshold, "SEUIL ");
            push_signed(&mut threshold, cfg.gpu_temp_c);
            push_char(&mut threshold, '\u{b0}');
            push_char(&mut threshold, 'C');
            assert(value@ =~= signed_chars(t as int) + degrees());
            assert(threshold@ =~= "SEUIL "@ + signed_chars(cfg.gpu_temp_c as int) + degrees());
            ctx.set("alert.title", "! ALERTE THERMIQUE");
            ctx.set("alert.label", "GPU TEMP");
            ctx.set("alert.value", value.as_str());
            ctx.set("alert.threshold", threshold.as_str());
            ctx.set("alert.action", "VENTILATION 100%");
        },
        Alert::Vram => {
            ctx.set("alert.title", "! MEMOIRE SATUREE");
            ctx.set("alert.label", "VRAM");
            ctx.set("alert.action", "PURGE CACHE");
        },
        Alert::Fan => {
            let v = match r.fan_rpm {
                Some(v) => v,
                None => 0,
            };
            let mut value = String::new();
            push_decimal(&mut value, v);
            push_str(&mut value, " RPM");
            let mut threshold = String::new();
            push_str(&mut threshold, "MINIMUM ");
            push_decimal(&mut threshold, cfg.fan_min_rpm);
            push_str(&mut threshold, " RPM");
            ctx.set("alert.title", "! VENTILATEUR ARRETE");
            ctx.set("alert.label", "FAN");
            ctx.set("alert.value", value.as_str());
            ctx.set("alert.threshold", threshold.as_str());
            ctx.set("alert.action", "ARRET IMMINENT");
            ctx.set("alert.frac", "0.000");
        },
    }
    assert(final(ctx)@ =~= old(ctx)@.union_prefer_right(alert_slots(a, *r, *cfg)));
}

/// `<unlocked> / <total> SUCCES`.
pub open spec fn progress_chars(unlocked: u32, total: u32) -> Seq<char> {
    decimal_chars(unlocked as nat) + " / "@ + decimal_chars(total as nat) + " SUCCES"@
}

/// The achievement count line of the popup and the launch card.
pub fn progress_text(unlocked: u32, total: u32) -> (s: String)
    ensures
        s@ == progress_chars(unlocked, total),
{
    let mut s = String::new();
    push_decimal(&mut s, unlocked);
    push_str(&mut s, " / ");
    push_decimal(&mut s, total);
    push_str(&mut s, " SUCCES");
    s
}

/// The launch card's subtitle: the achievement count when that is the stat
/// chosen and the game has achievements, else `STEAM`.
pub fn launch_subtitle(stat: LaunchStat, unlocked: u32, total: u32) -> (s: String)
    ensures
        s@ == if stat == LaunchStat::Achievements && total > 0 {
            progress_chars(unlocked, total)
        } else {
            "STEAM"@
        },
{
    match stat {
        LaunchStat::Achievements if total > 0 => progress_text(unlocked, total),
        _ => {
            let mut s = String::new();
            push_str(&mut s, "STEAM");
            s
        },
    }
}

} // verus!
