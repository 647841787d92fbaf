use bc250_dashboard::{
    check_key, dashboard_fields, fan_text, fps_text, frac_text, frame_file_name, managed_config,
    orient_scene_path, overlay, parse_orientation, pct_text, prio, select_showing, still_live,
    strip_block, temp_text, variant_path, Alert, AlertConfig, Alerts, Context, Kind, Orientation,
    PanelOwner, PngBackend, Readings, Showing, BEGIN, END,
};

fn r(gpu_temp: Option<i32>, vram: Option<(u64, u64)>, fan: Option<u32>) -> Readings {
    Readings {
        gpu_temp_c: gpu_temp,
        vram_used: vram.map(|v| v.0),
        vram_total: vram.map(|v| v.1),
        fan_rpm: fan,
        ..Readings::empty()
    }
}

fn cfg() -> AlertConfig {
    AlertConfig {
        min_millis: 0,
        ..AlertConfig::default()
    }
}

#[test]
fn hysteresis_holds_between_trigger_and_clear() {
    let mut a = Alerts::new(cfg());
    let now = 1_000;
    assert_eq!(a.evaluate(&r(Some(70), None, None), now), None);
    assert_eq!(
        a.evaluate(&r(Some(86), None, None), now),
        Some(Alert::GpuTemp)
    );
    // 82 is below trigger (85) but above clear (80) -> stays.
    assert_eq!(
        a.evaluate(&r(Some(82), None, None), now),
        Some(Alert::GpuTemp)
    );
    // 78 is below clear -> drops (min_secs 0).
    assert_eq!(a.evaluate(&r(Some(78), None, None), now), None);
}

#[test]
fn higher_precedence_preempts_immediately() {
    let mut a = Alerts::new(AlertConfig {
        min_millis: 999_000,
        ..AlertConfig::default()
    });
    let now = 1_000;
    a.evaluate(&r(Some(90), None, None), now);
    // fan stops while the thermal alert's min_secs is nowhere near met.
    assert_eq!(
        a.evaluate(&r(Some(90), None, Some(0)), now),
        Some(Alert::Fan)
    );
}

#[test]
fn min_secs_delays_only_the_return_to_dashboard() {
    let mut a = Alerts::new(AlertConfig {
        min_millis: 999_000,
        ..AlertConfig::default()
    });
    let now = 1_000;
    a.evaluate(&r(Some(90), None, None), now);
    // condition gone, but min_secs not met -> still shown.
    assert_eq!(
        a.evaluate(&r(Some(60), None, None), now),
        Some(Alert::GpuTemp)
    );
}

#[test]
fn alert_returns_to_dashboard_once_held_long_enough() {
    let mut a = Alerts::new(AlertConfig {
        min_millis: 4_000,
        ..AlertConfig::default()
    });
    assert_eq!(a.evaluate(&r(Some(90), None, None), 10_000), Some(Alert::GpuTemp));
    assert_eq!(a.evaluate(&r(Some(60), None, None), 13_999), Some(Alert::GpuTemp));
    assert_eq!(a.evaluate(&r(Some(60), None, None), 14_000), None);
}

#[test]
fn vram_alert_uses_parts_per_million() {
    let mut a = Alerts::new(cfg());
    // 96% used trips the 95% threshold; 92% holds above the 90% clear line.
    assert_eq!(a.evaluate(&r(None, Some((96, 100)), None), 0), Some(Alert::Vram));
    assert_eq!(a.evaluate(&r(None, Some((92, 100)), None), 0), Some(Alert::Vram));
    assert_eq!(a.evaluate(&r(None, Some((89, 100)), None), 0), None);
    // an unknown total never trips it
    assert_eq!(a.evaluate(&r(None, Some((96, 0)), None), 0), None);
}

#[test]
fn disabled_alerts_never_fire() {
    let mut a = Alerts::new(AlertConfig {
        enabled: false,
        ..AlertConfig::default()
    });
    assert_eq!(a.evaluate(&r(Some(120), Some((100, 100)), Some(0)), 5), None);
}

#[test]
fn precedence_order_and_panel_owner() {
    assert_eq!(prio(Alert::Fan), 0);
    assert_eq!(prio(Alert::GpuTemp), 1);
    assert_eq!(prio(Alert::Vram), 2);
    assert_eq!(select_showing(Some(Alert::Vram), true, true), Showing::Alert(Alert::Vram));
    assert_eq!(select_showing(None, true, true), Showing::Launch);
    assert_eq!(select_showing(None, false, true), Showing::Achievement);
    assert_eq!(select_showing(None, false, false), Showing::Dashboard);
    assert!(still_live(1_000, 8_899, 7_900));
    assert!(!still_live(1_000, 8_900, 7_900));
    assert!(still_live(5_000, 1_000, 1));
}

#[test]
fn variant_path_inserts_tag() {
    assert_eq!(
        variant_path("assets/scenes/boot.toml", "landscape").unwrap(),
        "assets/scenes/boot.landscape.toml"
    );
}

#[test]
fn variant_path_needs_stem_and_extension() {
    assert_eq!(variant_path("assets/scenes/boot", "landscape"), None);
    assert_eq!(
        variant_path("alert.toml", "portrait").unwrap(),
        "alert.portrait.toml"
    );
}

#[test]
fn orient_falls_back_when_variant_absent() {
    let base = "/definitely/missing/boot.toml";
    assert_eq!(orient_scene_path(base, Orientation::Landscape), base);
}

#[test]
fn strip_block_removes_only_managed_lines() {
    let src = "fps\nvram\n# >>> bc250-dashboard (managed) >>>\nautostart_log=1\n# <<< bc250-dashboard (managed) <<<\nposition=top-left\n";
    assert_eq!(strip_block(src), "fps\nvram\nposition=top-left\n");
}

#[test]
fn strip_block_noop_without_block() {
    assert_eq!(strip_block("fps\nvram\n"), "fps\nvram\n");
}

#[test]
fn managed_config_appends_one_block() {
    let out = managed_config("fps\r\nvram\n\n", "/logs");
    let expected = format!(
        "fps\nvram\n{}\nautostart_log=1\nlog_interval=2000\noutput_folder=/logs\n{}\n",
        BEGIN, END
    );
    assert_eq!(out, expected);
    // running it again changes nothing
    assert_eq!(managed_config(&out, "/logs"), expected);
    // and a new folder replaces the old block
    assert!(managed_config(&out, "/other").ends_with("output_folder=/other\n# <<< bc250-dashboard (managed) <<<\n"));
    assert_eq!(
        managed_config("", "/l"),
        format!("{}\nautostart_log=1\nlog_interval=2000\noutput_folder=/l\n{}\n", BEGIN, END)
    );
}

#[test]
fn config_keys_are_checked() {
    assert_eq!(check_key("sensors.gpu"), Ok(Kind::Str));
    assert_eq!(check_key("alerts.fan_min_rpm"), Ok(Kind::Int));
    assert_eq!(check_key("steam.achievement_secs"), Ok(Kind::Float));
    assert_eq!(check_key("alerts.enabled"), Ok(Kind::Bool));
    let err = check_key("panel.colour").unwrap_err();
    assert!(err.starts_with("unknown key `panel.colour`. known keys:\n  panel.orientation\n  sensors.gpu\n"));
    assert!(err.ends_with("\n  steam.launch_stat"));
}

#[test]
fn orientation_names_parse() {
    assert_eq!(parse_orientation("Landscape"), Ok(Orientation::Landscape));
    assert_eq!(parse_orientation("portrait"), Ok(Orientation::Portrait));
    assert_eq!(
        parse_orientation("diagonal"),
        Err("unknown orientation `diagonal` (expected portrait or landscape)".to_string())
    );
    assert_eq!(Orientation::Landscape.tag(), "landscape");
    assert!(Orientation::Portrait.matches_name("PORTRAIT"));
    assert!(!Orientation::Portrait.matches_name("landscape"));
}

#[test]
fn dashboard_text_is_padded() {
    assert_eq!(pct_text(Some(62)), " 62%");
    assert_eq!(pct_text(Some(5)), "  5%");
    assert_eq!(pct_text(Some(1234)), "999%");
    assert_eq!(pct_text(None), "  -%");
    assert_eq!(temp_text(Some(36)), " 36\u{00B0}C");
    assert_eq!(temp_text(Some(-5)), " -5\u{00B0}C");
    assert_eq!(temp_text(Some(-123)), "-123\u{00B0}C");
    assert_eq!(temp_text(None), "  -\u{00B0}C");
    assert_eq!(fps_text(None), "  -");
    assert_eq!(fps_text(Some(7)), "  7");
    assert_eq!(fps_text(Some(1440)), "1440");
    assert_eq!(fan_text(Some(1200)), "1200 RPM");
    assert_eq!(fan_text(None), "-");
}

#[test]
fn dashboard_fields_fill_the_whole_number_slots() {
    let readings = Readings {
        gpu_pct: Some(62),
        cpu_pct: Some(31),
        gpu_temp_c: Some(36),
        cpu_temp_c: Some(44),
        ..Readings::empty()
    };
    let c = dashboard_fields(&readings);
    assert_eq!(c.get("gpu.pct"), Some(" 62%"));
    assert_eq!(c.get("cpu.pct"), Some(" 31%"));
    assert_eq!(c.get("gpu.temp"), Some(" 36\u{00B0}C"));
    assert_eq!(c.get("cpu.temp"), Some(" 44\u{00B0}C"));
    assert_eq!(c.get("fps"), Some("  -"));
    assert_eq!(c.get("fan.rpm"), Some("-"));
    assert_eq!(c.get("vram"), None);
}

#[test]
fn alert_overlay_texts() {
    let mut c = Context::new();
    c.set("gpu.pct", " 62%");
    overlay(Alert::GpuTemp, &r(Some(89), None, None), &AlertConfig::default(), &mut c);
    assert_eq!(c.get("alert.title"), Some("! ALERTE THERMIQUE"));
    assert_eq!(c.get("alert.value"), Some("89\u{00B0}C"));
    assert_eq!(c.get("alert.threshold"), Some("SEUIL 85\u{00B0}C"));
    assert_eq!(c.get("alert.action"), Some("VENTILATION 100%"));
    assert_eq!(c.get("gpu.pct"), Some(" 62%"));
    let mut f = Context::new();
    overlay(Alert::Fan, &r(None, None, None), &AlertConfig::default(), &mut f);
    assert_eq!(f.get("alert.value"), Some("0 RPM"));
    assert_eq!(f.get("alert.threshold"), Some("MINIMUM 400 RPM"));
    assert_eq!(f.get("alert.frac"), Some("0.000"));
    let mut v = Context::new();
    overlay(Alert::Vram, &r(None, None, None), &AlertConfig::default(), &mut v);
    assert_eq!(v.get("alert.label"), Some("VRAM"));
    assert_eq!(v.get("alert.value"), None);
}

#[test]
fn png_frames_are_numbered_and_thinned() {
    assert_eq!(frame_file_name(0), "frame_00000.png");
    assert_eq!(frame_file_name(1234567), "frame_1234567.png");
    let mut b = PngBackend::new("out".to_string(), (320, 480)).with_stride(0);
    assert_eq!(b.next_frame(), Some("frame_00000.png".to_string()));
    assert_eq!(b.next_frame(), Some("frame_00001.png".to_string()));
    let mut t = PngBackend::new("out".to_string(), (320, 480)).with_stride(3);
    assert_eq!(t.next_frame(), Some("frame_00000.png".to_string()));
    assert_eq!(t.next_frame(), None);
    assert_eq!(t.next_frame(), None);
    assert_eq!(t.next_frame(), Some("frame_00003.png".to_string()));
    assert_eq!(t.frames_seen(), 4);
    assert_eq!(t.size(), (320, 480));
    assert_eq!(t.dir(), "out");
}

#[test]
fn an_earlier_clock_counts_as_no_time_held() {
    assert!(!still_live(5_000, 1_000, 0));
    let mut a = Alerts::new(cfg());
    assert_eq!(a.evaluate(&r(Some(90), None, None), 10_000), Some(Alert::GpuTemp));
    // The clock reads earlier than the alert's start: no time has passed,
    // which already meets a zero minimum, so the cool reading clears it.
    assert_eq!(a.evaluate(&r(Some(50), None, None), 9_000), None);
}

#[test]
fn a_new_panel_owner_restarts_the_scene_clock() {
    let mut o = PanelOwner::new(0);
    assert!(!o.poll(None, false, false, 500));
    assert_eq!(o, PanelOwner { showing: Showing::Dashboard, since: 0 });
    assert!(o.poll(None, true, true, 1_000));
    assert_eq!(o, PanelOwner { showing: Showing::Launch, since: 1_000 });
    assert!(!o.poll(None, true, false, 2_000));
    assert_eq!(o.since, 1_000);
    assert!(o.poll(Some(Alert::Fan), true, true, 3_000));
    assert_eq!(o, PanelOwner { showing: Showing::Alert(Alert::Fan), since: 3_000 });
}

#[test]
fn rewriting_twice_with_a_folder_ending_in_a_carriage_return_is_stable() {
    let once = managed_config("fps_limit=60\n", "/logs\r");
    assert_eq!(managed_config(&once, "/logs\r"), once);
}

#[test]
fn load_fractions_have_three_places() {
    assert_eq!(frac_text(Some(42)), "0.420");
    assert_eq!(frac_text(Some(7)), "0.070");
    assert_eq!(frac_text(Some(100)), "1.000");
    assert_eq!(frac_text(Some(250)), "1.000");
    assert_eq!(frac_text(None), "0.000");
    let c = dashboard_fields(&Readings {
        gpu_pct: Some(99),
        ..Readings::empty()
    });
    assert_eq!(c.get("gpu.frac"), Some("0.990"));
    assert_eq!(c.get("cpu.frac"), Some("0.000"));
}
