use bc250_dashboard::{set_config_text, ConfigEditError};

fn ok(r: Result<String, ConfigEditError>) -> String {
    match r {
        Ok(t) => t,
        Err(e) => panic!("refused: {e:?}"),
    }
}

#[test]
fn set_keeps_the_rest_of_the_file() {
    let doc = "# my settings\n[panel]\norientation = \"portrait\"\n\n[sensors]\ngpu = \"auto\"\n";
    let t = ok(set_config_text(doc, "sensors.gpu", "nvidia", None));
    assert!(t.starts_with("# my settings\n[panel]\norientation = \"portrait\"\n"));
    assert!(t.contains("gpu = \"nvidia\""));
    assert!(!t.contains("\"auto\""));
}

#[test]
fn set_creates_a_missing_table() {
    let t = ok(set_config_text("", "alerts.enabled", "true", None));
    assert_eq!(t, "[alerts]\nenabled = true\n");
}

#[test]
fn whole_numbers_are_written_as_i64_prints_them() {
    let t = ok(set_config_text("", "alerts.gpu_temp_c", "+090", None));
    assert_eq!(t, "[alerts]\ngpu_temp_c = 90\n");
    let t = ok(set_config_text("", "alerts.gpu_temp_c", "-0", None));
    assert_eq!(t, "[alerts]\ngpu_temp_c = 0\n");
}

#[test]
fn floats_use_the_callers_literal() {
    let t = ok(set_config_text("", "sensors.fps_bar_max", "144", Some("144.0")));
    assert_eq!(t, "[sensors]\nfps_bar_max = 144.0\n");
}

#[test]
fn refusals_name_their_reason() {
    match set_config_text("", "sensors.nope", "1", None) {
        Err(ConfigEditError::UnknownKey(m)) => assert!(m.starts_with("unknown key `sensors.nope`")),
        other => panic!("{other:?}"),
    }
    assert!(matches!(
        set_config_text("[[[", "alerts.enabled", "true", None),
        Err(ConfigEditError::NotToml)
    ));
    match set_config_text("alerts = 5\n", "alerts.enabled", "maybe", None) {
        Err(ConfigEditError::NotATable(t)) => assert_eq!(t, "alerts"),
        other => panic!("{other:?}"),
    }
    match set_config_text("", "alerts.enabled", "TRUE", None) {
        Err(ConfigEditError::BadValue(m)) => assert_eq!(m, "`TRUE` is not true/false"),
        other => panic!("{other:?}"),
    }
    match set_config_text("", "alerts.fan_min_rpm", "4.5", None) {
        Err(ConfigEditError::BadValue(m)) => assert_eq!(m, "`4.5` is not a whole number"),
        other => panic!("{other:?}"),
    }
    match set_config_text("", "alerts.min_secs", "soon", None) {
        Err(ConfigEditError::BadValue(m)) => assert_eq!(m, "`soon` is not a number"),
        other => panic!("{other:?}"),
    }
}
