//! Concrete checks of the library's laws, error kinds, formatting and the
//! path and head-conversion helpers.

use kanshi_generate::{
    build_output_snapshots, default_config_path, generate_profile_from_outputs,
    generate_profile_from_slice, normalize_transform_str, normalize_transform_u32, temp_file_name,
    upsert_profile_in_config, GenerateError, HeadModeSnapshot, HeadSnapshot, ModeSnapshot,
    OutputSnapshot, PositionSnapshot,
};

fn dell_output() -> OutputSnapshot {
    OutputSnapshot {
        name: String::from("DP-1"),
        make: String::from("Dell"),
        model: String::from("U2723"),
        serial: Some(String::from("ABC123")),
        enabled: true,
        modes: vec![
            ModeSnapshot {
                width: 1920,
                height: 1080,
                refresh_centihz: 6000,
                preferred: true,
                current: false,
            },
            ModeSnapshot {
                width: 2560,
                height: 1440,
                refresh_centihz: 5995,
                preferred: false,
                current: true,
            },
        ],
        position: Some(PositionSnapshot { x: 10, y: 20 }),
        scale_centi: Some(100),
        transform: None,
    }
}

#[test]
fn renders_exact_line_for_current_mode() {
    let outputs = vec![dell_output()];
    let rendered = generate_profile_from_outputs("desk", &outputs).unwrap();
    assert_eq!(
        rendered,
        "profile desk {\n  output \"Dell U2723 ABC123\" mode 2560x1440@59.95Hz position 10,20 scale 1.00\n}\n"
    );
}

#[test]
fn upserting_same_block_twice_is_idempotent() {
    let current = "profile other {\n  output \"x\" disable\n}\n";
    let block = "profile desk {\n  output \"new\" disable\n}\n";
    let once = upsert_profile_in_config(current, "desk", block).unwrap();
    let twice = upsert_profile_in_config(&once, "desk", block).unwrap();
    assert_eq!(once, twice);
}

#[test]
fn appending_preserves_existing_blocks_byte_for_byte() {
    let current = "profile alpha {\n  output \"a\" disable\n}\n\nprofile beta {\n  output \"b\" disable\n}\n";
    let block = "profile gamma {\n  output \"c\" disable\n}\n";
    let merged = upsert_profile_in_config(current, "gamma", block).unwrap();
    assert!(merged.starts_with(current));
    assert!(merged.ends_with(block));
}

#[test]
fn appending_after_blank_line_adds_no_extra_separator() {
    let current = "profile alpha {\n}\n\n";
    let block = "profile beta {\n}\n";
    let merged = upsert_profile_in_config(current, "beta", block).unwrap();
    assert_eq!(merged, "profile alpha {\n}\n\nprofile beta {\n}\n");
}

#[test]
fn appending_to_empty_config_yields_exactly_the_block() {
    let merged = upsert_profile_in_config("", "desk", "profile desk {\n}\n").unwrap();
    assert_eq!(merged, "profile desk {\n}\n");
}

#[test]
fn blank_profile_name_is_rejected_before_any_scan() {
    let err = upsert_profile_in_config("profile broken {\n", "   ", "profile x {\n}\n").unwrap_err();
    assert!(matches!(err, GenerateError::EmptyProfileName));
}

#[test]
fn duplicate_error_reports_name_and_count() {
    let current = "profile desk {\n}\nprofile desk {\n}\nprofile desk {\n}\n";
    let err = upsert_profile_in_config(current, "desk", "profile desk {\n}\n").unwrap_err();
    match err {
        GenerateError::DuplicateProfileName { profile_name, count } => {
            assert_eq!(profile_name, "desk");
            assert_eq!(count, 3);
        }
        other => panic!("unexpected error: {:?}", other),
    }
}

#[test]
fn unclosed_block_error_mentions_the_block_name() {
    let err =
        upsert_profile_in_config("profile broken {\n  output \"x\" disable\n", "a", "profile a {\n}\n")
            .unwrap_err();
    match err {
        GenerateError::ConfigParse { details } => {
            assert_eq!(details, "profile `broken` has an unclosed block");
        }
        other => panic!("unexpected error: {:?}", other),
    }
}

#[test]
fn missing_opening_brace_is_reported_with_offset() {
    let err = upsert_profile_in_config("profile dangling", "a", "profile a {\n}\n").unwrap_err();
    match err {
        GenerateError::ConfigParse { details } => {
            assert_eq!(details, "profile block starting at character 0 has no opening brace");
        }
        other => panic!("unexpected error: {:?}", other),
    }
}

#[test]
fn empty_block_name_is_reported() {
    let err = upsert_profile_in_config("profile   {\n}\n", "a", "profile a {\n}\n").unwrap_err();
    match err {
        GenerateError::ConfigParse { details } => {
            assert_eq!(details, "profile block starting at character 0 has an empty profile name");
        }
        other => panic!("unexpected error: {:?}", other),
    }
}

#[test]
fn nested_braces_stay_inside_one_block() {
    let current = "profile outer {\n  group {\n    output \"x\" disable\n  }\n}\n";
    let merged = upsert_profile_in_config(current, "outer", "profile outer {\n}\n").unwrap();
    assert_eq!(merged, "profile outer {\n}\n");
}

#[test]
fn invalid_json_yields_parse_json_error() {
    let err = generate_profile_from_slice("desk", b"{invalid json").unwrap_err();
    assert!(matches!(err, GenerateError::ParseJson { .. }));
}

#[test]
fn enabled_output_without_position_is_rejected() {
    let json = br#"[
      {"name":"DP-1","make":"Dell","model":"U2723","serial":null,"enabled":true,
       "modes":[{"width":1920,"height":1080,"refresh":60.0,"preferred":true,"current":true}],
       "scale":1.0}
    ]"#;
    let err = generate_profile_from_slice("desk", json).unwrap_err();
    assert!(matches!(err, GenerateError::MissingPosition { .. }));
}

#[test]
fn enabled_output_without_scale_is_rejected() {
    let json = br#"[
      {"name":"DP-1","make":"Dell","model":"U2723","serial":null,"enabled":true,
       "modes":[{"width":1920,"height":1080,"refresh":60.0,"preferred":true,"current":true}],
       "position":{"x":0,"y":0}}
    ]"#;
    let err = generate_profile_from_slice("desk", json).unwrap_err();
    assert!(matches!(err, GenerateError::MissingScale { .. }));
}

#[test]
fn identifier_falls_back_to_output_name_when_fields_are_blank() {
    let json = br#"[
      {"name":"HDMI-A-1","make":"  ","model":"","serial":null,"enabled":false,"modes":[]}
    ]"#;
    let rendered = generate_profile_from_slice("desk", json).unwrap();
    assert!(rendered.contains("output \"HDMI-A-1\" disable"));
}

#[test]
fn identifier_escapes_quotes_and_backslashes() {
    let json = br#"[
      {"name":"DP-1","make":"Acme \"Z\"","model":"A\\B","serial":null,"enabled":false,"modes":[]}
    ]"#;
    let rendered = generate_profile_from_slice("desk", json).unwrap();
    assert!(rendered.contains("output \"Acme \\\"Z\\\" A\\\\B\" disable"));
}

#[test]
fn error_messages_match_their_kinds() {
    let err = GenerateError::DuplicateProfileName {
        profile_name: String::from("docked"),
        count: 2,
    };
    assert_eq!(
        err.message(),
        "found duplicate profile `docked` in kanshi config (2 blocks)"
    );
    assert_eq!(
        GenerateError::EmptyProfileName.message(),
        "profile name cannot be empty"
    );
    assert_eq!(
        GenerateError::ConfigPathUnavailable.message(),
        "could not resolve default kanshi config path: set XDG_CONFIG_HOME or HOME"
    );
}

#[test]
fn transform_spellings_are_canonicalised() {
    assert_eq!(normalize_transform_str("  FLIPPED-90 "), Some("flipped-90"));
    assert_eq!(normalize_transform_str("Normal"), Some("normal"));
    assert_eq!(normalize_transform_str("270"), Some("270"));
    assert_eq!(normalize_transform_str("rotated"), None);
    assert_eq!(normalize_transform_u32(1), Some("90"));
    assert_eq!(normalize_transform_u32(7), Some("flipped-270"));
    assert_eq!(normalize_transform_u32(8), None);
}

#[test]
fn default_config_path_prefers_config_home() {
    let p = default_config_path(Some("/cfg"), Some("/home/me")).unwrap();
    assert_eq!(p, "/cfg/kanshi/config");
    let p = default_config_path(None, Some("/home/me")).unwrap();
    assert_eq!(p, "/home/me/.config/kanshi/config");
    let err = default_config_path(None, None).unwrap_err();
    assert!(matches!(err, GenerateError::ConfigPathUnavailable));
}

#[test]
fn temp_file_names_are_distinct_per_attempt() {
    let a = temp_file_name("config", 4242, 0);
    let b = temp_file_name("config", 4242, 1);
    assert_eq!(a, ".config.kanshi-generate.4242.0.tmp");
    assert_eq!(b, ".config.kanshi-generate.4242.1.tmp");
    assert_ne!(a, b);
}

fn plain_head(name: &str, mhz: i32) -> HeadSnapshot {
    HeadSnapshot {
        name: Some(String::from(name)),
        make: Some(String::from("Dell")),
        model: Some(String::from("U2723")),
        serial: None,
        enabled: Some(true),
        modes: vec![HeadModeSnapshot {
            width: Some(2560),
            height: Some(1440),
            refresh_mhz: Some(mhz),
            preferred: true,
            current: true,
        }],
        position: Some(PositionSnapshot { x: 0, y: 0 }),
        scale_centi: Some(100),
        transform: None,
    }
}

#[test]
fn head_snapshots_come_out_sorted_by_name() {
    let heads = vec![plain_head("DP-2", 59951), plain_head("DP-1", 60000)];
    let outputs = build_output_snapshots(&heads).unwrap();
    assert_eq!(outputs.len(), 2);
    assert_eq!(outputs[0].name, "DP-1");
    assert_eq!(outputs[1].name, "DP-2");
}

#[test]
fn head_refresh_millihertz_rounds_to_hundredths() {
    let heads = vec![plain_head("DP-1", 59951)];
    let outputs = build_output_snapshots(&heads).unwrap();
    assert_eq!(outputs[0].modes[0].refresh_centihz, 5995);
    let heads = vec![plain_head("DP-1", 59955)];
    let outputs = build_output_snapshots(&heads).unwrap();
    assert_eq!(outputs[0].modes[0].refresh_centihz, 5996);
}

#[test]
fn head_with_negative_width_is_rejected() {
    let mut head = plain_head("DP-1", 60000);
    head.modes[0].width = Some(-1);
    let err = build_output_snapshots(&vec![head]).unwrap_err();
    match err {
        GenerateError::WaylandProtocolError { details } => {
            assert_eq!(details, "mode for output `DP-1` has negative width");
        }
        other => panic!("unexpected error: {:?}", other),
    }
}

#[test]
fn unnamed_head_uses_placeholder_name() {
    let mut head = plain_head("x", 60000);
    head.name = None;
    head.modes[0].refresh_mhz = None;
    let err = build_output_snapshots(&vec![head]).unwrap_err();
    match err {
        GenerateError::WaylandProtocolError { details } => {
            assert_eq!(details, "mode for output `<unknown>` missing refresh rate");
        }
        other => panic!("unexpected error: {:?}", other),
    }
}

#[test]
fn outputs_render_in_ascending_name_order() {
    let json = br#"[
      {"name":"eDP-1","make":"ZetaCorp","model":"Z1","serial":null,"enabled":false,"modes":[]},
      {"name":"DP-1","make":"AlphaCorp","model":"A1","serial":null,"enabled":false,"modes":[]}
    ]"#;
    let rendered = generate_profile_from_slice("desk", json).unwrap();
    let alpha = rendered.find("AlphaCorp").unwrap();
    let zeta = rendered.find("ZetaCorp").unwrap();
    assert!(alpha < zeta);
}

#[test]
fn wrong_typed_record_field_is_reported_exactly() {
    let json = br#"[{"name":5,"enabled":true}]"#;
    let err = generate_profile_from_slice("desk", json).unwrap_err();
    match err {
        GenerateError::ParseJson { details } => {
            assert_eq!(details, "output field `name` must be a string");
        }
        other => panic!("unexpected error: {:?}", other),
    }
}

#[test]
fn integral_refresh_gains_two_zero_decimals() {
    let json = br#"[
      {"name":"DP-1","make":"Dell","model":"U2723","serial":null,"enabled":true,
       "modes":[{"width":1920,"height":1080,"refresh":60,"preferred":true,"current":true}],
       "position":{"x":0,"y":0},"scale":2}
    ]"#;
    let rendered = generate_profile_from_slice("desk", json).unwrap();
    assert!(rendered.contains("@60.00Hz"));
    assert!(rendered.contains("scale 2.00"));
}

#[test]
fn refresh_rounds_half_away_from_zero_at_the_third_decimal() {
    let json = br#"[
      {"name":"DP-1","make":"Dell","model":"U2723","serial":null,"enabled":true,
       "modes":[{"width":1920,"height":1080,"refresh":59.955,"preferred":true,"current":true}],
       "position":{"x":0,"y":0},"scale":1.0}
    ]"#;
    let rendered = generate_profile_from_slice("desk", json).unwrap();
    assert!(rendered.contains("@59.96Hz"));
}

#[test]
fn scale_is_rendered_with_two_decimals() {
    let mut output = dell_output();
    output.scale_centi = Some(125);
    let rendered = generate_profile_from_outputs("desk", &vec![output]).unwrap();
    assert!(rendered.contains("scale 1.25"));
}
