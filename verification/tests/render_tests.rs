//! Rendering a profile block from a JSON output-state document.

use kanshi_generate::{collect_outputs_from_json, generate_profile_from_slice, GenerateError};

const MIXED_OUTPUTS_JSON: &str = r#"[
  {
    "name": "DP-1",
    "make": "Dell",
    "model": "U2723",
    "serial": "ABC123",
    "enabled": true,
    "modes": [
      {"width":1920,"height":1080,"refresh":60.0,"preferred":true,"current":false},
      {"width":2560,"height":1440,"refresh":59.95,"preferred":false,"current":true}
    ],
    "position": {"x":0,"y":0},
    "scale": 1.0
  },
  {
    "name": "DP-2",
    "make": "Dell",
    "model": "P2723D",
    "serial": "2ZZ6714",
    "enabled": true,
    "modes": [
      {"width":2560,"height":1440,"refresh":59.951,"preferred":true,"current":true}
    ],
    "position": {"x":-2560,"y":300},
    "scale": 1.25,
    "transform": "normal"
  },
  {
    "name": "eDP-1",
    "make": "AU Optronics",
    "model": "0xD291",
    "serial": null,
    "enabled": false,
    "modes": [
      {"width":1920,"height":1200,"refresh":60.003,"preferred":true,"current":false}
    ]
  }
]"#;

const MIXED_OUTPUTS_KANSHI: &str = "profile docked {\n  output \"Dell U2723 ABC123\" mode 2560x1440@59.95Hz position 0,0 scale 1.00\n  output \"Dell P2723D 2ZZ6714\" mode 2560x1440@59.95Hz position -2560,300 scale 1.25 transform normal\n  output \"AU Optronics 0xD291\" disable\n}\n";

#[test]
fn renders_fixture_with_enabled_and_disabled_outputs() {
    let rendered = generate_profile_from_slice("docked", MIXED_OUTPUTS_JSON.as_bytes()).unwrap();
    assert_eq!(rendered, MIXED_OUTPUTS_KANSHI);
}

#[test]
fn json_collection_parses_fixture() {
    let outputs = collect_outputs_from_json(MIXED_OUTPUTS_JSON.as_bytes()).unwrap();
    assert_eq!(outputs.len(), 3);
}

#[test]
fn picks_current_mode_first() {
    let json = r#"[
      {
        "name":"DP-1",
        "make":"Dell",
        "model":"U2723",
        "serial":"ABC123",
        "enabled":true,
        "modes":[
          {"width":1920,"height":1080,"refresh":60.0,"preferred":true,"current":false},
          {"width":2560,"height":1440,"refresh":59.95,"preferred":false,"current":true}
        ],
        "position":{"x":10,"y":20},
        "scale":1.0
      }
    ]"#;
    let rendered = generate_profile_from_slice("desk", json.as_bytes()).unwrap();
    assert!(rendered.contains("mode 2560x1440@59.95Hz"));
}

#[test]
fn falls_back_to_preferred_mode() {
    let json = r#"[
      {
        "name":"DP-1",
        "make":"Dell",
        "model":"U2723",
        "serial":"ABC123",
        "enabled":true,
        "modes":[
          {"width":1920,"height":1080,"refresh":60.0,"preferred":true,"current":false}
        ],
        "position":{"x":0,"y":0},
        "scale":1.0
      }
    ]"#;
    let rendered = generate_profile_from_slice("desk", json.as_bytes()).unwrap();
    assert!(rendered.contains("mode 1920x1080@60.00Hz"));
}

#[test]
fn errors_when_enabled_output_has_no_current_or_preferred_mode() {
    let json = r#"[
      {
        "name":"DP-1",
        "make":"Dell",
        "model":"U2723",
        "serial":"ABC123",
        "enabled":true,
        "modes":[
          {"width":1920,"height":1080,"refresh":60.0,"preferred":false,"current":false}
        ],
        "position":{"x":0,"y":0},
        "scale":1.0
      }
    ]"#;
    let err = generate_profile_from_slice("desk", json.as_bytes()).unwrap_err();
    assert!(matches!(err, GenerateError::MissingMode { .. }));
}

#[test]
fn keeps_negative_coordinates() {
    let json = r#"[
      {
        "name":"DP-2",
        "make":"Dell",
        "model":"P2723D",
        "serial":"2ZZ6714",
        "enabled":true,
        "modes":[
          {"width":2560,"height":1440,"refresh":59.951,"preferred":true,"current":true}
        ],
        "position":{"x":-2560,"y":300},
        "scale":1.25
      }
    ]"#;
    let rendered = generate_profile_from_slice("desk", json.as_bytes()).unwrap();
    assert!(rendered.contains("position -2560,300"));
}

#[test]
fn omits_unknown_serial_placeholder() {
    let json = r#"[
      {
        "name":"eDP-1",
        "make":"AU Optronics",
        "model":"0xD291",
        "serial":null,
        "enabled":false,
        "modes":[
          {"width":1920,"height":1200,"refresh":60.0,"preferred":true,"current":false}
        ]
      }
    ]"#;
    let rendered = generate_profile_from_slice("mobile", json.as_bytes()).unwrap();
    assert!(rendered.contains("output \"AU Optronics 0xD291\" disable"));
    assert!(!rendered.contains("Unknown"));
}

#[test]
fn includes_transform_for_rotated_enabled_output() {
    let json = r#"[
      {
        "name":"DP-7",
        "make":"Dell Inc.",
        "model":"DELL U2422H",
        "serial":"75BNF83",
        "enabled":true,
        "modes":[
          {"width":1920,"height":1080,"refresh":60.0,"preferred":true,"current":true}
        ],
        "position":{"x":0,"y":0},
        "scale":1.0,
        "transform":"90"
      }
    ]"#;
    let rendered = generate_profile_from_slice("rotated", json.as_bytes()).unwrap();
    assert!(rendered.contains("transform 90"));
}

#[test]
fn includes_transform_for_normal_orientation() {
    let json = r#"[
      {
        "name":"DP-1",
        "make":"Dell",
        "model":"U2723",
        "serial":"ABC123",
        "enabled":true,
        "modes":[
          {"width":1920,"height":1080,"refresh":60.0,"preferred":true,"current":true}
        ],
        "position":{"x":0,"y":0},
        "scale":1.0,
        "transform":"normal"
      }
    ]"#;
    let rendered = generate_profile_from_slice("desk", json.as_bytes()).unwrap();
    assert!(rendered.contains("transform normal"));
}
