use svg_sprite::ingest::{image_name, pass_configs, PassConfig, SetupError};

#[test]
fn svg_file_names_lose_their_extension() {
    assert_eq!(image_name("icon.svg"), Some("icon".to_string()));
    assert_eq!(image_name("a.b.svg"), Some("a.b".to_string()));
    assert_eq!(image_name("flèche.svg"), Some("flèche".to_string()));
}

#[test]
fn other_files_have_no_image_name() {
    assert_eq!(image_name("icon.png"), None);
    assert_eq!(image_name("icon.SVG"), None);
    assert_eq!(image_name(".svg"), None);
    assert_eq!(image_name("svg"), None);
    assert_eq!(image_name(""), None);
}

#[test]
fn two_passes_with_doubled_bound() {
    let v = pass_configs(2, 128, 64).unwrap();
    assert_eq!(
        v,
        vec![
            PassConfig { scale: 1, width: 128, height: 64 },
            PassConfig { scale: 2, width: 256, height: 128 },
        ]
    );
}

#[test]
fn no_inputs_is_a_configuration_error() {
    assert_eq!(pass_configs(0, 128, 128).unwrap_err(), SetupError::NoInputs);
}

#[test]
fn doubled_bound_must_fit() {
    assert_eq!(pass_configs(1, 0x4000_0000, 8).unwrap_err(), SetupError::BoundTooLarge);
    assert_eq!(pass_configs(1, 8, 0x4000_0000).unwrap_err(), SetupError::BoundTooLarge);
    assert!(pass_configs(1, 0x3fff_ffff, 8).is_ok());
}
