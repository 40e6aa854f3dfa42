use table_deps::Manifest;

#[test]
fn converts_bare_string_and_inline_table() {
    let input = "[dependencies]\nserde = \"1.0\"\nlog = { version = \"0.4\", features = [\"std\"] }\n";
    let mut manifest = Manifest::build("Cargo.toml", input).unwrap();
    assert!(!manifest.converted);
    manifest.convert();
    assert!(manifest.converted);
    let text = manifest.to_text();
    assert!(text.contains("[dependencies.serde]"));
    assert!(text.contains("[dependencies.log]"));
    assert!(text.contains("version = \"1.0\""));
    assert!(text.contains("version = \"0.4\""));
    assert!(text.contains("features = [\"std\"]"));
    assert!(!text.contains("serde = \"1.0\""));

    let mut again = Manifest::build("Cargo.toml", &text).unwrap();
    again.convert();
    assert!(!again.converted);
    assert_eq!(again.to_text(), text);
}

#[test]
fn exact_output_for_simple_manifest() {
    let input = "[dependencies]\nserde = \"1.0\"\nlog = { version = \"0.4\", features = [\"std\"] }\n";
    let mut manifest = Manifest::build("Cargo.toml", input).unwrap();
    manifest.convert();
    let expected = "[dependencies.log]\nversion = \"0.4\"\nfeatures = [\"std\"]\n\n[dependencies.serde]\nversion = \"1.0\"\n";
    assert_eq!(manifest.to_text(), expected);
}

#[test]
fn parse_then_serialize_preserves_text() {
    let input = "# comment\n[package]\nname = \"demo\"\n\n[dependencies.serde]\nversion = \"1.0\"\n";
    let manifest = Manifest::build("Cargo.toml", input).unwrap();
    assert_eq!(manifest.to_text(), input);
}

#[test]
fn no_dependency_tables_is_identity() {
    let input = "# a manifest without dependencies\n[package]\nname = \"demo\"  # inline comment\nversion = \"0.1.0\"\n\n[features]\ndefault = []\n";
    let mut manifest = Manifest::build("Cargo.toml", input).unwrap();
    manifest.convert();
    assert!(!manifest.converted);
    assert_eq!(manifest.to_text(), input);
}

#[test]
fn preserves_unrelated_content() {
    let input = "# top comment\n[package]\nname = \"demo\"\n\n[dependencies]\nserde = \"1.0\"\n\n[profile.release]\nlto = true\n";
    let mut manifest = Manifest::build("Cargo.toml", input).unwrap();
    manifest.convert();
    assert!(manifest.converted);
    let text = manifest.to_text();
    assert!(text.contains("# top comment"));
    assert!(text.contains("name = \"demo\""));
    assert!(text.contains("[profile.release]"));
    assert!(text.contains("lto = true"));
    assert!(text.contains("[dependencies.serde]"));
}

#[test]
fn converts_target_tables() {
    let input = "[dependencies]\nserde = \"1.0\"\n\n[target.'cfg(windows)'.dependencies]\nwinapi = { version = \"0.3\", features = [\"winuser\"] }\n\n[target.'cfg(unix)'.dev-dependencies]\nlibc = \"0.2\"\n";
    let mut manifest = Manifest::build("Cargo.toml", input).unwrap();
    manifest.convert();
    assert!(manifest.converted);
    let text = manifest.to_text();
    assert!(text.contains("[target.'cfg(windows)'.dependencies.winapi]"));
    assert!(text.contains("version = \"0.3\""));
    assert!(text.contains("features = [\"winuser\"]"));
    assert!(text.contains("[target.'cfg(unix)'.dev-dependencies.libc]"));
    assert!(text.contains("version = \"0.2\""));

    let mut again = Manifest::build("Cargo.toml", &text).unwrap();
    again.convert();
    assert!(!again.converted);
    assert_eq!(again.to_text(), text);
}

#[test]
fn value_preservation_keeps_requirement_syntax() {
    let input = "[dependencies]\nodd = \">=1.2.3, <2.0.0\"\n";
    let mut manifest = Manifest::build("Cargo.toml", input).unwrap();
    manifest.convert();
    assert!(manifest.converted);
    let text = manifest.to_text();
    assert!(text.contains("[dependencies.odd]"));
    assert!(text.contains("version = \">=1.2.3, <2.0.0\""));
}

#[test]
fn key_preservation_keeps_inline_keys_and_order() {
    let input = "[dependencies]\nthing = { version = \"2\", default-features = false, features = [\"a\", \"b\"], optional = true }\n";
    let mut manifest = Manifest::build("Cargo.toml", input).unwrap();
    manifest.convert();
    assert!(manifest.converted);
    let text = manifest.to_text();
    assert!(text.contains("[dependencies.thing]"));
    assert!(text.contains("version = \"2\""));
    assert!(text.contains("default-features = false"));
    assert!(text.contains("features = [\"a\", \"b\"]"));
    assert!(text.contains("optional = true"));
    let version = text.find("version = \"2\"").unwrap();
    let default_features = text.find("default-features = false").unwrap();
    let features = text.find("features = [\"a\", \"b\"]").unwrap();
    let optional = text.find("optional = true").unwrap();
    assert!(version < default_features && default_features < features && features < optional);
}

#[test]
fn leaves_other_shapes_untouched() {
    let input = "[dependencies.already]\nversion = \"1\"\n";
    let mut manifest = Manifest::build("Cargo.toml", input).unwrap();
    manifest.convert();
    assert!(!manifest.converted);
    assert!(manifest.to_text().contains("version = \"1\""));
}

#[test]
fn sorts_entries_by_key() {
    let input = "[dependencies]\nzeta = \"1\"\nalpha = \"2\"\n";
    let mut manifest = Manifest::build("Cargo.toml", input).unwrap();
    manifest.convert();
    assert!(manifest.converted);
    let text = manifest.to_text();
    let alpha = text.find("[dependencies.alpha]").unwrap();
    let zeta = text.find("[dependencies.zeta]").unwrap();
    assert!(alpha < zeta);
}

#[test]
fn converts_dev_and_build_kinds() {
    let input = "[dev-dependencies]\npretty = \"3\"\n\n[build-dependencies]\ncc = { version = \"1\" }\n";
    let mut manifest = Manifest::build("Cargo.toml", input).unwrap();
    manifest.convert();
    assert!(manifest.converted);
    let text = manifest.to_text();
    assert!(text.contains("[dev-dependencies.pretty]"));
    assert!(text.contains("version = \"3\""));
    assert!(text.contains("[build-dependencies.cc]"));
    assert!(text.contains("version = \"1\""));
}

#[test]
fn parse_error_names_the_manifest() {
    let err = Manifest::build("crates/demo/Cargo.toml", "= not toml").unwrap_err();
    assert_eq!(err.path, "crates/demo/Cargo.toml");
    assert!(!err.message.is_empty());
}

#[test]
fn convert_reports_nothing_for_empty_dependency_table() {
    let input = "[dependencies]\n";
    let mut manifest = Manifest::build("Cargo.toml", input).unwrap();
    manifest.convert();
    assert!(!manifest.converted);
}
