use apex::detect::sca::{parse_cargo_toml, parse_package_json, parse_requirements_txt, DepSource};

fn manifest(name: &str) -> String {
    format!("/project/{name}")
}

#[test]
fn req_pinned_version() {
    let content = "requests==2.28.0\nflask==2.3.1\n";
    let deps = parse_requirements_txt(content, &manifest("requirements.txt"));
    assert_eq!(deps.len(), 2);
    assert_eq!(deps[0].name, "requests");
    assert_eq!(deps[0].version, "2.28.0");
    assert_eq!(deps[0].source, DepSource::PyPI);
    assert_eq!(deps[1].name, "flask");
    assert_eq!(deps[1].version, "2.3.1");
}

#[test]
fn req_gte_version() {
    let content = "numpy>=1.21.0\n";
    let deps = parse_requirements_txt(content, &manifest("requirements.txt"));
    assert_eq!(deps.len(), 1);
    assert_eq!(deps[0].name, "numpy");
    assert_eq!(deps[0].version, "1.21.0");
}

#[test]
fn req_compatible_release() {
    let content = "django~=4.2\n";
    let deps = parse_requirements_txt(content, &manifest("requirements.txt"));
    assert_eq!(deps.len(), 1);
    assert_eq!(deps[0].name, "django");
    assert_eq!(deps[0].version, "4.2");
}

#[test]
fn req_no_version() {
    let content = "pytest\n";
    let deps = parse_requirements_txt(content, &manifest("requirements.txt"));
    assert_eq!(deps.len(), 1);
    assert_eq!(deps[0].name, "pytest");
    assert_eq!(deps[0].version, "");
}

#[test]
fn req_comments_and_blanks() {
    let content = "# This is a comment\n\nrequests==2.28.0\n\n# Another comment\n";
    let deps = parse_requirements_txt(content, &manifest("requirements.txt"));
    assert_eq!(deps.len(), 1);
    assert_eq!(deps[0].name, "requests");
}

#[test]
fn req_extras() {
    let content = "uvicorn[standard]==0.20.0\n";
    let deps = parse_requirements_txt(content, &manifest("requirements.txt"));
    assert_eq!(deps.len(), 1);
    assert_eq!(deps[0].name, "uvicorn");
    assert_eq!(deps[0].version, "0.20.0");
}

#[test]
fn req_option_lines_skipped() {
    let content = "-r base.txt\n--index-url https://pypi.org/simple\nflask==2.0\n";
    let deps = parse_requirements_txt(content, &manifest("requirements.txt"));
    assert_eq!(deps.len(), 1);
    assert_eq!(deps[0].name, "flask");
}

#[test]
fn req_inline_comment() {
    let content = "requests==2.28.0  # HTTP library\n";
    let deps = parse_requirements_txt(content, &manifest("requirements.txt"));
    assert_eq!(deps.len(), 1);
    assert_eq!(deps[0].name, "requests");
    assert_eq!(deps[0].version, "2.28.0");
}

#[test]
fn req_line_numbers() {
    let content = "# comment\nrequests==2.28.0\n\nflask==2.3.1\n";
    let deps = parse_requirements_txt(content, &manifest("requirements.txt"));
    assert_eq!(deps.len(), 2);
    assert_eq!(deps[0].line, 2);
    assert_eq!(deps[1].line, 4);
}

#[test]
fn req_empty_content() {
    let deps = parse_requirements_txt("", &manifest("requirements.txt"));
    assert!(deps.is_empty());
}

#[test]
fn req_env_markers() {
    let content = "pywin32>=300; sys_platform == \"win32\"\n";
    let deps = parse_requirements_txt(content, &manifest("requirements.txt"));
    assert_eq!(deps.len(), 1);
    assert_eq!(deps[0].name, "pywin32");
    assert_eq!(deps[0].version, "300");
}

#[test]
fn req_single_char_operator_and_ranges() {
    let content = "pkg>1.0,<2.0\nold<3\n";
    let deps = parse_requirements_txt(content, &manifest("requirements.txt"));
    assert_eq!(deps.len(), 2);
    assert_eq!(deps[0].name, "pkg");
    assert_eq!(deps[0].version, "1.0");
    assert_eq!(deps[1].name, "old");
    assert_eq!(deps[1].version, "3");
    assert_eq!(deps[1].manifest_file, "/project/requirements.txt");
}

#[test]
fn cargo_string_version() {
    let content = r#"
[dependencies]
serde = "1.0"
"#;
    let deps = parse_cargo_toml(content, &manifest("Cargo.toml"));
    assert_eq!(deps.len(), 1);
    assert_eq!(deps[0].name, "serde");
    assert_eq!(deps[0].version, "1.0");
    assert_eq!(deps[0].source, DepSource::CratesIo);
}

#[test]
fn cargo_table_version() {
    let content = r#"
[dependencies]
tokio = { version = "1.28", features = ["full"] }
"#;
    let deps = parse_cargo_toml(content, &manifest("Cargo.toml"));
    assert_eq!(deps.len(), 1);
    assert_eq!(deps[0].name, "tokio");
    assert_eq!(deps[0].version, "1.28");
}

#[test]
fn cargo_workspace_dep_skipped() {
    let content = r#"
[dependencies]
serde = { workspace = true }
"#;
    let deps = parse_cargo_toml(content, &manifest("Cargo.toml"));
    assert!(deps.is_empty());
}

#[test]
fn cargo_path_only_dep_skipped() {
    let content = r#"
[dependencies]
my-crate = { path = "../my-crate" }
"#;
    let deps = parse_cargo_toml(content, &manifest("Cargo.toml"));
    assert!(deps.is_empty());
}

#[test]
fn cargo_dev_dependencies() {
    let content = r#"
[dev-dependencies]
tempfile = "3"
"#;
    let deps = parse_cargo_toml(content, &manifest("Cargo.toml"));
    assert_eq!(deps.len(), 1);
    assert_eq!(deps[0].name, "tempfile");
    assert_eq!(deps[0].version, "3");
}

#[test]
fn cargo_mixed_sections() {
    let content = r#"
[dependencies]
serde = "1.0"

[dev-dependencies]
tempfile = "3"
"#;
    let deps = parse_cargo_toml(content, &manifest("Cargo.toml"));
    assert_eq!(deps.len(), 2);
    let names: Vec<&str> = deps.iter().map(|d| d.name.as_str()).collect();
    assert!(names.contains(&"serde"));
    assert!(names.contains(&"tempfile"));
}

#[test]
fn cargo_line_numbers() {
    let content = r#"[package]
name = "my-crate"

[dependencies]
serde = "1.0"
tokio = { version = "1.28" }
"#;
    let deps = parse_cargo_toml(content, &manifest("Cargo.toml"));
    assert_eq!(deps.len(), 2);
    let serde_dep = deps.iter().find(|d| d.name == "serde").unwrap();
    assert_eq!(serde_dep.line, 5);
    let tokio_dep = deps.iter().find(|d| d.name == "tokio").unwrap();
    assert_eq!(tokio_dep.line, 6);
}

#[test]
fn cargo_empty_content() {
    let deps = parse_cargo_toml("", &manifest("Cargo.toml"));
    assert!(deps.is_empty());
}

#[test]
fn cargo_invalid_toml() {
    let deps = parse_cargo_toml("not [valid toml", &manifest("Cargo.toml"));
    assert!(deps.is_empty());
}

#[test]
fn cargo_workspace_with_version_still_extracted() {
    let content = r#"
[dependencies]
serde = { workspace = true, version = "1.0" }
"#;
    let deps = parse_cargo_toml(content, &manifest("Cargo.toml"));
    assert!(deps.is_empty());
}

#[test]
fn cargo_target_and_build_sections_in_order() {
    let content = r#"[dependencies]
a = "1"

[target.'cfg(unix)'.dependencies]
b = "2"

[build-dependencies]
c = "3"
"#;
    let deps = parse_cargo_toml(content, &manifest("Cargo.toml"));
    let names: Vec<&str> = deps.iter().map(|d| d.name.as_str()).collect();
    assert_eq!(names, vec!["a", "b", "c"]);
    assert_eq!(deps[1].line, 5);
    assert_eq!(deps[2].manifest_file, "/project/Cargo.toml");
}

#[test]
fn pkg_dependencies() {
    let content = r#"{
  "dependencies": {
    "express": "^4.18.0",
    "lodash": "4.17.21"
  }
}"#;
    let deps = parse_package_json(content, &manifest("package.json"));
    assert_eq!(deps.len(), 2);
    assert_eq!(deps[0].source, DepSource::Npm);
    let express = deps.iter().find(|d| d.name == "express").unwrap();
    assert_eq!(express.version, "^4.18.0");
    let lodash = deps.iter().find(|d| d.name == "lodash").unwrap();
    assert_eq!(lodash.version, "4.17.21");
}

#[test]
fn pkg_dev_dependencies() {
    let content = r#"{
  "devDependencies": {
    "jest": "^29.0.0"
  }
}"#;
    let deps = parse_package_json(content, &manifest("package.json"));
    assert_eq!(deps.len(), 1);
    assert_eq!(deps[0].name, "jest");
    assert_eq!(deps[0].version, "^29.0.0");
}

#[test]
fn pkg_both_sections() {
    let content = r#"{
  "dependencies": {
    "express": "^4.18.0"
  },
  "devDependencies": {
    "jest": "^29.0.0"
  }
}"#;
    let deps = parse_package_json(content, &manifest("package.json"));
    assert_eq!(deps.len(), 2);
    let names: Vec<&str> = deps.iter().map(|d| d.name.as_str()).collect();
    assert!(names.contains(&"express"));
    assert!(names.contains(&"jest"));
}

#[test]
fn pkg_no_deps_section() {
    let content = r#"{"name": "my-app", "version": "1.0.0"}"#;
    let deps = parse_package_json(content, &manifest("package.json"));
    assert!(deps.is_empty());
}

#[test]
fn pkg_version_ranges() {
    let content = r#"{
  "dependencies": {
    "a": "^1.0.0",
    "b": "~2.0.0",
    "c": ">=3.0.0 <4.0.0",
    "d": "*"
  }
}"#;
    let deps = parse_package_json(content, &manifest("package.json"));
    assert_eq!(deps.len(), 4);
    let d_dep = deps.iter().find(|d| d.name == "d").unwrap();
    assert_eq!(d_dep.version, "*");
}

#[test]
fn pkg_line_numbers() {
    let content = r#"{
  "dependencies": {
    "express": "^4.18.0",
    "lodash": "4.17.21"
  }
}"#;
    let deps = parse_package_json(content, &manifest("package.json"));
    let express = deps.iter().find(|d| d.name == "express").unwrap();
    assert_eq!(express.line, 3);
    let lodash = deps.iter().find(|d| d.name == "lodash").unwrap();
    assert_eq!(lodash.line, 4);
}

#[test]
fn pkg_empty_content() {
    let deps = parse_package_json("", &manifest("package.json"));
    assert!(deps.is_empty());
}

#[test]
fn pkg_invalid_json() {
    let deps = parse_package_json("not json", &manifest("package.json"));
    assert!(deps.is_empty());
}

#[test]
fn pkg_manifest_path_preserved() {
    let content = r#"{"dependencies": {"a": "1.0"}}"#;
    let path = "/some/project/package.json";
    let deps = parse_package_json(content, path);
    assert_eq!(deps[0].manifest_file, path);
}

#[test]
fn pkg_non_string_version_reads_empty() {
    let content = r#"{"dependencies": {"a": 1, "b": "2"}}"#;
    let deps = parse_package_json(content, &manifest("package.json"));
    assert_eq!(deps.len(), 2);
    assert_eq!(deps[0].version, "");
    assert_eq!(deps[1].version, "2");
    assert_eq!(deps[0].line, 0);
}
