use apex::detect::lockfile::{parse_cargo_lock_str, parse_package_lock_str, parse_requirements_str};

#[test]
fn parse_requirements_basic() {
    let content = "requests==2.31.0\nflask>=2.0.0\nnumpy\n";
    let deps = parse_requirements_str(content);
    assert_eq!(deps.len(), 3);

    assert_eq!(deps[0].name, "requests");
    assert_eq!(deps[0].version, "2.31.0");
    assert_eq!(deps[0].purl, "pkg:pypi/requests@2.31.0");

    assert_eq!(deps[1].name, "flask");
    assert_eq!(deps[1].version, "2.0.0");

    assert_eq!(deps[2].name, "numpy");
    assert_eq!(deps[2].version, "");
    assert_eq!(deps[2].purl, "pkg:pypi/numpy");
}

#[test]
fn parse_requirements_comments_and_blanks() {
    let content = "# comment\n\nrequests==1.0\n  # another\n";
    let deps = parse_requirements_str(content);
    assert_eq!(deps.len(), 1);
    assert_eq!(deps[0].name, "requests");
}

#[test]
fn parse_requirements_extras() {
    let content = "requests[security]==2.31.0\n";
    let deps = parse_requirements_str(content);
    assert_eq!(deps[0].name, "requests");
    assert_eq!(deps[0].version, "2.31.0");
}

#[test]
fn parse_requirements_env_markers() {
    let content = "pywin32==306 ; sys_platform == 'win32'\n";
    let deps = parse_requirements_str(content);
    assert_eq!(deps.len(), 1);
    assert_eq!(deps[0].name, "pywin32");
    assert_eq!(deps[0].version, "306");
}

#[test]
fn parse_requirements_flags_skipped() {
    let content = "-r base.txt\n--extra-index-url https://example.com\nrequests==1.0\n";
    let deps = parse_requirements_str(content);
    assert_eq!(deps.len(), 1);
}

#[test]
fn parse_requirements_inline_comment() {
    let content = "requests==2.31.0 # HTTP library\n";
    let deps = parse_requirements_str(content);
    assert_eq!(deps[0].name, "requests");
    assert_eq!(deps[0].version, "2.31.0");
}

#[test]
fn parse_requirements_tilde_equals() {
    let content = "django~=4.2\n";
    let deps = parse_requirements_str(content);
    assert_eq!(deps[0].name, "django");
    assert_eq!(deps[0].version, "4.2");
}

#[test]
fn parse_requirements_empty() {
    let deps = parse_requirements_str("");
    assert!(deps.is_empty());
}

#[test]
fn parse_requirements_other_operators_and_metadata() {
    let deps = parse_requirements_str("a<=1.5\nb!=2\n[x]==3\n");
    assert_eq!(deps.len(), 2);
    assert_eq!(deps[0].name, "a");
    assert_eq!(deps[0].version, "1.5");
    assert_eq!(deps[1].purl, "pkg:pypi/b@2");
    assert!(deps[1].source_url.is_none());
    assert!(deps[1].checksum.is_none());
    assert!(deps[1].license.is_none());
}

#[test]
fn parse_cargo_lock_basic() {
    let content = r#"
[[package]]
name = "serde"
version = "1.0.200"
source = "registry+https://github.com/rust-lang/crates.io-index"
checksum = "abc123"

[[package]]
name = "tokio"
version = "1.37.0"
source = "registry+https://github.com/rust-lang/crates.io-index"
"#;
    let deps = parse_cargo_lock_str(content).unwrap();
    assert_eq!(deps.len(), 2);
    assert_eq!(deps[0].name, "serde");
    assert_eq!(deps[0].version, "1.0.200");
    assert_eq!(deps[0].purl, "pkg:cargo/serde@1.0.200");
    assert_eq!(deps[0].checksum, Some("abc123".into()));
    assert_eq!(deps[1].name, "tokio");
    assert!(deps[1].checksum.is_none());
}

#[test]
fn parse_cargo_lock_empty() {
    let deps = parse_cargo_lock_str("").unwrap();
    assert!(deps.is_empty());
}

#[test]
fn parse_cargo_lock_invalid() {
    let result = parse_cargo_lock_str("not valid toml {{{}}}");
    assert!(result.is_err());
}

#[test]
fn parse_cargo_lock_entry_without_version_is_error() {
    let content = "[[package]]\nname = \"serde\"\n";
    assert!(parse_cargo_lock_str(content).is_err());
    let content = "[[package]]\nname = \"serde\"\nversion = \"1\"\nsource = 3\n";
    assert!(parse_cargo_lock_str(content).is_err());
    assert!(parse_cargo_lock_str("package = 1\n").is_err());
}

#[test]
fn parse_cargo_lock_source_url_kept() {
    let content = "[[package]]\nname = \"a\"\nversion = \"0.1.0\"\nsource = \"git+https://x\"\n";
    let deps = parse_cargo_lock_str(content).unwrap();
    assert_eq!(deps[0].source_url, Some("git+https://x".to_string()));
    assert_eq!(deps[0].license, None);
}

#[test]
fn parse_package_lock_v2() {
    let content = r#"{
        "lockfileVersion": 2,
        "packages": {
            "": {"name": "my-app", "version": "1.0.0"},
            "node_modules/express": {
                "version": "4.18.2",
                "resolved": "https://registry.npmjs.org/express/-/express-4.18.2.tgz",
                "integrity": "sha512-abc",
                "license": "MIT"
            },
            "node_modules/@scope/pkg": {
                "version": "2.0.0"
            }
        }
    }"#;
    let deps = parse_package_lock_str(content).unwrap();
    assert_eq!(deps.len(), 2);

    let express = deps.iter().find(|d| d.name == "express").unwrap();
    assert_eq!(express.version, "4.18.2");
    assert_eq!(express.purl, "pkg:npm/express@4.18.2");
    assert_eq!(express.license, Some("MIT".into()));
    assert!(express.checksum.is_some());

    let scoped = deps.iter().find(|d| d.name == "@scope/pkg").unwrap();
    assert_eq!(scoped.version, "2.0.0");
    assert_eq!(scoped.purl, "pkg:npm/@scope/pkg@2.0.0");
}

#[test]
fn parse_package_lock_v1_fallback() {
    let content = r#"{
        "lockfileVersion": 1,
        "dependencies": {
            "lodash": {
                "version": "4.17.21",
                "resolved": "https://registry.npmjs.org/lodash/-/lodash-4.17.21.tgz",
                "integrity": "sha512-xyz"
            }
        }
    }"#;
    let deps = parse_package_lock_str(content).unwrap();
    assert_eq!(deps.len(), 1);
    assert_eq!(deps[0].name, "lodash");
    assert_eq!(deps[0].purl, "pkg:npm/lodash@4.17.21");
}

#[test]
fn parse_package_lock_empty() {
    let deps = parse_package_lock_str("{}").unwrap();
    assert!(deps.is_empty());
}

#[test]
fn parse_package_lock_invalid() {
    let result = parse_package_lock_str("not json");
    assert!(result.is_err());
}

#[test]
fn parse_package_lock_nested_name_and_v1_license_ignored() {
    let content = r#"{"packages": {
        "node_modules/a/node_modules/b": {"version": "1"},
        "weird": {"version": "2"},
        "node_modules/c": {"name": "see", "version": "3"}
    }}"#;
    let deps = parse_package_lock_str(content).unwrap();
    let names: Vec<&str> = deps.iter().map(|d| d.name.as_str()).collect();
    assert_eq!(names, vec!["b", "see"]);
    let content = r#"{"dependencies": {"x": {"license": "MIT"}}}"#;
    let deps = parse_package_lock_str(content).unwrap();
    assert_eq!(deps[0].license, None);
    assert_eq!(deps[0].version, "");
    assert_eq!(deps[0].purl, "pkg:npm/x@");
}
