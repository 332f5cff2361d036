use apex::detect::crypto_failure::scan_crypto_failure;
use apex::detect::finding::Severity;

#[test]
fn detect_md5() {
    let source = "import hashlib\nh = hashlib.md5(data)\n";
    let findings = scan_crypto_failure(source, "hash.py");
    assert!(!findings.is_empty());
    assert!(findings[0].cwe_ids.contains(&328));
}

#[test]
fn detect_sha1() {
    let source = "digest = SHA1(message)\n";
    let findings = scan_crypto_failure(source, "crypto.py");
    assert!(!findings.is_empty());
}

#[test]
fn detect_des() {
    let source = "cipher = DES.new(key, DES.MODE_CBC)\n";
    let findings = scan_crypto_failure(source, "encrypt.py");
    assert!(!findings.is_empty());
    assert!(findings[0].cwe_ids.contains(&327));
}

#[test]
fn detect_ecb_mode() {
    let source = "cipher = AES.new(key, AES.MODE_ECB)\n";
    let findings = scan_crypto_failure(source, "encrypt.py");
    assert!(!findings.is_empty());
}

#[test]
fn detect_random_in_security_context() {
    let source = "token = random.random()\n";
    let findings = scan_crypto_failure(source, "auth.py");
    assert!(!findings.is_empty());
    assert!(findings[0].cwe_ids.contains(&330));
}

#[test]
fn detect_hardcoded_key() {
    let source = "key = b\"supersecretkey12\"\n";
    let findings = scan_crypto_failure(source, "config.py");
    assert!(!findings.is_empty());
    assert!(findings[0].cwe_ids.contains(&321));
}

#[test]
fn skip_sha256() {
    let source = "h = hashlib.sha256(data)\n";
    let findings = scan_crypto_failure(source, "hash.py");
    assert!(findings.is_empty());
}

#[test]
fn skip_secrets_token_bytes() {
    let source = "token = secrets.token_bytes(32)\n";
    let findings = scan_crypto_failure(source, "auth.py");
    assert!(findings.is_empty());
}

#[test]
fn detect_multiple_issues() {
    let source = "h = hashlib.md5(x)\ncipher = DES.new(k)\n";
    let findings = scan_crypto_failure(source, "bad.py");
    assert!(findings.len() >= 2);
}

#[test]
fn no_false_positive_on_comments() {
    let source = "# MD5 is insecure\n// Don't use DES\n";
    let findings = scan_crypto_failure(source, "notes.py");
    assert!(findings.is_empty());
}

#[test]
fn crypto_finding_fields_are_filled() {
    let findings = scan_crypto_failure("x = 1\nh = hashlib.md5(data)\n", "a.py");
    assert_eq!(findings.len(), 1);
    let f = &findings[0];
    assert_eq!(f.detector, "crypto_failure");
    assert_eq!(f.file, "a.py");
    assert_eq!(f.line, Some(2));
    assert_eq!(f.severity, Severity::Medium);
    assert_eq!(f.cwe_ids, vec![328]);
}

#[test]
fn crypto_findings_get_distinct_ids() {
    let findings = scan_crypto_failure("h = hashlib.md5(x)\ncipher = DES.new(k)\n", "b.py");
    assert_eq!(findings.len(), 2);
    assert_ne!(findings[0].id, findings[1].id);
}
