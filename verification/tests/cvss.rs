use apex::detect::cvss::{
    cvss_vector_string, cwe_default_cvss, AttackComplexity, AttackVector, CvssBase, Impact,
    PrivilegesRequired, Scope, UserInteraction,
};

#[test]
fn cvss_vector_format() {
    let base = cwe_default_cvss(78);
    let vec = cvss_vector_string(&base);
    assert!(vec.starts_with("CVSS:3.1/"), "Vector string should start with CVSS:3.1/, got: {vec}");
    assert_eq!(vec, "CVSS:3.1/AV:N/AC:L/PR:N/UI:N/S:U/C:H/I:H/A:H");
}

#[test]
fn cvss_defaults_for_known_and_unknown_cwes() {
    assert_eq!(cvss_vector_string(&cwe_default_cvss(79)), "CVSS:3.1/AV:N/AC:L/PR:N/UI:R/S:C/C:L/I:L/A:N");
    assert_eq!(cvss_vector_string(&cwe_default_cvss(918)), "CVSS:3.1/AV:N/AC:L/PR:N/UI:N/S:C/C:H/I:L/A:N");
    assert_eq!(cvss_vector_string(&cwe_default_cvss(295)), "CVSS:3.1/AV:N/AC:H/PR:N/UI:N/S:U/C:H/I:H/A:N");
    assert_eq!(cvss_vector_string(&cwe_default_cvss(99999)), "CVSS:3.1/AV:N/AC:L/PR:N/UI:N/S:U/C:L/I:N/A:N");
    assert_eq!(cwe_default_cvss(22).confidentiality, Impact::High);
    assert_eq!(cwe_default_cvss(22).integrity, Impact::NoImpact);
}

#[test]
fn cvss_vector_of_every_letter() {
    let base = CvssBase {
        attack_vector: AttackVector::Physical,
        attack_complexity: AttackComplexity::High,
        privileges_required: PrivilegesRequired::High,
        user_interaction: UserInteraction::Required,
        scope: Scope::Changed,
        confidentiality: Impact::NoImpact,
        integrity: Impact::Low,
        availability: Impact::High,
    };
    assert_eq!(cvss_vector_string(&base), "CVSS:3.1/AV:P/AC:H/PR:H/UI:R/S:C/C:N/I:L/A:H");
    let adj = CvssBase { attack_vector: AttackVector::Adjacent, privileges_required: PrivilegesRequired::Low, ..base };
    assert!(cvss_vector_string(&adj).starts_with("CVSS:3.1/AV:A/AC:H/PR:L/"));
    let local = CvssBase { attack_vector: AttackVector::Local, ..base };
    assert!(cvss_vector_string(&local).starts_with("CVSS:3.1/AV:L/"));
}
