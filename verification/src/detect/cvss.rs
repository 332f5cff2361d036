//! CVSS v3.1 base metrics: the default metrics of common weaknesses (CWE)
//! and the vector string that names a metric group.
use vstd::prelude::*;
use crate::text::{push_str, string_of};

verus! {

/// Attack Vector metric.
#[derive(Debug, Clone, Copy, PartialEq, Eq, Structural)]
pub enum AttackVector {
    Network,
    Adjacent,
    Local,
    Physical,
}

/// Attack Complexity metric.
#[derive(Debug, Clone, Copy, PartialEq, Eq, Structural)]
pub enum AttackComplexity {
    Low,
    High,
}

/// Privileges Required metric.
#[derive(Debug, Clone, Copy, PartialEq, Eq, Structural)]
pub enum PrivilegesRequired {
    /// No privileges required (CVSS "None").
    NotRequired,
    Low,
    High,
}

/// User Interaction metric.
#[derive(Debug, Clone, Copy, PartialEq, Eq, Structural)]
pub enum UserInteraction {
    /// No user interaction (CVSS "None").
    NotRequired,
    Required,
}

/// Scope metric.
#[derive(Debug, Clone, Copy, PartialEq, Eq, Structural)]
pub enum Scope {
    Unchanged,
    Changed,
}

/// Impact metric (confidentiality, integrity and availability).
#[derive(Debug, Clone, Copy, PartialEq, Eq, Structural)]
pub enum Impact {
    /// No impact (CVSS "None").
    NoImpact,
    Low,
    High,
}

/// CVSS v3.1 base metric group.
#[derive(Debug, Clone, Copy, PartialEq, Eq, Structural)]
pub struct CvssBase {
    pub attack_vector: AttackVector,
    pub attack_complexity: AttackComplexity,
    pub privileges_required: PrivilegesRequired,
    pub user_interaction: UserInteraction,
    pub scope: Scope,
    pub confidentiality: Impact,
    pub integrity: Impact,
    pub availability: Impact,
}

/// Default base metrics of a CWE: the usual profile of the common
/// weaknesses listed, a medium default for any other.
pub open spec fn default_cvss(cwe_id: u32) -> CvssBase {
    match cwe_id {
        // OS command injection
        78 => CvssBase {
            attack_vector: AttackVector::Network,
            attack_complexity: AttackComplexity::Low,
            privileges_required: PrivilegesRequired::NotRequired,
            user_interaction: UserInteraction::NotRequired,
            scope: Scope::Unchanged,
            confidentiality: Impact::High,
            integrity: Impact::High,
            availability: Impact::High,
        },
        // cross-site scripting
        79 => CvssBase {
            attack_vector: AttackVector::Network,
            attack_complexity: AttackComplexity::Low,
            privileges_required: PrivilegesRequired::NotRequired,
            user_interaction: UserInteraction::Required,
            scope: Scope::Changed,
            confidentiality: Impact::Low,
            integrity: Impact::Low,
            availability: Impact::NoImpact,
        },
        // SQL injection
        89 => CvssBase {
            attack_vector: AttackVector::Network,
            attack_complexity: AttackComplexity::Low,
            privileges_required: PrivilegesRequired::NotRequired,
            user_interaction: UserInteraction::NotRequired,
            scope: Scope::Unchanged,
            confidentiality: Impact::High,
            integrity: Impact::High,
            availability: Impact::High,
        },
        // code injection
        94 => CvssBase {
            attack_vector: AttackVector::Network,
            attack_complexity: AttackComplexity::Low,
            privileges_required: PrivilegesRequired::NotRequired,
            user_interaction: UserInteraction::NotRequired,
            scope: Scope::Unchanged,
            confidentiality: Impact::High,
            integrity: Impact::High,
            availability: Impact::High,
        },
        // path traversal
        22 => CvssBase {
            attack_vector: AttackVector::Network,
            attack_complexity: AttackComplexity::Low,
            privileges_required: PrivilegesRequired::NotRequired,
            user_interaction: UserInteraction::NotRequired,
            scope: Scope::Unchanged,
            confidentiality: Impact::High,
            integrity: Impact::NoImpact,
            availability: Impact::NoImpact,
        },
        // deserialization of untrusted data
        502 => CvssBase {
            attack_vector: AttackVector::Network,
            attack_complexity: AttackComplexity::Low,
            privileges_required: PrivilegesRequired::NotRequired,
            user_interaction: UserInteraction::NotRequired,
            scope: Scope::Unchanged,
            confidentiality: Impact::High,
            integrity: Impact::High,
            availability: Impact::High,
        },
        // hard-coded credentials
        798 => CvssBase {
            attack_vector: AttackVector::Network,
            attack_complexity: AttackComplexity::Low,
            privileges_required: PrivilegesRequired::NotRequired,
            user_interaction: UserInteraction::NotRequired,
            scope: Scope::Unchanged,
            confidentiality: Impact::High,
            integrity: Impact::High,
            availability: Impact::High,
        },
        // server-side request forgery
        918 => CvssBase {
            attack_vector: AttackVector::Network,
            attack_complexity: AttackComplexity::Low,
            privileges_required: PrivilegesRequired::NotRequired,
            user_interaction: UserInteraction::NotRequired,
            scope: Scope::Changed,
            confidentiality: Impact::High,
            integrity: Impact::Low,
            availability: Impact::NoImpact,
        },
        // weak hash
        328 => CvssBase {
            attack_vector: AttackVector::Network,
            attack_complexity: AttackComplexity::Low,
            privileges_required: PrivilegesRequired::NotRequired,
            user_interaction: UserInteraction::NotRequired,
            scope: Scope::Unchanged,
            confidentiality: Impact::High,
            integrity: Impact::NoImpact,
            availability: Impact::NoImpact,
        },
        // improper certificate validation
        295 => CvssBase {
            attack_vector: AttackVector::Network,
            attack_complexity: AttackComplexity::High,
            privileges_required: PrivilegesRequired::NotRequired,
            user_interaction: UserInteraction::NotRequired,
            scope: Scope::Unchanged,
            confidentiality: Impact::High,
            integrity: Impact::High,
            availability: Impact::NoImpact,
        },
        // any other weakness
        _ => CvssBase {
            attack_vector: AttackVector::Network,
            attack_complexity: AttackComplexity::Low,
            privileges_required: PrivilegesRequired::NotRequired,
            user_interaction: UserInteraction::NotRequired,
            scope: Scope::Unchanged,
            confidentiality: Impact::Low,
            integrity: Impact::NoImpact,
            availability: Impact::NoImpact,
        },
    }
}

/// Letter of an attack vector in a vector string.
pub open spec fn av_letter(v: AttackVector) -> char {
    match v {
        AttackVector::Network => 'N',
        AttackVector::Adjacent => 'A',
        AttackVector::Local => 'L',
        AttackVector::Physical => 'P',
    }
}

/// Letter of an attack complexity.
pub open spec fn ac_letter(v: AttackComplexity) -> char {
    match v {
        AttackComplexity::Low => 'L',
        AttackComplexity::High => 'H',
    }
}

/// Letter of a privileges requirement.
pub open spec fn pr_letter(v: PrivilegesRequired) -> char {
    match v {
        PrivilegesRequired::NotRequired => 'N',
        PrivilegesRequired::Low => 'L',
        PrivilegesRequired::High => 'H',
    }
}

/// Letter of a user interaction.
pub open spec fn ui_letter(v: UserInteraction) -> char {
    match v {
        UserInteraction::NotRequired => 'N',
        UserInteraction::Required => 'R',
    }
}

/// Letter of a scope.
pub open spec fn scope_letter(v: Scope) -> char {
    match v {
        Scope::Unchanged => 'U',
        Scope::Changed => 'C',
    }
}

/// Letter of an impact.
pub open spec fn impact_letter(v: Impact) -> char {
    match v {
        Impact::NoImpact => 'N',
        Impact::Low => 'L',
        Impact::High => 'H',
    }
}

/// The vector string `CVSS:3.1/AV:_/AC:_/PR:_/UI:_/S:_/C:_/I:_/A:_` of a
/// metric group.
pub open spec fn vector_string(b: CvssBase) -> Seq<char> {
    "CVSS:3.1/AV:"@ + seq![av_letter(b.attack_vector)] + "/AC:"@ + seq![ac_letter(b.attack_complexity)]
        + "/PR:"@ + seq![pr_letter(b.privileges_required)] + "/UI:"@ + seq![ui_letter(b.user_interaction)]
        + "/S:"@ + seq![scope_letter(b.scope)] + "/C:"@ + seq![impact_letter(b.confidentiality)] + "/I:"@
        + seq![impact_letter(b.integrity)] + "/A:"@ + seq![impact_letter(b.availability)]
}

/// Default CVSS base metrics of a CWE: the usual profile of OS command,
/// SQL and code injection, cross-site scripting, path traversal, unsafe
/// deserialization, hard-coded credentials, server-side request forgery,
/// weak hashes and improper certificate validation; a medium-severity
/// profile for any other CWE.
pub fn cwe_default_cvss(cwe_id: u32) -> (b: CvssBase)
    ensures
        b == default_cvss(cwe_id),
{
    match cwe_id {
        78 => CvssBase {
            attack_vector: AttackVector::Network,
            attack_complexity: AttackComplexity::Low,
            privileges_required: PrivilegesRequired::NotRequired,
            user_interaction: UserInteraction::NotRequired,
            scope: Scope::Unchanged,
            confidentiality: Impact::High,
            integrity: Impact::High,
            availability: Impact::High,
        },
        79 => CvssBase {
            attack_vector: AttackVector::Network,
            attack_complexity: AttackComplexity::Low,
            privileges_required: PrivilegesRequired::NotRequired,
            user_interaction: UserInteraction::Required,
            scope: Scope::Changed,
            confidentiality: Impact::Low,
            integrity: Impact::Low,
            availability: Impact::NoImpact,
        },
        89 => CvssBase {
            attack_vector: AttackVector::Network,
            attack_complexity: AttackComplexity::Low,
            privileges_required: PrivilegesRequired::NotRequired,
            user_interaction: UserInteraction::NotRequired,
            scope: Scope::Unchanged,
            confidentiality: Impact::High,
            integrity: Impact::High,
            availability: Impact::High,
        },
        94 => CvssBase {
            attack_vector: AttackVector::Network,
            attack_complexity: AttackComplexity::Low,
            privileges_required: PrivilegesRequired::NotRequired,
            user_interaction: UserInteraction::NotRequired,
            scope: Scope::Unchanged,
            confidentiality: Impact::High,
            integrity: Impact::High,
            availability: Impact::High,
        },
        22 => CvssBase {
            attack_vector: AttackVector::Network,
            attack_complexity: AttackComplexity::Low,
            privileges_required: PrivilegesRequired::NotRequired,
            user_interaction: UserInteraction::NotRequired,
            scope: Scope::Unchanged,
            confidentiality: Impact::High,
            integrity: Impact::NoImpact,
            availability: Impact::NoImpact,
        },
        502 => CvssBase {
            attack_vector: AttackVector::Network,
            attack_complexity: AttackComplexity::Low,
            privileges_required: PrivilegesRequired::NotRequired,
            user_interaction: UserInteraction::NotRequired,
            scope: Scope::Unchanged,
            confidentiality: Impact::High,
            integrity: Impact::High,
            availability: Impact::High,
        },
        798 => CvssBase {
            attack_vector: AttackVector::Network,
            attack_complexity: AttackComplexity::Low,
            privileges_required: PrivilegesRequired::NotRequired,
            user_interaction: UserInteraction::NotRequired,
            scope: Scope::Unchanged,
            confidentiality: Impact::High,
            integrity: Impact::High,
            availability: Impact::High,
        },
        918 => CvssBase {
            attack_vector: AttackVector::Network,
            attack_complexity: AttackComplexity::Low,
            privileges_required: PrivilegesRequired::NotRequired,
            user_interaction: UserInteraction::NotRequired,
            scope: Scope::Changed,
            confidentiality: Impact::High,
            integrity: Impact::Low,
            availability: Impact::NoImpact,
        },
        328 => CvssBase {
            attack_vector: AttackVector::Network,
            attack_complexity: AttackComplexity::Low,
            privileges_required: PrivilegesRequired::NotRequired,
            user_interaction: UserInteraction::NotRequired,
            scope: Scope::Unchanged,
            confidentiality: Impact::High,
            integrity: Impact::NoImpact,
            availability: Impact::NoImpact,
        },
        295 => CvssBase {
            attack_vector: AttackVector::Network,
            attack_complexity: AttackComplexity::High,
            privileges_required: PrivilegesRequired::NotRequired,
            user_interaction: UserInteraction::NotRequired,
            scope: Scope::Unchanged,
            confidentiality: Impact::High,
            integrity: Impact::High,
            availability: Impact::NoImpact,
        },
        _ => CvssBase {
            attack_vector: AttackVector::Network,
            attack_complexity: AttackComplexity::Low,
            privileges_required: PrivilegesRequired::NotRequired,
            user_interaction: UserInteraction::NotRequired,
            scope: Scope::Unchanged,
            confidentiality: Impact::Low,
            integrity: Impact::NoImpact,
            availability: Impact::NoImpact,
        },
    }
}

impl AttackVector {
    fn abbrev(self) -> (c: char)
        ensures
            c == av_letter(self),
    {
        match self {
            AttackVector::Network => 'N',
            AttackVector::Adjacent => 'A',
            AttackVector::Local => 'L',
            AttackVector::Physical => 'P',
        }
    }
}

impl AttackComplexity {
    fn abbrev(self) -> (c: char)
        ensures
            c == ac_letter(self),
    {
        match self {
            AttackComplexity::Low => 'L',
            AttackComplexity::High => 'H',
        }
    }
}

impl PrivilegesRequired {
    fn abbrev(self) -> (c: char)
        ensures
            c == pr_letter(self),
    {
        match self {
            PrivilegesRequired::NotRequired => 'N',
            PrivilegesRequired::Low => 'L',
            PrivilegesRequired::High => 'H',
        }
    }
}

impl UserInteraction {
    fn abbrev(self) -> (c: char)
        ensures
            c == ui_letter(self),
    {
        match self {
            UserInteraction::NotRequired => 'N',
            UserInteraction::Required => 'R',
        }
    }
}

impl Scope {
    fn abbrev(self) -> (c: char)
        ensures
            c == scope_letter(self),
    {
        match self {
            Scope::Unchanged => 'U',
            Scope::Changed => 'C',
        }
    }
}

impl Impact {
    fn abbrev(self) -> (c: char)
        ensures
            c == impact_letter(self),
    {
        match self {
            Impact::NoImpact => 'N',
            Impact::Low => 'L',
            Impact::High => 'H',
        }
    }
}

/// The CVSS v3.1 vector string of a metric group, e.g.
/// `CVSS:3.1/AV:N/AC:L/PR:N/UI:N/S:U/C:H/I:H/A:H`.
pub fn cvss_vector_string(base: &CvssBase) -> (s: String)
    ensures
        s@ == vector_string(*base),
{
    let mut out: Vec<char> = Vec::new();
    push_str(&mut out, "CVSS:3.1/AV:");
    out.push(base.attack_vector.abbrev());
    push_str(&mut out, "/AC:");
    out.push(base.attack_complexity.abbrev());
    push_str(&mut out, "/PR:");
    out.push(base.privileges_required.abbrev());
    push_str(&mut out, "/UI:");
    out.push(base.user_interaction.abbrev());
    push_str(&mut out, "/S:");
    out.push(base.scope.abbrev());
    push_str(&mut out, "/C:");
    out.push(base.confidentiality.abbrev());
    push_str(&mut out, "/I:");
    out.push(base.integrity.abbrev());
    push_str(&mut out, "/A:");
    out.push(base.availability.abbrev());
    assert(out@ =~= vector_string(*base));
    string_of(&out)
}

// ───────────────────────── laws ─────────────────────────

/// The metrics of the critical profile (base 9.8): remote, easy, no
/// privileges, no interaction, full loss of confidentiality, integrity and
/// availability.
pub open spec fn is_critical_profile(b: CvssBase) -> bool {
    &&& b.attack_vector == AttackVector::Network
    &&& b.attack_complexity == AttackComplexity::Low
    &&& b.privileges_required == PrivilegesRequired::NotRequired
    &&& b.user_interaction == UserInteraction::NotRequired
    &&& b.scope == Scope::Unchanged
    &&& b.confidentiality == Impact::High
    &&& b.integrity == Impact::High
    &&& b.availability == Impact::High
}

/// OS command injection (78), SQL injection (89), code injection (94),
/// unsafe deserialization (502) and hard-coded credentials (798) get the
/// critical profile, whose vector is
/// `CVSS:3.1/AV:N/AC:L/PR:N/UI:N/S:U/C:H/I:H/A:H`.
pub proof fn law_cvss_critical_weaknesses(cwe: u32)
    requires
        cwe == 78 || cwe == 89 || cwe == 94 || cwe == 502 || cwe == 798,
    ensures
        is_critical_profile(default_cvss(cwe)),
        vector_string(default_cvss(cwe)) == "CVSS:3.1/AV:N/AC:L/PR:N/UI:N/S:U/C:H/I:H/A:H"@,
{
    reveal_strlit("CVSS:3.1/AV:N/AC:L/PR:N/UI:N/S:U/C:H/I:H/A:H");
    reveal_strlit("CVSS:3.1/AV:");
    reveal_strlit("/AC:");
    reveal_strlit("/PR:");
    reveal_strlit("/UI:");
    reveal_strlit("/S:");
    reveal_strlit("/C:");
    reveal_strlit("/I:");
    reveal_strlit("/A:");
    assert(vector_string(default_cvss(cwe)) =~= "CVSS:3.1/AV:N/AC:L/PR:N/UI:N/S:U/C:H/I:H/A:H"@);
}

/// The other listed weaknesses keep their own profiles: cross-site scripting
/// (79) needs user interaction, changes scope and loses only some
/// confidentiality and integrity; path traversal (22) and weak hashes (328)
/// lose confidentiality only; server-side request forgery (918) changes
/// scope, with high confidentiality and low integrity loss; improper
/// certificate validation (295) is hard to exploit and spares availability.
pub proof fn law_cvss_other_weaknesses(cwe: u32)
    ensures
        cwe == 79 ==> vector_string(default_cvss(cwe)) == "CVSS:3.1/AV:N/AC:L/PR:N/UI:R/S:C/C:L/I:L/A:N"@,
        cwe == 22 || cwe == 328 ==> vector_string(default_cvss(cwe)) == "CVSS:3.1/AV:N/AC:L/PR:N/UI:N/S:U/C:H/I:N/A:N"@,
        cwe == 918 ==> vector_string(default_cvss(cwe)) == "CVSS:3.1/AV:N/AC:L/PR:N/UI:N/S:C/C:H/I:L/A:N"@,
        cwe == 295 ==> vector_string(default_cvss(cwe)) == "CVSS:3.1/AV:N/AC:H/PR:N/UI:N/S:U/C:H/I:H/A:N"@,
{
    reveal_strlit("CVSS:3.1/AV:N/AC:L/PR:N/UI:R/S:C/C:L/I:L/A:N");
    reveal_strlit("CVSS:3.1/AV:N/AC:L/PR:N/UI:N/S:U/C:H/I:N/A:N");
    reveal_strlit("CVSS:3.1/AV:N/AC:L/PR:N/UI:N/S:C/C:H/I:L/A:N");
    reveal_strlit("CVSS:3.1/AV:N/AC:H/PR:N/UI:N/S:U/C:H/I:H/A:N");
    reveal_strlit("CVSS:3.1/AV:");
    reveal_strlit("/AC:");
    reveal_strlit("/PR:");
    reveal_strlit("/UI:");
    reveal_strlit("/S:");
    reveal_strlit("/C:");
    reveal_strlit("/I:");
    reveal_strlit("/A:");
    if cwe == 79 {
        assert(vector_string(default_cvss(cwe)) =~= "CVSS:3.1/AV:N/AC:L/PR:N/UI:R/S:C/C:L/I:L/A:N"@);
    }
    if cwe == 22 || cwe == 328 {
        assert(vector_string(default_cvss(cwe)) =~= "CVSS:3.1/AV:N/AC:L/PR:N/UI:N/S:U/C:H/I:N/A:N"@);
    }
    if cwe == 918 {
        assert(vector_string(default_cvss(cwe)) =~= "CVSS:3.1/AV:N/AC:L/PR:N/UI:N/S:C/C:H/I:L/A:N"@);
    }
    if cwe == 295 {
        assert(vector_string(default_cvss(cwe)) =~= "CVSS:3.1/AV:N/AC:H/PR:N/UI:N/S:U/C:H/I:H/A:N"@);
    }
}

/// Any weakness without a profile of its own gets the medium default:
/// remote and easy, with low confidentiality loss only (base 5.3).
pub proof fn law_cvss_unlisted_weakness(cwe: u32)
    requires
        cwe != 78 && cwe != 79 && cwe != 89 && cwe != 94 && cwe != 22 && cwe != 502 && cwe != 798
            && cwe != 918 && cwe != 328 && cwe != 295,
    ensures
        vector_string(default_cvss(cwe)) == "CVSS:3.1/AV:N/AC:L/PR:N/UI:N/S:U/C:L/I:N/A:N"@,
{
    reveal_strlit("CVSS:3.1/AV:N/AC:L/PR:N/UI:N/S:U/C:L/I:N/A:N");
    reveal_strlit("CVSS:3.1/AV:");
    reveal_strlit("/AC:");
    reveal_strlit("/PR:");
    reveal_strlit("/UI:");
    reveal_strlit("/S:");
    reveal_strlit("/C:");
    reveal_strlit("/I:");
    reveal_strlit("/A:");
    assert(vector_string(default_cvss(cwe)) =~= "CVSS:3.1/AV:N/AC:L/PR:N/UI:N/S:U/C:L/I:N/A:N"@);
}

} // verus!
