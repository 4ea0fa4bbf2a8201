use vstd::prelude::*;

verus! {

/// The license tiers a token can carry.
#[derive(Clone, Copy, Debug, PartialEq, Eq, Structural)]
pub enum LicenseType {
    Basic,
    Pro,
    ChinaBasic,
    ChinaPro,
    Business,
}

/// The stable external code of each tier.
pub open spec fn plan_code(t: LicenseType) -> Seq<char> {
    match t {
        LicenseType::Basic => "basic"@,
        LicenseType::Pro => "pro"@,
        LicenseType::ChinaBasic => "basic_china"@,
        LicenseType::ChinaPro => "pro_china"@,
        LicenseType::Business => "business"@,
    }
}

/// The external code of a tier, as an owned string.
pub fn type_string(l_type: LicenseType) -> (r: String)
    ensures
        r@ == plan_code(l_type),
{
    match l_type {
        LicenseType::Basic => "basic".to_owned(),
        LicenseType::Pro => "pro".to_owned(),
        LicenseType::ChinaBasic => "basic_china".to_owned(),
        LicenseType::ChinaPro => "pro_china".to_owned(),
        LicenseType::Business => "business".to_owned(),
    }
}

/// Every tier has a non-empty code, and no two tiers share one.
pub proof fn lemma_plan_codes_distinct(a: LicenseType, b: LicenseType)
    ensures
        plan_code(a).len() > 0,
        plan_code(a) == plan_code(b) <==> a == b,
{
    reveal_strlit("basic");
    reveal_strlit("pro");
    reveal_strlit("basic_china");
    reveal_strlit("pro_china");
    reveal_strlit("business");
    if a != b {
        assert(plan_code(a).len() != plan_code(b).len() || plan_code(a)[0] != plan_code(b)[0]
            || plan_code(a)[4] != plan_code(b)[4]);
    }
}

} // verus!
