//! Partition selectors shared by the currency and item collections.

use vstd::prelude::*;

verus! {

/// The league (market partition) a snapshot is fetched for. The
/// temporary and previous variants name the current and the preceding
/// challenge league.
#[derive(Debug, Clone, Copy, PartialEq, Eq, Structural)]
pub enum League {
    TmpStandard,
    TmpHardcore,
    TmpRuthless,
    TmpHardcoreRuthless,
    Standard,
    Hardcore,
    Ruthless,
    HardcoreRuthless,
    PrevStandard,
    PrevHardcore,
    PrevRuthless,
    PrevHardcoreRuthless,
}

impl League {
    /// The name of the league as the upstream API spells it.
    pub open spec fn spec_str(&self) -> Seq<char> {
        match self {
            League::TmpStandard => "Ancestor"@,
            League::TmpHardcore => "Hardcore+Ancestor"@,
            League::TmpRuthless => "Ruthless+Ancestor"@,
            League::TmpHardcoreRuthless => "HC+Ruthless+Ancestor"@,
            League::Standard => "Standard"@,
            League::Hardcore => "Hardcore"@,
            League::Ruthless => "Ruthless"@,
            League::HardcoreRuthless => "Hardcore+Ruthless"@,
            League::PrevStandard => "Crucible"@,
            League::PrevHardcore => "Hardcore+Crucible"@,
            League::PrevRuthless => "Ruthless+Crucible"@,
            League::PrevHardcoreRuthless => "HC+Ruthless+Crucible"@,
        }
    }

    /// The name of the league as the upstream API spells it.
    pub fn to_string(&self) -> (r: String)
        ensures
            r@ == self.spec_str(),
    {
        match self {
            League::TmpStandard => "Ancestor".to_owned(),
            League::TmpHardcore => "Hardcore+Ancestor".to_owned(),
            League::TmpRuthless => "Ruthless+Ancestor".to_owned(),
            League::TmpHardcoreRuthless => "HC+Ruthless+Ancestor".to_owned(),
            League::Standard => "Standard".to_owned(),
            League::Hardcore => "Hardcore".to_owned(),
            League::Ruthless => "Ruthless".to_owned(),
            League::HardcoreRuthless => "Hardcore+Ruthless".to_owned(),
            League::PrevStandard => "Crucible".to_owned(),
            League::PrevHardcore => "Hardcore+Crucible".to_owned(),
            League::PrevRuthless => "Ruthless+Crucible".to_owned(),
            League::PrevHardcoreRuthless => "HC+Ruthless+Crucible".to_owned(),
        }
    }
}

impl Default for League {
    /// The temporary challenge league is the default partition.
    fn default() -> (r: Self)
        ensures
            r == League::TmpStandard,
    {
        League::TmpStandard
    }
}

} // verus!
