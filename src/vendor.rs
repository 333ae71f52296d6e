//! The known graphics vendors and the names they go by.
use crate::text::{folded, matches_folded, same_text, trimmed};
use vstd::prelude::*;
use vstd::string::StringExecFns;

verus! {

#[derive(Debug, Clone, Copy, Hash, PartialEq, Eq, Structural)]
pub enum Vendor {
    NVIDIA,
    AMD,
    Intel,
}

/// The vendor that a kernel driver identifier belongs to, if any.
pub open spec fn vendor_of_driver(driver: Seq<char>) -> Option<Vendor> {
    if driver == "nvidia"@ {
        Some(Vendor::NVIDIA)
    } else if driver == "i915"@ {
        Some(Vendor::Intel)
    } else if driver == "radv"@ || driver == "radeon"@ {
        Some(Vendor::AMD)
    } else {
        None
    }
}

/// The lower-case name under which a vendor is stored in the configuration.
pub open spec fn config_name(v: Vendor) -> Seq<char> {
    match v {
        Vendor::NVIDIA => seq!['n', 'v', 'i', 'd', 'i', 'a'],
        Vendor::AMD => seq!['a', 'm', 'd'],
        Vendor::Intel => seq!['i', 'n', 't', 'e', 'l'],
    }
}

/// The vendor that a configuration entry names: blanks around it and the
/// case of its letters do not matter.
pub open spec fn vendor_of_name(s: Seq<char>) -> Option<Vendor> {
    let t = folded(trimmed(s));
    if t == config_name(Vendor::NVIDIA) {
        Some(Vendor::NVIDIA)
    } else if t == config_name(Vendor::AMD) {
        Some(Vendor::AMD)
    } else if t == config_name(Vendor::Intel) {
        Some(Vendor::Intel)
    } else {
        None
    }
}

/// The name under which a vendor is shown to the user.
pub open spec fn display_name(v: Vendor) -> Seq<char> {
    match v {
        Vendor::NVIDIA => "NVIDIA"@,
        Vendor::AMD => "AMD"@,
        Vendor::Intel => "Intel"@,
    }
}

/// Maps a kernel driver identifier to its vendor; an unknown driver maps to
/// none.
pub fn classify(driver: &str) -> (r: Option<Vendor>)
    ensures
        r == vendor_of_driver(driver@),
{
    if same_text(driver, "nvidia") {
        Some(Vendor::NVIDIA)
    } else if same_text(driver, "i915") {
        Some(Vendor::Intel)
    } else if same_text(driver, "radv") || same_text(driver, "radeon") {
        Some(Vendor::AMD)
    } else {
        None
    }
}

/// Only the drivers `nvidia`, `i915`, `radv` and `radeon` are classified:
/// every other identifier yields no vendor.
pub proof fn lemma_unknown_driver_unclassified(driver: Seq<char>)
    requires
        driver != "nvidia"@,
        driver != "i915"@,
        driver != "radv"@,
        driver != "radeon"@,
    ensures
        vendor_of_driver(driver) is None,
{
}

/// Reading back the stored name of a vendor gives that vendor.
pub proof fn lemma_config_name_round_trip(v: Vendor)
    ensures
        vendor_of_name(config_name(v)) == Some(v),
{
    let s = config_name(v);
    assert(trimmed(s) == s);
    assert(folded(s) =~= s);
    assert(config_name(Vendor::NVIDIA) != config_name(Vendor::AMD));
    assert(config_name(Vendor::NVIDIA)[0] != config_name(Vendor::Intel)[0]);
    assert(config_name(Vendor::AMD) != config_name(Vendor::Intel));
}

impl Vendor {
    /// The vendor that a configuration entry names, if any.
    pub fn from_name(s: &str) -> (r: Option<Vendor>)
        ensures
            r == vendor_of_name(s@),
    {
        proof {
            reveal_strlit("nvidia");
            reveal_strlit("amd");
            reveal_strlit("intel");
        }
        if matches_folded(s, "nvidia") {
            assert("nvidia"@ =~= config_name(Vendor::NVIDIA));
            Some(Vendor::NVIDIA)
        } else if matches_folded(s, "amd") {
            assert("nvidia"@ =~= config_name(Vendor::NVIDIA));
            assert("amd"@ =~= config_name(Vendor::AMD));
            Some(Vendor::AMD)
        } else if matches_folded(s, "intel") {
            assert("nvidia"@ =~= config_name(Vendor::NVIDIA));
            assert("amd"@ =~= config_name(Vendor::AMD));
            assert("intel"@ =~= config_name(Vendor::Intel));
            Some(Vendor::Intel)
        } else {
            assert("nvidia"@ =~= config_name(Vendor::NVIDIA));
            assert("amd"@ =~= config_name(Vendor::AMD));
            assert("intel"@ =~= config_name(Vendor::Intel));
            None
        }
    }

    /// The lower-case name under which the vendor is stored.
    pub fn config_name(&self) -> (r: String)
        ensures
            r@ == config_name(*self),
    {
        proof {
            reveal_strlit("nvidia");
            reveal_strlit("amd");
            reveal_strlit("intel");
        }
        match self {
            Vendor::NVIDIA => {
                let r = String::from_str("nvidia");
                assert(r@ =~= config_name(*self));
                r
            },
            Vendor::AMD => {
                let r = String::from_str("amd");
                assert(r@ =~= config_name(*self));
                r
            },
            Vendor::Intel => {
                let r = String::from_str("intel");
                assert(r@ =~= config_name(*self));
                r
            },
        }
    }

    /// The name under which the vendor is shown.
    pub fn to_string(&self) -> (r: String)
        ensures
            r@ == display_name(*self),
    {
        match self {
            Vendor::NVIDIA => String::from_str("NVIDIA"),
            Vendor::AMD => String::from_str("AMD"),
            Vendor::Intel => String::from_str("Intel"),
        }
    }
}

} // verus!
