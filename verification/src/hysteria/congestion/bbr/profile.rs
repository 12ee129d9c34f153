//! How bold to be.

use vstd::prelude::*;

use crate::hysteria::error::{HysteriaError, Result};
use crate::text::{lower, same_text, to_lower};

verus! {

/// How bold to be.
#[derive(Debug, Clone, Copy, PartialEq, Eq, Structural, Hash)]
pub enum Profile {
    Conservative,
    Standard,
    Aggressive,
}

/// The profile that holds where none is chosen.
pub const PROFILE_STANDARD: Profile = Profile::Standard;

/// The profile of that name; the case of its letters does not matter, and no
/// name stands for the standard one.
pub open spec fn profile_named(s: Seq<char>) -> Option<Profile> {
    let name = lower(s);
    if name == ""@ || name == "standard"@ {
        Some(Profile::Standard)
    } else if name == "conservative"@ {
        Some(Profile::Conservative)
    } else if name == "aggressive"@ {
        Some(Profile::Aggressive)
    } else {
        None
    }
}

impl Profile {
    /// The name of the profile.
    pub open spec fn name(self) -> Seq<char> {
        match self {
            Profile::Conservative => "conservative"@,
            Profile::Standard => "standard"@,
            Profile::Aggressive => "aggressive"@,
        }
    }

    /// The profile of that name.
    pub fn parse(s: &str) -> (r: Result<Self>)
        ensures
            match r {
                Ok(p) => profile_named(s@) == Some(p),
                Err(HysteriaError::UnsupportedBbrProfile(name)) => {
                    &&& profile_named(s@) is None
                    &&& name@ == lower(s@)
                },
                Err(_) => false,
            },
    {
        let name: String = to_lower(s);
        if same_text(name.as_str(), "") || same_text(name.as_str(), "standard") {
            Ok(Profile::Standard)
        } else if same_text(name.as_str(), "conservative") {
            Ok(Profile::Conservative)
        } else if same_text(name.as_str(), "aggressive") {
            Ok(Profile::Aggressive)
        } else {
            Err(HysteriaError::UnsupportedBbrProfile(name))
        }
    }

    /// The name of the profile.
    pub fn as_str(&self) -> (s: &'static str)
        ensures
            s@ == self.name(),
    {
        match self {
            Profile::Conservative => "conservative",
            Profile::Standard => "standard",
            Profile::Aggressive => "aggressive",
        }
    }
}

/// Reading a profile's name gives the profile.
pub proof fn law_profile_name_round_trip(p: Profile)
    ensures
        profile_named(p.name()) == Some(p),
{
    reveal_strlit("");
    reveal_strlit("standard");
    reveal_strlit("conservative");
    reveal_strlit("aggressive");
    assert(lower(p.name()) =~= p.name());
    assert("standard"@.len() == 8);
    assert("conservative"@.len() == 12);
    assert("aggressive"@.len() == 10);
}

/// The case of a name's letters does not matter, no name stands for the standard
/// profile, and there are no other names than the three.
pub proof fn law_profiles_by_name(s: Seq<char>, t: Seq<char>)
    ensures
        lower(s) == lower(t) ==> profile_named(s) == profile_named(t),
        s.len() == 0 ==> profile_named(s) == Some(Profile::Standard),
        profile_named(s) matches Some(p) ==> s.len() == 0 || lower(s) == p.name(),
{
    reveal_strlit("");
    reveal_strlit("standard");
    if s.len() == 0 {
        assert(lower(s) =~= ""@);
    }
    assert(lower(s).len() == s.len());
    assert(""@.len() == 0);
}

} // verus!
