use vstd::prelude::*;
use crate::strutil::str_eq;

verus! {

/// Highway classes kept only on a preferred surface.
pub open spec fn spec_conditional_highway(h: Seq<char>) -> bool {
    h == "living_street"@ || h == "unclassified"@ || h == "residential"@ || h == "service"@
}

/// Highway classes kept regardless of surface.
pub open spec fn spec_default_highway(h: Seq<char>) -> bool {
    h == "motorway"@ || h == "motorway_link"@ || h == "primary"@ || h == "primary_link"@ || h
        == "secondary"@ || h == "secondary_link"@ || h == "tertiary"@ || h == "tertiary_link"@
        || h == "trunk"@ || h == "trunk_link"@
}

/// Surfaces good enough for a conditional highway class.
pub open spec fn spec_pref_surface(s: Seq<char>) -> bool {
    s == "paved"@ || s == "asphalt"@ || s == "concrete"@ || s == "concrete:lanes"@ || s
        == "concrete:plates"@ || s == "paving_stones"@ || s == "sett"@ || s
        == "unhewn_cobblestone"@ || s == "cobblestone"@
}

/// Surfaces that reject a way outright.
pub open spec fn spec_reject_surface(s: Seq<char>) -> bool {
    s == "dirt"@ || s == "earth"@ || s == "ground"@ || s == "mud"@ || s == "sand"@ || s
        == "grass"@ || s == "unpaved"@ || s == "compacted"@ || s == "fine_gravel"@ || s
        == "gravel"@ || s == "pebblestone"@
}

/// The highway classes kept only on a preferred surface.
pub fn conditional_highway() -> (r: Vec<&'static str>)
    ensures
        r@.len() == 4,
        r@[0]@ == "living_street"@,
        r@[1]@ == "unclassified"@,
        r@[2]@ == "residential"@,
        r@[3]@ == "service"@,
{
    let mut v: Vec<&'static str> = Vec::new();
    v.push("living_street");
    v.push("unclassified");
    v.push("residential");
    v.push("service");
    v
}

/// The highway classes kept regardless of surface.
pub fn default_highway() -> (r: Vec<&'static str>)
    ensures
        r@.len() == 10,
        r@[0]@ == "motorway"@,
        r@[1]@ == "motorway_link"@,
        r@[2]@ == "primary"@,
        r@[3]@ == "primary_link"@,
        r@[4]@ == "secondary"@,
        r@[5]@ == "secondary_link"@,
        r@[6]@ == "tertiary"@,
        r@[7]@ == "tertiary_link"@,
        r@[8]@ == "trunk"@,
        r@[9]@ == "trunk_link"@,
{
    let mut v: Vec<&'static str> = Vec::new();
    v.push("motorway");
    v.push("motorway_link");
    v.push("primary");
    v.push("primary_link");
    v.push("secondary");
    v.push("secondary_link");
    v.push("tertiary");
    v.push("tertiary_link");
    v.push("trunk");
    v.push("trunk_link");
    v
}

/// The surfaces good enough for a conditional highway class.
pub fn pref_surface() -> (r: Vec<&'static str>)
    ensures
        r@.len() == 9,
        r@[0]@ == "paved"@,
        r@[1]@ == "asphalt"@,
        r@[2]@ == "concrete"@,
        r@[3]@ == "concrete:lanes"@,
        r@[4]@ == "concrete:plates"@,
        r@[5]@ == "paving_stones"@,
        r@[6]@ == "sett"@,
        r@[7]@ == "unhewn_cobblestone"@,
        r@[8]@ == "cobblestone"@,
{
    let mut v: Vec<&'static str> = Vec::new();
    v.push("paved");
    v.push("asphalt");
    v.push("concrete");
    v.push("concrete:lanes");
    v.push("concrete:plates");
    v.push("paving_stones");
    v.push("sett");
    v.push("unhewn_cobblestone");
    v.push("cobblestone");
    v
}

/// The surfaces that reject a way outright.
pub fn reject_surface() -> (r: Vec<&'static str>)
    ensures
        r@.len() == 11,
        r@[0]@ == "dirt"@,
        r@[1]@ == "earth"@,
        r@[2]@ == "ground"@,
        r@[3]@ == "mud"@,
        r@[4]@ == "sand"@,
        r@[5]@ == "grass"@,
        r@[6]@ == "unpaved"@,
        r@[7]@ == "compacted"@,
        r@[8]@ == "fine_gravel"@,
        r@[9]@ == "gravel"@,
        r@[10]@ == "pebblestone"@,
{
    let mut v: Vec<&'static str> = Vec::new();
    v.push("dirt");
    v.push("earth");
    v.push("ground");
    v.push("mud");
    v.push("sand");
    v.push("grass");
    v.push("unpaved");
    v.push("compacted");
    v.push("fine_gravel");
    v.push("gravel");
    v.push("pebblestone");
    v
}

/// Whether a way is filtered out: no highway class, a rejected surface, a
/// conditional class without a preferred surface, or an unknown class.
pub open spec fn spec_filter(highway: Option<Seq<char>>, surface: Seq<char>) -> bool {
    match highway {
        None => true,
        Some(h) => spec_reject_surface(surface) || (spec_conditional_highway(h)
            && !spec_pref_surface(surface)) || (!spec_default_highway(h)
            && !spec_conditional_highway(h)),
    }
}

/// Decide whether a way with the given highway class and surface is
/// filtered out of the network.
pub fn filter(highway: Option<&str>, surface: &str) -> (r: bool)
    ensures
        r == spec_filter(
            match highway {
                Some(h) => Some(h@),
                None => None,
            },
            surface@,
        ),
{
    let h = match highway {
        None => {
            return true;
        },
        Some(h) => h,
    };
    let rejected = str_eq(surface, "dirt") || str_eq(surface, "earth") || str_eq(surface, "ground")
        || str_eq(surface, "mud") || str_eq(surface, "sand") || str_eq(surface, "grass") || str_eq(
        surface,
        "unpaved",
    ) || str_eq(surface, "compacted") || str_eq(surface, "fine_gravel") || str_eq(
        surface,
        "gravel",
    ) || str_eq(surface, "pebblestone");
    let conditional = str_eq(h, "living_street") || str_eq(h, "unclassified") || str_eq(
        h,
        "residential",
    ) || str_eq(h, "service");
    let pref = str_eq(surface, "paved") || str_eq(surface, "asphalt") || str_eq(
        surface,
        "concrete",
    ) || str_eq(surface, "concrete:lanes") || str_eq(surface, "concrete:plates") || str_eq(
        surface,
        "paving_stones",
    ) || str_eq(surface, "sett") || str_eq(surface, "unhewn_cobblestone") || str_eq(
        surface,
        "cobblestone",
    );
    let default = str_eq(h, "motorway") || str_eq(h, "motorway_link") || str_eq(h, "primary")
        || str_eq(h, "primary_link") || str_eq(h, "secondary") || str_eq(h, "secondary_link")
        || str_eq(h, "tertiary") || str_eq(h, "tertiary_link") || str_eq(h, "trunk") || str_eq(
        h,
        "trunk_link",
    );
    rejected || (conditional && !pref) || (!default && !conditional)
}

} // verus!
