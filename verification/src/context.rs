use vstd::prelude::*;
use vstd::string::StringExecFns;
use crate::chars::{to_upper_char, upper_char};
use crate::strutil::{str_chars, str_eq, string_from_chars};
use crate::tokens::Tokens;

verus! {

/// Raw configuration values a caller hands in to build a `Context`.
#[derive(Debug, Clone, PartialEq)]
pub struct InputContext {
    pub country: Option<String>,
    pub region: Option<String>,
    pub languages: Option<Vec<String>>,
}

/// Country code, optional region code, and the loaded abbreviation table.
#[derive(Debug, Clone, PartialEq)]
pub struct Context {
    pub country: String,
    pub region: Option<String>,
    pub tokens: Tokens,
}

/// Every character mapped through the uppercase table.
pub open spec fn upper_seq(s: Seq<char>) -> Seq<char> {
    s.map_values(|c: char| upper_char(c))
}

/// Uppercase every character of a string.
pub fn upper_string(s: &String) -> (r: String)
    ensures
        r@ == upper_seq(s@),
{
    let v = str_chars(s.as_str());
    let mut out: Vec<char> = Vec::new();
    let mut i: usize = 0;
    while i < v.len()
        invariant
            i <= v@.len(),
            v@ == s@,
            out@ =~= upper_seq(s@).take(i as int),
        decreases v@.len() - i,
    {
        out.push(to_upper_char(v[i]));
        proof {
            assert(out@ =~= upper_seq(s@).take(i + 1));
        }
        i = i + 1;
    }
    proof {
        assert(upper_seq(s@).take(s@.len() as int) =~= upper_seq(s@));
    }
    string_from_chars(&out)
}

/// The region's full name for a `country-region` code the library knows.
pub open spec fn spec_region_name(code: Seq<char>) -> Option<Seq<char>> {
    if code == "US-AL"@ {
        Some("Alabama"@)
    } else     if code == "US-AK"@ {
        Some("Alaska"@)
    } else     if code == "US-AZ"@ {
        Some("Arizona"@)
    } else     if code == "US-AR"@ {
        Some("Arkansas"@)
    } else     if code == "US-CA"@ {
        Some("California"@)
    } else     if code == "US-CO"@ {
        Some("Colorado"@)
    } else     if code == "US-CT"@ {
        Some("Connecticut"@)
    } else     if code == "US-DE"@ {
        Some("Delaware"@)
    } else     if code == "US-FL"@ {
        Some("Florida"@)
    } else     if code == "US-GA"@ {
        Some("Georgia"@)
    } else     if code == "US-HI"@ {
        Some("Hawaii"@)
    } else     if code == "US-ID"@ {
        Some("Idaho"@)
    } else     if code == "US-IL"@ {
        Some("Illinois"@)
    } else     if code == "US-IN"@ {
        Some("Indiana"@)
    } else     if code == "US-IA"@ {
        Some("Iowa"@)
    } else     if code == "US-KS"@ {
        Some("Kansas"@)
    } else     if code == "US-KY"@ {
        Some("Kentucky"@)
    } else     if code == "US-LA"@ {
        Some("Louisiana"@)
    } else     if code == "US-ME"@ {
        Some("Maine"@)
    } else     if code == "US-MD"@ {
        Some("Maryland"@)
    } else     if code == "US-MA"@ {
        Some("Massachusetts"@)
    } else     if code == "US-MI"@ {
        Some("Michigan"@)
    } else     if code == "US-MN"@ {
        Some("Minnesota"@)
    } else     if code == "US-MS"@ {
        Some("Mississippi"@)
    } else     if code == "US-MO"@ {
        Some("Missouri"@)
    } else     if code == "US-MT"@ {
        Some("Montana"@)
    } else     if code == "US-NE"@ {
        Some("Nebraska"@)
    } else     if code == "US-NV"@ {
        Some("Nevada"@)
    } else     if code == "US-NH"@ {
        Some("New Hampshire"@)
    } else     if code == "US-NJ"@ {
        Some("New Jersey"@)
    } else     if code == "US-NM"@ {
        Some("New Mexico"@)
    } else     if code == "US-NY"@ {
        Some("New York"@)
    } else     if code == "US-NC"@ {
        Some("North Carolina"@)
    } else     if code == "US-ND"@ {
        Some("North Dakota"@)
    } else     if code == "US-OH"@ {
        Some("Ohio"@)
    } else     if code == "US-OK"@ {
        Some("Oklahoma"@)
    } else     if code == "US-OR"@ {
        Some("Oregon"@)
    } else     if code == "US-PA"@ {
        Some("Pennsylvania"@)
    } else     if code == "US-RI"@ {
        Some("Rhode Island"@)
    } else     if code == "US-SC"@ {
        Some("South Carolina"@)
    } else     if code == "US-SD"@ {
        Some("South Dakota"@)
    } else     if code == "US-TN"@ {
        Some("Tennessee"@)
    } else     if code == "US-TX"@ {
        Some("Texas"@)
    } else     if code == "US-UT"@ {
        Some("Utah"@)
    } else     if code == "US-VT"@ {
        Some("Vermont"@)
    } else     if code == "US-VA"@ {
        Some("Virginia"@)
    } else     if code == "US-WA"@ {
        Some("Washington"@)
    } else     if code == "US-WV"@ {
        Some("West Virginia"@)
    } else     if code == "US-WI"@ {
        Some("Wisconsin"@)
    } else     if code == "US-WY"@ {
        Some("Wyoming"@)
    } else     if code == "US-DC"@ {
        Some("District of Columbia"@)
    } else     if code == "US-AS"@ {
        Some("American Samoa"@)
    } else     if code == "US-GU"@ {
        Some("Guam"@)
    } else     if code == "US-MP"@ {
        Some("Northern Mariana Islands"@)
    } else     if code == "US-PR"@ {
        Some("Puerto Rico"@)
    } else     if code == "US-UM"@ {
        Some("United States Minor Outlying Islands"@)
    } else     if code == "US-VI"@ {
        Some("Virgin Islands"@)
    } else     if code == "CA-ON"@ {
        Some("Ontario"@)
    } else     if code == "CA-QC"@ {
        Some("Quebec"@)
    } else     if code == "CA-NS"@ {
        Some("Nova Scotia"@)
    } else     if code == "CA-NB"@ {
        Some("New Brunswick"@)
    } else     if code == "CA-MB"@ {
        Some("Manitoba"@)
    } else     if code == "CA-BC"@ {
        Some("British Columbia"@)
    } else     if code == "CA-PE"@ {
        Some("Prince Edward Island"@)
    } else     if code == "CA-SK"@ {
        Some("Saskatchewan"@)
    } else     if code == "CA-AB"@ {
        Some("Alberta"@)
    } else     if code == "CA-NL"@ {
        Some("Newfoundland and Labrador"@)
    } else     if code == "CA-NT"@ {
        Some("Northwest Territories"@)
    } else     if code == "CA-YT"@ {
        Some("Yukon"@)
    } else     if code == "CA-NU"@ {
        Some("Nunavut"@)
    } else     {
        None
    }
}

fn region_name_of(code: &str) -> (r: Option<String>)
    ensures
        match r {
            Some(n) => spec_region_name(code@) == Some(n@),
            None => spec_region_name(code@) is None,
        },
{
        if str_eq(code, "US-AL") {
            return Some(String::from_str("Alabama"));
        }
        if str_eq(code, "US-AK") {
            return Some(String::from_str("Alaska"));
        }
        if str_eq(code, "US-AZ") {
            return Some(String::from_str("Arizona"));
        }
        if str_eq(code, "US-AR") {
            return Some(String::from_str("Arkansas"));
        }
        if str_eq(code, "US-CA") {
            return Some(String::from_str("California"));
        }
        if str_eq(code, "US-CO") {
            return Some(String::from_str("Colorado"));
        }
        if str_eq(code, "US-CT") {
            return Some(String::from_str("Connecticut"));
        }
        if str_eq(code, "US-DE") {
            return Some(String::from_str("Delaware"));
        }
        if str_eq(code, "US-FL") {
            return Some(String::from_str("Florida"));
        }
        if str_eq(code, "US-GA") {
            return Some(String::from_str("Georgia"));
        }
        if str_eq(code, "US-HI") {
            return Some(String::from_str("Hawaii"));
        }
        if str_eq(code, "US-ID") {
            return Some(String::from_str("Idaho"));
        }
        if str_eq(code, "US-IL") {
            return Some(String::from_str("Illinois"));
        }
        if str_eq(code, "US-IN") {
            return Some(String::from_str("Indiana"));
        }
        if str_eq(code, "US-IA") {
            return Some(String::from_str("Iowa"));
        }
        if str_eq(code, "US-KS") {
            return Some(String::from_str("Kansas"));
        }
        if str_eq(code, "US-KY") {
            return Some(String::from_str("Kentucky"));
        }
        if str_eq(code, "US-LA") {
            return Some(String::from_str("Louisiana"));
        }
        if str_eq(code, "US-ME") {
            return Some(String::from_str("Maine"));
        }
        if str_eq(code, "US-MD") {
            return Some(String::from_str("Maryland"));
        }
        if str_eq(code, "US-MA") {
            return Some(String::from_str("Massachusetts"));
        }
        if str_eq(code, "US-MI") {
            return Some(String::from_str("Michigan"));
        }
        if str_eq(code, "US-MN") {
            return Some(String::from_str("Minnesota"));
        }
        if str_eq(code, "US-MS") {
            return Some(String::from_str("Mississippi"));
        }
        if str_eq(code, "US-MO") {
            return Some(String::from_str("Missouri"));
        }
        if str_eq(code, "US-MT") {
            return Some(String::from_str("Montana"));
        }
        if str_eq(code, "US-NE") {
            return Some(String::from_str("Nebraska"));
        }
        if str_eq(code, "US-NV") {
            return Some(String::from_str("Nevada"));
        }
        if str_eq(code, "US-NH") {
            return Some(String::from_str("New Hampshire"));
        }
        if str_eq(code, "US-NJ") {
            return Some(String::from_str("New Jersey"));
        }
        if str_eq(code, "US-NM") {
            return Some(String::from_str("New Mexico"));
        }
        if str_eq(code, "US-NY") {
            return Some(String::from_str("New York"));
        }
        if str_eq(code, "US-NC") {
            return Some(String::from_str("North Carolina"));
        }
        if str_eq(code, "US-ND") {
            return Some(String::from_str("North Dakota"));
        }
        if str_eq(code, "US-OH") {
            return Some(String::from_str("Ohio"));
        }
        if str_eq(code, "US-OK") {
            return Some(String::from_str("Oklahoma"));
        }
        if str_eq(code, "US-OR") {
            return Some(String::from_str("Oregon"));
        }
        if str_eq(code, "US-PA") {
            return Some(String::from_str("Pennsylvania"));
        }
        if str_eq(code, "US-RI") {
            return Some(String::from_str("Rhode Island"));
        }
        if str_eq(code, "US-SC") {
            return Some(String::from_str("South Carolina"));
        }
        if str_eq(code, "US-SD") {
            return Some(String::from_str("South Dakota"));
        }
        if str_eq(code, "US-TN") {
            return Some(String::from_str("Tennessee"));
        }
        if str_eq(code, "US-TX") {
            return Some(String::from_str("Texas"));
        }
        if str_eq(code, "US-UT") {
            return Some(String::from_str("Utah"));
        }
        if str_eq(code, "US-VT") {
            return Some(String::from_str("Vermont"));
        }
        if str_eq(code, "US-VA") {
            return Some(String::from_str("Virginia"));
        }
        if str_eq(code, "US-WA") {
            return Some(String::from_str("Washington"));
        }
        if str_eq(code, "US-WV") {
            return Some(String::from_str("West Virginia"));
        }
        if str_eq(code, "US-WI") {
            return Some(String::from_str("Wisconsin"));
        }
        if str_eq(code, "US-WY") {
            return Some(String::from_str("Wyoming"));
        }
        if str_eq(code, "US-DC") {
            return Some(String::from_str("District of Columbia"));
        }
        if str_eq(code, "US-AS") {
            return Some(String::from_str("American Samoa"));
        }
        if str_eq(code, "US-GU") {
            return Some(String::from_str("Guam"));
        }
        if str_eq(code, "US-MP") {
            return Some(String::from_str("Northern Mariana Islands"));
        }
        if str_eq(code, "US-PR") {
            return Some(String::from_str("Puerto Rico"));
        }
        if str_eq(code, "US-UM") {
            return Some(String::from_str("United States Minor Outlying Islands"));
        }
        if str_eq(code, "US-VI") {
            return Some(String::from_str("Virgin Islands"));
        }
        if str_eq(code, "CA-ON") {
            return Some(String::from_str("Ontario"));
        }
        if str_eq(code, "CA-QC") {
            return Some(String::from_str("Quebec"));
        }
        if str_eq(code, "CA-NS") {
            return Some(String::from_str("Nova Scotia"));
        }
        if str_eq(code, "CA-NB") {
            return Some(String::from_str("New Brunswick"));
        }
        if str_eq(code, "CA-MB") {
            return Some(String::from_str("Manitoba"));
        }
        if str_eq(code, "CA-BC") {
            return Some(String::from_str("British Columbia"));
        }
        if str_eq(code, "CA-PE") {
            return Some(String::from_str("Prince Edward Island"));
        }
        if str_eq(code, "CA-SK") {
            return Some(String::from_str("Saskatchewan"));
        }
        if str_eq(code, "CA-AB") {
            return Some(String::from_str("Alberta"));
        }
        if str_eq(code, "CA-NL") {
            return Some(String::from_str("Newfoundland and Labrador"));
        }
        if str_eq(code, "CA-NT") {
            return Some(String::from_str("Northwest Territories"));
        }
        if str_eq(code, "CA-YT") {
            return Some(String::from_str("Yukon"));
        }
        if str_eq(code, "CA-NU") {
            return Some(String::from_str("Nunavut"));
        }
    None
}

impl Context {
    /// Build a context; the country and region codes are uppercased.
    pub fn new(country: String, region: Option<String>, tokens: Tokens) -> (r: Context)
        ensures
            r.country@ == upper_seq(country@),
            (match region {
                Some(rg) => r.region matches Some(x) && x@ == upper_seq(rg@),
                None => r.region is None,
            }),
            r.tokens == tokens,
    {
        Context {
            country: upper_string(&country),
            region: match region {
                None => None,
                Some(rg) => Some(upper_string(&rg)),
            },
            tokens,
        }
    }

    /// The combined `country-region` code, where a region is set.
    pub fn region_code(&self) -> (r: Option<String>)
        ensures
            match r {
                Some(code) => self.region matches Some(rg) && code@ == self.country@ + "-"@
                    + rg@,
                None => self.region is None,
            },
    {
        match &self.region {
            None => None,
            Some(rg) => {
                let mut v = str_chars(self.country.as_str());
                v.push('-');
                let rv = str_chars(rg.as_str());
                let mut i: usize = 0;
                while i < rv.len()
                    invariant
                        i <= rv@.len(),
                        v@ =~= self.country@ + seq!['-'] + rv@.take(i as int),
                    decreases rv@.len() - i,
                {
                    v.push(rv[i]);
                    proof {
                        assert(v@ =~= self.country@ + seq!['-'] + rv@.take(i + 1));
                    }
                    i = i + 1;
                }
                proof {
                    reveal_strlit("-");
                    assert(rv@.take(rv@.len() as int) =~= rv@);
                    assert(seq!['-'] =~= "-"@);
                    assert(self.country@ + seq!['-'] + rv@ =~= self.country@ + "-"@ + rv@);
                }
                Some(string_from_chars(&v))
            },
        }
    }

    /// The full name of the context's region, where the library knows it.
    pub fn region_name(&self) -> (r: Option<String>)
        ensures
            match r {
                Some(n) => self.region matches Some(rg) && spec_region_name(
                    self.country@ + "-"@ + rg@,
                ) == Some(n@),
                None => self.region is None || spec_region_name(
                    self.country@ + "-"@ + self.region->Some_0@,
                ) is None,
            },
    {
        match self.region_code() {
            None => None,
            Some(code) => region_name_of(code.as_str()),
        }
    }

    /// Build a context from raw input values, loading the abbreviation
    /// table for the requested languages; a missing country reads as the
    /// empty code, and without languages the table is empty.
    pub fn from_input(input: InputContext) -> (r: Context)
        ensures
            r.country@ == upper_seq(
                match input.country {
                    Some(c) => c@,
                    None => Seq::<char>::empty(),
                },
            ),
            (match input.region {
                Some(rg) => r.region matches Some(x) && x@ == upper_seq(rg@),
                None => r.region is None,
            }),
            (match input.languages {
                Some(ls) => r.tokens@ == crate::tokens::spec_generate(
                    crate::tokens::string_views(ls@),
                ),
                None => r.tokens@.len() == 0,
            }),
    {
        let country = match input.country {
            Some(c) => c,
            None => String::new(),
        };
        let tokens = match input.languages {
            None => Tokens::new(Vec::new()),
            Some(languages) => Tokens::generate(languages),
        };
        proof {
            assert(upper_seq(Seq::<char>::empty()) =~= Seq::<char>::empty());
        }
        Context::new(country, input.region, tokens)
    }
}

} // verus!
