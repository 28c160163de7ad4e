//! Administrative records and parse results.

use vstd::prelude::*;
use vstd::string::StringExecFns;
use crate::text::str_eq;

verus! {

/// One administrative record of the gazetteer: a province, a city under it,
/// and a district under the city, absent exactly for unit-less cities.
#[derive(Debug, Clone, PartialEq, Eq, Hash)]
pub struct Region {
    /// Province-level unit (province, municipality, autonomous region).
    pub province: String,
    /// City-level unit (prefecture-level city, autonomous prefecture).
    pub city: String,
    /// County-level unit; absent for cities without district subdivisions.
    pub district: Option<String>,
}

/// The mathematical content of a record: its three names as character
/// sequences.
#[verifier::ext_equal]
pub struct RegionView {
    pub province: Seq<char>,
    pub city: Seq<char>,
    pub district: Option<Seq<char>>,
}

impl View for Region {
    type V = RegionView;

    open spec fn view(&self) -> RegionView {
        RegionView {
            province: self.province@,
            city: self.city@,
            district: self.district.deep_view(),
        }
    }
}

impl DeepView for Region {
    type V = RegionView;

    open spec fn deep_view(&self) -> RegionView {
        self.view()
    }
}

impl Region {
    /// A new record from its three fields.
    pub fn new(province: String, city: String, district: Option<String>) -> (r: Self)
        ensures
            r@.province == province@,
            r@.city == city@,
            r@.district == district.deep_view(),
    {
        Region { province, city, district }
    }

    /// The record's names concatenated: province, city, then district if
    /// present.
    pub fn full_name(&self) -> (r: String)
        ensures
            r@ == self@.province + self@.city + (match self@.district {
                Some(d) => d,
                None => Seq::<char>::empty(),
            }),
    {
        let mut r = self.province.as_str().to_owned();
        r.append(self.city.as_str());
        match &self.district {
            Some(d) => {
                r.append(d.as_str());
            },
            None => {
                proof {
                    assert(r@ =~= self@.province + self@.city + Seq::<char>::empty());
                }
            },
        }
        r
    }
}

/// The result of parsing one address: the resolved administrative names and
/// the unconsumed remainder.
#[derive(Debug, Clone, PartialEq, Eq)]
pub struct ParsedAddress {
    /// Resolved province, if any.
    pub province: Option<String>,
    /// Resolved city, if any.
    pub city: Option<String>,
    /// Resolved district, if any.
    pub district: Option<String>,
    /// The unconsumed remainder of the trimmed input, right-trimmed.
    pub detail: String,
}

/// The mathematical content of a parse result.
#[verifier::ext_equal]
pub struct ParsedView {
    pub province: Option<Seq<char>>,
    pub city: Option<Seq<char>>,
    pub district: Option<Seq<char>>,
    pub detail: Seq<char>,
}

impl View for ParsedAddress {
    type V = ParsedView;

    open spec fn view(&self) -> ParsedView {
        ParsedView {
            province: self.province.deep_view(),
            city: self.city.deep_view(),
            district: self.district.deep_view(),
            detail: self.detail@,
        }
    }
}

/// The display form of a parse result: province, city (suppressed when it
/// repeats the province, as in a municipality), district, then the remainder.
pub open spec fn spec_full_address(v: ParsedView) -> Seq<char> {
    let p = match v.province {
        Some(p) => p,
        None => Seq::<char>::empty(),
    };
    let c = match v.city {
        Some(c) => if v.province == Some(c) {
            Seq::<char>::empty()
        } else {
            c
        },
        None => Seq::<char>::empty(),
    };
    let d = match v.district {
        Some(d) => d,
        None => Seq::<char>::empty(),
    };
    p + c + d + v.detail
}

impl Default for ParsedAddress {
    /// The all-absent result with an empty remainder.
    fn default() -> (r: Self)
        ensures
            r@.province is None,
            r@.city is None,
            r@.district is None,
            r@.detail == Seq::<char>::empty(),
    {
        ParsedAddress { province: None, city: None, district: None, detail: String::new() }
    }
}

impl ParsedAddress {
    /// The all-absent result with an empty remainder.
    pub fn empty() -> (r: Self)
        ensures
            r@.province is None,
            r@.city is None,
            r@.district is None,
            r@.detail == Seq::<char>::empty(),
    {
        Self::default()
    }

    /// Whether a province was resolved.
    pub fn has_province(&self) -> (r: bool)
        ensures
            r == (self@.province is Some),
    {
        self.province.is_some()
    }

    /// Whether a city was resolved.
    pub fn has_city(&self) -> (r: bool)
        ensures
            r == (self@.city is Some),
    {
        self.city.is_some()
    }

    /// Whether a district was resolved.
    pub fn has_district(&self) -> (r: bool)
        ensures
            r == (self@.district is Some),
    {
        self.district.is_some()
    }

    /// Whether province, city and district were all resolved.
    pub fn is_complete(&self) -> (r: bool)
        ensures
            r == (self@.province is Some && self@.city is Some && self@.district is Some),
    {
        self.province.is_some() && self.city.is_some() && self.district.is_some()
    }

    /// The display form of the result; a city equal to its province is not
    /// repeated.
    pub fn full_address(&self) -> (r: String)
        ensures
            r@ == spec_full_address(self@),
    {
        let mut r = String::new();
        if let Some(p) = &self.province {
            r.append(p.as_str());
        }
        if let Some(c) = &self.city {
            let repeated = match &self.province {
                Some(p) => str_eq(p.as_str(), c.as_str()),
                None => false,
            };
            if !repeated {
                r.append(c.as_str());
            }
        }
        if let Some(d) = &self.district {
            r.append(d.as_str());
        }
        if !self.detail.as_str().is_empty() {
            r.append(self.detail.as_str());
        }
        proof {
            assert(r@ =~= spec_full_address(self@));
        }
        r
    }
}

} // verus!
