//! The places a forecast can be asked for, and what the user asked to see.

use vstd::prelude::*;
use crate::decimal::Decimal;
use crate::parameter::ParameterName;
use crate::text::lemma_pow10_facts;

verus! {

/// The places that a forecast can be asked for.
#[derive(Clone, Copy, Debug, PartialEq, Eq, Structural)]
pub enum Location {
    Sollentuna,
    Uppsala,
}

pub open spec fn location_text(l: Location) -> Seq<char> {
    match l {
        Location::Sollentuna => "Sollentuna"@,
        Location::Uppsala => "Uppsala"@,
    }
}

/// Longitude and latitude of a location, in degrees.
pub open spec fn location_point(l: Location) -> (Decimal, Decimal) {
    match l {
        Location::Sollentuna => (
            Decimal { mantissa: 17950055i128, exponent: -6i32 },
            Decimal { mantissa: 59429316i128, exponent: -6i32 },
        ),
        Location::Uppsala => (
            Decimal { mantissa: 17638927i128, exponent: -6i32 },
            Decimal { mantissa: 59858562i128, exponent: -6i32 },
        ),
    }
}

impl Location {
    /// The location's name.
    pub fn name(&self) -> (r: &'static str)
        ensures
            r@ == location_text(*self),
    {
        match self {
            Location::Sollentuna => "Sollentuna",
            Location::Uppsala => "Uppsala",
        }
    }

    /// Longitude and latitude, in degrees.
    pub fn coordinates(&self) -> (r: (Decimal, Decimal))
        ensures
            r == location_point(*self),
            r.0.wf(),
            r.1.wf(),
    {
        proof {
            lemma_pow10_facts();
        }
        match self {
            Location::Sollentuna => (
                Decimal { mantissa: 17950055, exponent: -6 },
                Decimal { mantissa: 59429316, exponent: -6 },
            ),
            Location::Uppsala => (
                Decimal { mantissa: 17638927, exponent: -6 },
                Decimal { mantissa: 59858562, exponent: -6 },
            ),
        }
    }
}

/// Hours shown when none are asked for.
pub const DEFAULT_HOURS: u8 = 7;

/// The parameters shown when none are asked for.
pub open spec fn default_parameters() -> Seq<ParameterName> {
    seq![
        ParameterName::t,
        ParameterName::ws,
        ParameterName::gust,
        ParameterName::tcc_mean,
        ParameterName::pmin,
        ParameterName::pmax,
        ParameterName::Wsymb2,
    ]
}

/// What the user asked to see.
pub struct Args {
    /// How many hours to show.
    pub hours: Option<u8>,
    /// Which parameters to show.
    pub parameters: Option<Vec<ParameterName>>,
    /// Where the forecast is for.
    pub location: Location,
}

impl Args {
    /// The parameters to show: those asked for, else the default selection.
    pub fn shown_parameters(&self) -> (r: Vec<ParameterName>)
        ensures
            r@ == match self.parameters {
                Some(p) => p@,
                None => default_parameters(),
            },
    {
        match &self.parameters {
            Some(p) => {
                let mut v: Vec<ParameterName> = Vec::new();
                let mut i: usize = 0;
                while i < p.len()
                    invariant
                        i <= p@.len(),
                        v@ == p@.subrange(0, i as int),
                    decreases p@.len() - i,
                {
                    v.push(p[i]);
                    i = i + 1;
                    assert(v@ =~= p@.subrange(0, i as int));
                }
                assert(v@ =~= p@);
                v
            },
            None => {
                let v = vec![
                    ParameterName::t,
                    ParameterName::ws,
                    ParameterName::gust,
                    ParameterName::tcc_mean,
                    ParameterName::pmin,
                    ParameterName::pmax,
                    ParameterName::Wsymb2,
                ];
                assert(v@ =~= default_parameters());
                v
            },
        }
    }

    /// The number of hours to show: as asked, else `DEFAULT_HOURS`.
    pub fn hours_to_show(&self) -> (r: u8)
        ensures
            r == match self.hours {
                Some(h) => h,
                None => DEFAULT_HOURS,
            },
    {
        match self.hours {
            Some(h) => h,
            None => DEFAULT_HOURS,
        }
    }
}

} // verus!
