//! Forecast parameters: their names and units, the decoding of raw
//! readings into typed values, and how readings are written and coloured.

use vstd::prelude::*;
use crate::decimal::{
    abs, clamp, compare, decimal_text, lemma_int_text_round_trip, lemma_text_round_trip,
    numeral_value, truncate, Decimal,
};
use crate::error::{DomainFault, ParseError};
use crate::text::{int_text, lemma_pow10_facts, nat_text, pow10, push_int, text_equals};

verus! {

/// The forecast variables that a report can hold, in enumeration order.
#[allow(non_camel_case_types)]
#[derive(Clone, Copy, Debug, PartialEq, Eq, Structural, Hash, PartialOrd, Ord)]
pub enum ParameterName {
    t,
    ws,
    gust,
    tcc_mean,
    lcc_mean,
    mcc_mean,
    hcc_mean,
    pmin,
    pmax,
    pmean,
    pmedian,
    pcat,
    spp,
    tstm,
    msl,
    vis,
    wd,
    r,
    Wsymb2,
}

/// The name as the wire format writes it.
pub open spec fn name_text(n: ParameterName) -> Seq<char> {
    match n {
        ParameterName::t => "t"@,
        ParameterName::ws => "ws"@,
        ParameterName::gust => "gust"@,
        ParameterName::tcc_mean => "tcc_mean"@,
        ParameterName::lcc_mean => "lcc_mean"@,
        ParameterName::mcc_mean => "mcc_mean"@,
        ParameterName::hcc_mean => "hcc_mean"@,
        ParameterName::pmin => "pmin"@,
        ParameterName::pmax => "pmax"@,
        ParameterName::pmean => "pmean"@,
        ParameterName::pmedian => "pmedian"@,
        ParameterName::pcat => "pcat"@,
        ParameterName::spp => "spp"@,
        ParameterName::tstm => "tstm"@,
        ParameterName::msl => "msl"@,
        ParameterName::vis => "vis"@,
        ParameterName::wd => "wd"@,
        ParameterName::r => "r"@,
        ParameterName::Wsymb2 => "Wsymb2"@,
    }
}

/// Position of the name in enumeration order.
pub open spec fn name_index(n: ParameterName) -> nat {
    match n {
        ParameterName::t => 0,
        ParameterName::ws => 1,
        ParameterName::gust => 2,
        ParameterName::tcc_mean => 3,
        ParameterName::lcc_mean => 4,
        ParameterName::mcc_mean => 5,
        ParameterName::hcc_mean => 6,
        ParameterName::pmin => 7,
        ParameterName::pmax => 8,
        ParameterName::pmean => 9,
        ParameterName::pmedian => 10,
        ParameterName::pcat => 11,
        ParameterName::spp => 12,
        ParameterName::tstm => 13,
        ParameterName::msl => 14,
        ParameterName::vis => 15,
        ParameterName::wd => 16,
        ParameterName::r => 17,
        ParameterName::Wsymb2 => 18,
    }
}

/// Every name, in enumeration order.
pub open spec fn all_names() -> Seq<ParameterName> {
    seq![
        ParameterName::t,
        ParameterName::ws,
        ParameterName::gust,
        ParameterName::tcc_mean,
        ParameterName::lcc_mean,
        ParameterName::mcc_mean,
        ParameterName::hcc_mean,
        ParameterName::pmin,
        ParameterName::pmax,
        ParameterName::pmean,
        ParameterName::pmedian,
        ParameterName::pcat,
        ParameterName::spp,
        ParameterName::tstm,
        ParameterName::msl,
        ParameterName::vis,
        ParameterName::wd,
        ParameterName::r,
        ParameterName::Wsymb2,
    ]
}

/// The name that the wire format writes as `s`, if any.
pub open spec fn name_from_text(s: Seq<char>) -> Option<ParameterName> {
    if s == "t"@ {
        Some(ParameterName::t)
    } else if s == "ws"@ {
        Some(ParameterName::ws)
    } else if s == "gust"@ {
        Some(ParameterName::gust)
    } else if s == "tcc_mean"@ {
        Some(ParameterName::tcc_mean)
    } else if s == "lcc_mean"@ {
        Some(ParameterName::lcc_mean)
    } else if s == "mcc_mean"@ {
        Some(ParameterName::mcc_mean)
    } else if s == "hcc_mean"@ {
        Some(ParameterName::hcc_mean)
    } else if s == "pmin"@ {
        Some(ParameterName::pmin)
    } else if s == "pmax"@ {
        Some(ParameterName::pmax)
    } else if s == "pmean"@ {
        Some(ParameterName::pmean)
    } else if s == "pmedian"@ {
        Some(ParameterName::pmedian)
    } else if s == "pcat"@ {
        Some(ParameterName::pcat)
    } else if s == "spp"@ {
        Some(ParameterName::spp)
    } else if s == "tstm"@ {
        Some(ParameterName::tstm)
    } else if s == "msl"@ {
        Some(ParameterName::msl)
    } else if s == "vis"@ {
        Some(ParameterName::vis)
    } else if s == "wd"@ {
        Some(ParameterName::wd)
    } else if s == "r"@ {
        Some(ParameterName::r)
    } else if s == "Wsymb2"@ {
        Some(ParameterName::Wsymb2)
    } else {
        None
    }
}

/// The unit that a name implies.
pub open spec fn unit_of(n: ParameterName) -> Option<Seq<char>> {
    match n {
        ParameterName::t => Some("C"@),
        ParameterName::ws => Some("m/s"@),
        ParameterName::gust => Some("m/s"@),
        ParameterName::tcc_mean => Some("octas"@),
        ParameterName::lcc_mean => Some("octas"@),
        ParameterName::mcc_mean => Some("octas"@),
        ParameterName::hcc_mean => Some("octas"@),
        ParameterName::pmin => Some("mm/h"@),
        ParameterName::pmax => Some("mm/h"@),
        ParameterName::pmean => Some("mm/h"@),
        ParameterName::pmedian => Some("mm/h"@),
        ParameterName::pcat => None,
        ParameterName::spp => Some("%"@),
        ParameterName::tstm => Some("%"@),
        ParameterName::msl => Some("hPa"@),
        ParameterName::vis => Some("km"@),
        ParameterName::wd => Some("degree"@),
        ParameterName::r => Some("%"@),
        ParameterName::Wsymb2 => None,
    }
}

/// Whether the name's readings are continuous quantities.
pub open spec fn is_decimal_name(n: ParameterName) -> bool {
    n == ParameterName::msl || n == ParameterName::t || n == ParameterName::vis || n == ParameterName::ws || n == ParameterName::gust || n == ParameterName::pmin || n == ParameterName::pmax || n == ParameterName::pmean || n == ParameterName::pmedian
}

/// Text of a precipitation category.
pub open spec fn category_text(c: int) -> Seq<char> {
    if c == 0 {
        "No precipitation"@
    } else if c == 1 {
        "Snow"@
    } else if c == 2 {
        "Snow and rain"@
    } else if c == 3 {
        "Rain"@
    } else if c == 4 {
        "Drizzle"@
    } else if c == 5 {
        "Freezing rain"@
    } else if c == 6 {
        "Freezing drizzle"@
    } else {
        Seq::empty()
    }
}

/// Text of a weather symbol code.
pub open spec fn symbol_text(c: int) -> Seq<char> {
    if c == 1 {
        "Clear sky"@
    } else if c == 2 {
        "Nearly clear sky"@
    } else if c == 3 {
        "Variable cloudiness"@
    } else if c == 4 {
        "Halfclear sky"@
    } else if c == 5 {
        "Cloudy sky"@
    } else if c == 6 {
        "Overcast"@
    } else if c == 7 {
        "Fog"@
    } else if c == 8 {
        "Light rain showers"@
    } else if c == 9 {
        "Moderate rain showers"@
    } else if c == 10 {
        "Heavy rain showers"@
    } else if c == 11 {
        "Thunderstorm"@
    } else if c == 12 {
        "Light sleet showers"@
    } else if c == 13 {
        "Moderate sleet showers"@
    } else if c == 14 {
        "Heavy sleet showers"@
    } else if c == 15 {
        "Light snow showers"@
    } else if c == 16 {
        "Moderate snow showers"@
    } else if c == 17 {
        "Heavy snow showers"@
    } else if c == 18 {
        "Light rain"@
    } else if c == 19 {
        "Moderate rain"@
    } else if c == 20 {
        "Heavy rain"@
    } else if c == 21 {
        "Thunder"@
    } else if c == 22 {
        "Light sleet"@
    } else if c == 23 {
        "Moderate sleet"@
    } else if c == 24 {
        "Heavy sleet"@
    } else if c == 25 {
        "Light snowfall"@
    } else if c == 26 {
        "Moderate snowfall"@
    } else if c == 27 {
        "Heavy snowfall"@
    } else {
        Seq::empty()
    }
}

/// A decoded reading.
#[derive(Clone, Copy, Debug, PartialEq, Eq, Structural)]
pub enum ParameterValue {
    Decimal(Decimal),
    Integer(i32),
    PrecipitationCategory(u8),
    WeatherSymbol(u8),
}

/// What a raw reading of the named parameter decodes to.
pub open spec fn decode_spec(name: ParameterName, raw: Decimal) -> Result<ParameterValue, ParseError> {
    let whole = truncate(raw.mantissa as int, raw.exponent as int);
    if is_decimal_name(name) {
        Ok(ParameterValue::Decimal(raw))
    } else if name == ParameterName::pcat {
        let c = clamp(whole, 0, 255);
        if c <= 6 {
            Ok(ParameterValue::PrecipitationCategory(c as u8))
        } else {
            Err(ParseError::DomainViolation(DomainFault::OutOfRange(name)))
        }
    } else if name == ParameterName::Wsymb2 {
        let c = clamp(whole, 0, 255);
        if 1 <= c <= 27 {
            Ok(ParameterValue::WeatherSymbol(c as u8))
        } else {
            Err(ParseError::DomainViolation(DomainFault::OutOfRange(name)))
        }
    } else {
        Ok(ParameterValue::Integer(clamp(whole, i32::MIN as int, i32::MAX as int) as i32))
    }
}

/// The text of a reading.
pub open spec fn value_text(v: ParameterValue) -> Seq<char> {
    match v {
        ParameterValue::Decimal(d) => decimal_text(d.mantissa as int, d.exponent as int),
        ParameterValue::Integer(i) => int_text(i as int),
        ParameterValue::PrecipitationCategory(c) => category_text(c as int),
        ParameterValue::WeatherSymbol(c) => symbol_text(c as int),
    }
}

impl ParameterName {
    /// Position in enumeration order.
    pub fn index(self) -> (r: usize)
        ensures
            r == name_index(self),
            r < 19,
    {
        match self {
            ParameterName::t => 0,
            ParameterName::ws => 1,
            ParameterName::gust => 2,
            ParameterName::tcc_mean => 3,
            ParameterName::lcc_mean => 4,
            ParameterName::mcc_mean => 5,
            ParameterName::hcc_mean => 6,
            ParameterName::pmin => 7,
            ParameterName::pmax => 8,
            ParameterName::pmean => 9,
            ParameterName::pmedian => 10,
            ParameterName::pcat => 11,
            ParameterName::spp => 12,
            ParameterName::tstm => 13,
            ParameterName::msl => 14,
            ParameterName::vis => 15,
            ParameterName::wd => 16,
            ParameterName::r => 17,
            ParameterName::Wsymb2 => 18,
        }
    }

    /// Number of names.
    pub fn count() -> (r: usize)
        ensures
            r == all_names().len(),
    {
        19
    }

    /// Every name, in enumeration order.
    pub fn all() -> (r: Vec<ParameterName>)
        ensures
            r@ == all_names(),
    {
        let mut v: Vec<ParameterName> = Vec::new();
        v.push(ParameterName::t);
        v.push(ParameterName::ws);
        v.push(ParameterName::gust);
        v.push(ParameterName::tcc_mean);
        v.push(ParameterName::lcc_mean);
        v.push(ParameterName::mcc_mean);
        v.push(ParameterName::hcc_mean);
        v.push(ParameterName::pmin);
        v.push(ParameterName::pmax);
        v.push(ParameterName::pmean);
        v.push(ParameterName::pmedian);
        v.push(ParameterName::pcat);
        v.push(ParameterName::spp);
        v.push(ParameterName::tstm);
        v.push(ParameterName::msl);
        v.push(ParameterName::vis);
        v.push(ParameterName::wd);
        v.push(ParameterName::r);
        v.push(ParameterName::Wsymb2);
        assert(v@ =~= all_names());
        v
    }

    /// The name as the wire format writes it.
    pub fn as_str(self) -> (r: &'static str)
        ensures
            r@ == name_text(self),
    {
        match self {
            ParameterName::t => "t",
            ParameterName::ws => "ws",
            ParameterName::gust => "gust",
            ParameterName::tcc_mean => "tcc_mean",
            ParameterName::lcc_mean => "lcc_mean",
            ParameterName::mcc_mean => "mcc_mean",
            ParameterName::hcc_mean => "hcc_mean",
            ParameterName::pmin => "pmin",
            ParameterName::pmax => "pmax",
            ParameterName::pmean => "pmean",
            ParameterName::pmedian => "pmedian",
            ParameterName::pcat => "pcat",
            ParameterName::spp => "spp",
            ParameterName::tstm => "tstm",
            ParameterName::msl => "msl",
            ParameterName::vis => "vis",
            ParameterName::wd => "wd",
            ParameterName::r => "r",
            ParameterName::Wsymb2 => "Wsymb2",
        }
    }

    /// The name that the wire format writes as `s`, if any.
    pub fn from_name(s: &str) -> (r: Option<ParameterName>)
        ensures
            r == name_from_text(s@),
    {
        if text_equals(s, "t") {
            Some(ParameterName::t)
        } else if text_equals(s, "ws") {
            Some(ParameterName::ws)
        } else if text_equals(s, "gust") {
            Some(ParameterName::gust)
        } else if text_equals(s, "tcc_mean") {
            Some(ParameterName::tcc_mean)
        } else if text_equals(s, "lcc_mean") {
            Some(ParameterName::lcc_mean)
        } else if text_equals(s, "mcc_mean") {
            Some(ParameterName::mcc_mean)
        } else if text_equals(s, "hcc_mean") {
            Some(ParameterName::hcc_mean)
        } else if text_equals(s, "pmin") {
            Some(ParameterName::pmin)
        } else if text_equals(s, "pmax") {
            Some(ParameterName::pmax)
        } else if text_equals(s, "pmean") {
            Some(ParameterName::pmean)
        } else if text_equals(s, "pmedian") {
            Some(ParameterName::pmedian)
        } else if text_equals(s, "pcat") {
            Some(ParameterName::pcat)
        } else if text_equals(s, "spp") {
            Some(ParameterName::spp)
        } else if text_equals(s, "tstm") {
            Some(ParameterName::tstm)
        } else if text_equals(s, "msl") {
            Some(ParameterName::msl)
        } else if text_equals(s, "vis") {
            Some(ParameterName::vis)
        } else if text_equals(s, "wd") {
            Some(ParameterName::wd)
        } else if text_equals(s, "r") {
            Some(ParameterName::r)
        } else if text_equals(s, "Wsymb2") {
            Some(ParameterName::Wsymb2)
        } else {
            None
        }
    }

    /// The unit that the name implies, if any.
    pub fn get_unit(self) -> (r: Option<&'static str>)
        ensures
            match r {
                Some(u) => unit_of(self) == Some(u@),
                None => unit_of(self) is None,
            },
    {
        match self {
            ParameterName::t => Some("C"),
            ParameterName::ws => Some("m/s"),
            ParameterName::gust => Some("m/s"),
            ParameterName::tcc_mean => Some("octas"),
            ParameterName::lcc_mean => Some("octas"),
            ParameterName::mcc_mean => Some("octas"),
            ParameterName::hcc_mean => Some("octas"),
            ParameterName::pmin => Some("mm/h"),
            ParameterName::pmax => Some("mm/h"),
            ParameterName::pmean => Some("mm/h"),
            ParameterName::pmedian => Some("mm/h"),
            ParameterName::pcat => None,
            ParameterName::spp => Some("%"),
            ParameterName::tstm => Some("%"),
            ParameterName::msl => Some("hPa"),
            ParameterName::vis => Some("km"),
            ParameterName::wd => Some("degree"),
            ParameterName::r => Some("%"),
            ParameterName::Wsymb2 => None,
        }
    }
}


/// Whether a reading lies in its variant's domain.
pub open spec fn value_wf(v: ParameterValue) -> bool {
    match v {
        ParameterValue::Decimal(d) => d.wf(),
        ParameterValue::Integer(_) => true,
        ParameterValue::PrecipitationCategory(c) => c <= 6,
        ParameterValue::WeatherSymbol(c) => 1 <= c <= 27,
    }
}

/// Whether a reading has the variant that the name decodes to.
pub open spec fn value_fits(name: ParameterName, v: ParameterValue) -> bool {
    if is_decimal_name(name) {
        v is Decimal
    } else if name == ParameterName::pcat {
        v is PrecipitationCategory
    } else if name == ParameterName::Wsymb2 {
        v is WeatherSymbol
    } else {
        v is Integer
    }
}

fn category_str(c: u8) -> (r: &'static str)
    requires
        c <= 6,
    ensures
        r@ == category_text(c as int),
{
    match c {
        0 => "No precipitation",
        1 => "Snow",
        2 => "Snow and rain",
        3 => "Rain",
        4 => "Drizzle",
        5 => "Freezing rain",
        _ => "Freezing drizzle",
    }
}

fn symbol_str(c: u8) -> (r: &'static str)
    requires
        1 <= c <= 27,
    ensures
        r@ == symbol_text(c as int),
{
    match c {
        1 => "Clear sky",
        2 => "Nearly clear sky",
        3 => "Variable cloudiness",
        4 => "Halfclear sky",
        5 => "Cloudy sky",
        6 => "Overcast",
        7 => "Fog",
        8 => "Light rain showers",
        9 => "Moderate rain showers",
        10 => "Heavy rain showers",
        11 => "Thunderstorm",
        12 => "Light sleet showers",
        13 => "Moderate sleet showers",
        14 => "Heavy sleet showers",
        15 => "Light snow showers",
        16 => "Moderate snow showers",
        17 => "Heavy snow showers",
        18 => "Light rain",
        19 => "Moderate rain",
        20 => "Heavy rain",
        21 => "Thunder",
        22 => "Light sleet",
        23 => "Moderate sleet",
        24 => "Heavy sleet",
        25 => "Light snowfall",
        26 => "Moderate snowfall",
        _ => "Heavy snowfall",
    }
}

/// Decodes a raw reading of the named parameter: continuous quantities stay
/// decimal, categories are truncated to a byte and checked against their
/// domain, and the rest are truncated to a 32-bit integer.
pub fn decode(name: ParameterName, raw: Decimal) -> (r: Result<ParameterValue, ParseError>)
    requires
        raw.wf(),
    ensures
        r == decode_spec(name, raw),
        r matches Ok(v) ==> value_wf(v) && value_fits(name, v),
{
    match name {
        ParameterName::msl | ParameterName::t | ParameterName::vis | ParameterName::ws | ParameterName::gust | ParameterName::pmin | ParameterName::pmax | ParameterName::pmean | ParameterName::pmedian => Ok(
            ParameterValue::Decimal(raw),
        ),
        ParameterName::pcat => {
            let c = raw.clamped_integer(0, 255);
            if c <= 6 {
                Ok(ParameterValue::PrecipitationCategory(c as u8))
            } else {
                Err(ParseError::DomainViolation(DomainFault::OutOfRange(name)))
            }
        },
        ParameterName::Wsymb2 => {
            let c = raw.clamped_integer(0, 255);
            if 1 <= c && c <= 27 {
                Ok(ParameterValue::WeatherSymbol(c as u8))
            } else {
                Err(ParseError::DomainViolation(DomainFault::OutOfRange(name)))
            }
        },
        _ => Ok(ParameterValue::Integer(raw.clamped_integer(i32::MIN as i64, i32::MAX as i64) as i32)),
    }
}

impl ParameterValue {
    /// The reading as text: numbers in decimal notation, categories and
    /// symbols by their fixed descriptions.
    pub fn to_text(&self) -> (r: String)
        requires
            value_wf(*self),
        ensures
            r@ == value_text(*self),
    {
        match self {
            ParameterValue::Decimal(d) => d.to_text(),
            ParameterValue::Integer(i) => {
                let mut out = String::new();
                push_int(&mut out, *i as i64);
                out
            },
            ParameterValue::PrecipitationCategory(c) => String::from_str(category_str(*c)),
            ParameterValue::WeatherSymbol(c) => String::from_str(symbol_str(*c)),
        }
    }
}

/// What a parameter holds, with its level type as characters.
pub struct ParameterView {
    pub name: ParameterName,
    pub level_type: Seq<char>,
    pub level: u32,
    pub value: ParameterValue,
}

/// One named forecast variable's reading at one hour.
#[derive(Debug)]
pub struct Parameter {
    pub name: ParameterName,
    pub level_type: String,
    pub level: u32,
    pub value: ParameterValue,
}

impl View for Parameter {
    type V = ParameterView;

    open spec fn view(&self) -> ParameterView {
        ParameterView {
            name: self.name,
            level_type: self.level_type@,
            level: self.level,
            value: self.value,
        }
    }
}

impl ParameterView {
    pub open spec fn wf(self) -> bool {
        value_wf(self.value) && value_fits(self.name, self.value)
    }
}

/// The text of a reading followed by its unit.
pub open spec fn parameter_text(name: ParameterName, v: ParameterValue) -> Seq<char> {
    match unit_of(name) {
        Some(u) => value_text(v) + u,
        None => value_text(v),
    }
}

/// Display colours, a primary and a secondary.
#[derive(Clone, Copy, Debug, PartialEq, Eq, Structural)]
pub enum Color {
    Black,
    Red,
    Green,
    Yellow,
}

/// The low and high cutoffs of a name, and whether high readings are good.
pub open spec fn cutoffs(name: ParameterName) -> (int, int, bool) {
    if name == ParameterName::t {
        (5, 10, true)
    } else if name == ParameterName::pcat || name == ParameterName::vis || name == ParameterName::r {
        (0, 1, true)
    } else {
        (0, 1, false)
    }
}

/// The sign of a numeric reading minus `c`.
pub open spec fn sign_against(v: ParameterValue, c: int) -> int {
    match v {
        ParameterValue::Decimal(d) => compare(d.mantissa as int, d.exponent as int, c),
        ParameterValue::Integer(i) => if i > c {
            1
        } else if i < c {
            -1
        } else {
            0
        },
        _ => 0,
    }
}

/// Green for good readings, yellow for middling ones, red for poor ones,
/// each on black; categories and symbols get none.
pub open spec fn color_of(name: ParameterName, v: ParameterValue) -> Option<(Color, Color)> {
    let (lo, hi, high_better) = cutoffs(name);
    if v is PrecipitationCategory || v is WeatherSymbol {
        None
    } else if high_better {
        if sign_against(v, hi) > 0 {
            Some((Color::Green, Color::Black))
        } else if sign_against(v, lo) > 0 {
            Some((Color::Yellow, Color::Black))
        } else {
            Some((Color::Red, Color::Black))
        }
    } else {
        if sign_against(v, lo) < 0 {
            Some((Color::Green, Color::Black))
        } else if sign_against(v, hi) < 0 {
            Some((Color::Yellow, Color::Black))
        } else {
            Some((Color::Red, Color::Black))
        }
    }
}

fn sign_of(v: &ParameterValue, c: i32) -> (r: i8)
    requires
        value_wf(*v),
    ensures
        r == sign_against(*v, c as int),
{
    match v {
        ParameterValue::Decimal(d) => d.compare_int(c),
        ParameterValue::Integer(i) => if *i > c {
            1
        } else if *i < c {
            -1
        } else {
            0
        },
        _ => 0,
    }
}

impl Parameter {
    /// The unit that the name implies.
    pub fn unit(&self) -> (r: Option<&'static str>)
        ensures
            match r {
                Some(u) => unit_of(self.name) == Some(u@),
                None => unit_of(self.name) is None,
            },
    {
        self.name.get_unit()
    }

    /// The reading followed by its unit, as `5.5C`.
    pub fn to_text(&self) -> (r: String)
        requires
            self@.wf(),
        ensures
            r@ == parameter_text(self.name, self.value),
    {
        let mut out = self.value.to_text();
        match self.name.get_unit() {
            Some(u) => out.append(u),
            None => {},
        }
        out
    }

    /// A colour for the reading, judged against the name's cutoffs.
    pub fn get_color(&self) -> (r: Option<(Color, Color)>)
        requires
            self@.wf(),
        ensures
            r == color_of(self.name, self.value),
    {
        match self.value {
            ParameterValue::PrecipitationCategory(_) | ParameterValue::WeatherSymbol(_) => {
                return None;
            },
            _ => {},
        }
        let (lo, hi, high_better): (i32, i32, bool) = match self.name {
            ParameterName::t => (5, 10, true),
            ParameterName::pcat | ParameterName::vis | ParameterName::r => (0, 1, true),
            _ => (0, 1, false),
        };
        let primary = if high_better {
            if sign_of(&self.value, hi) > 0 {
                Color::Green
            } else if sign_of(&self.value, lo) > 0 {
                Color::Yellow
            } else {
                Color::Red
            }
        } else {
            if sign_of(&self.value, lo) < 0 {
                Color::Green
            } else if sign_of(&self.value, hi) < 0 {
                Color::Yellow
            } else {
                Color::Red
            }
        };
        Some((primary, Color::Black))
    }
}


/// Whatever the codec accepts can be formatted, and its text depends on the
/// reading alone: numbers in decimal notation (a continuous reading keeps
/// the raw decimal exactly), categories and symbols by their fixed
/// descriptions, never empty.
pub proof fn lemma_decoded_formats(name: ParameterName, raw: Decimal)
    requires
        raw.wf(),
        decode_spec(name, raw) is Ok,
    ensures
        value_wf(decode_spec(name, raw)->Ok_0),
        value_fits(name, decode_spec(name, raw)->Ok_0),
        value_text(decode_spec(name, raw)->Ok_0).len() > 0,
        is_decimal_name(name) ==> value_text(decode_spec(name, raw)->Ok_0) == decimal_text(
            raw.mantissa as int,
            raw.exponent as int,
        ),
{
    let v = decode_spec(name, raw)->Ok_0;
    match v {
        ParameterValue::Decimal(d) => {
            lemma_decimal_text_nonempty(d.mantissa as int, d.exponent as int);
        },
        ParameterValue::Integer(i) => {
            lemma_nat_text_nonempty(abs(i as int));
        },
        ParameterValue::PrecipitationCategory(c) => {
            lemma_category_text_nonempty(c as int);
        },
        ParameterValue::WeatherSymbol(c) => {
            lemma_symbol_text_nonempty(c as int);
        },
    }
}


proof fn lemma_nat_text_nonempty(n: nat)
    ensures
        nat_text(n).len() > 0,
{
}

proof fn lemma_decimal_text_nonempty(m: int, e: int)
    ensures
        decimal_text(m, e).len() > 0,
{
    let a = abs(m);
    if e >= 0 {
        lemma_nat_text_nonempty(a);
    } else {
        lemma_nat_text_nonempty(a / pow10((-e) as nat));
    }
}

proof fn lemma_category_text_nonempty(c: int)
    requires
        0 <= c <= 6,
    ensures
        category_text(c).len() > 0,
{
    reveal_strlit("No precipitation");
    reveal_strlit("Snow");
    reveal_strlit("Snow and rain");
    reveal_strlit("Rain");
    reveal_strlit("Drizzle");
    reveal_strlit("Freezing rain");
    reveal_strlit("Freezing drizzle");
}

proof fn lemma_symbol_text_nonempty(c: int)
    requires
        1 <= c <= 27,
    ensures
        symbol_text(c).len() > 0,
{
    reveal_strlit("Clear sky");
    reveal_strlit("Nearly clear sky");
    reveal_strlit("Variable cloudiness");
    reveal_strlit("Halfclear sky");
    reveal_strlit("Cloudy sky");
    reveal_strlit("Overcast");
    reveal_strlit("Fog");
    reveal_strlit("Light rain showers");
    reveal_strlit("Moderate rain showers");
    reveal_strlit("Heavy rain showers");
    reveal_strlit("Thunderstorm");
    reveal_strlit("Light sleet showers");
    reveal_strlit("Moderate sleet showers");
    reveal_strlit("Heavy sleet showers");
    reveal_strlit("Light snow showers");
    reveal_strlit("Moderate snow showers");
    reveal_strlit("Heavy snow showers");
    reveal_strlit("Light rain");
    reveal_strlit("Moderate rain");
    reveal_strlit("Heavy rain");
    reveal_strlit("Thunder");
    reveal_strlit("Light sleet");
    reveal_strlit("Moderate sleet");
    reveal_strlit("Heavy sleet");
    reveal_strlit("Light snowfall");
    reveal_strlit("Moderate snowfall");
    reveal_strlit("Heavy snowfall");
}


/// A numeric reading survives its own text: formatting it, reading the text
/// back as a numeral and decoding that under the same name gives the same
/// reading. This holds for every integer and every continuous reading.
pub proof fn lemma_decode_format_round_trip(name: ParameterName, raw: Decimal)
    requires
        raw.wf(),
        decode_spec(name, raw) is Ok,
        name != ParameterName::pcat,
        name != ParameterName::Wsymb2,
    ensures
        numeral_value(value_text(decode_spec(name, raw)->Ok_0)) is Some,
        decode_spec(
            name,
            Decimal {
                mantissa: numeral_value(value_text(decode_spec(name, raw)->Ok_0))->Some_0.0 as i128,
                exponent: numeral_value(value_text(decode_spec(name, raw)->Ok_0))->Some_0.1 as i32,
            },
        ) == decode_spec(name, raw),
{
    let v = decode_spec(name, raw)->Ok_0;
    lemma_pow10_facts();
    if is_decimal_name(name) {
        lemma_text_round_trip(raw);
    } else {
        let i = clamp(
            truncate(raw.mantissa as int, raw.exponent as int),
            i32::MIN as int,
            i32::MAX as int,
        );
        assert(v == ParameterValue::Integer(i as i32));
        assert(int_text(i) =~= decimal_text(i, 0));
        lemma_int_text_round_trip(i);
    }
}

} // verus!
