//! The forecast model, from wire entries to a report whose hours can be
//! asked for a reading by name.

use vstd::prelude::*;
use crate::decimal::{numeral_value, Decimal};
use crate::error::{message_text, DomainFault, ParseError, StructureFault};
use crate::parameter::{
    all_names, decode, decode_spec, name_from_text, name_index, parameter_text, Parameter,
    ParameterName, ParameterView,
};
use crate::time::{rfc3339_instant, timestamp_from, timestamp_text, Timestamp};
use crate::types::Location;

verus! {

/// A parameter entry as the wire format carries it; each number is kept as
/// its numeral text.
pub struct RawParameter {
    pub name: String,
    pub level_type: String,
    pub level: u32,
    pub values: Vec<String>,
}

/// A time series entry as the wire format carries it.
pub struct RawTimeSeries {
    pub valid_time: String,
    pub parameters: Vec<RawParameter>,
}

/// The geometry as the wire format carries it.
pub struct RawGeometry {
    pub geometry_type: String,
    pub coordinates: Vec<Vec<String>>,
}

/// A whole forecast document as the wire format carries it.
pub struct RawReport {
    pub approved_time: String,
    pub reference_time: String,
    pub geometry: RawGeometry,
    pub time_series: Vec<RawTimeSeries>,
}

/// The decimal that a numeral denotes, where it can be held.
pub open spec fn numeral_decimal(s: Seq<char>) -> Option<Decimal> {
    match numeral_value(s) {
        Some((m, e)) => Some(Decimal { mantissa: m as i128, exponent: e as i32 }),
        None => None,
    }
}

/// The decimals that a list of numerals denotes, where each can be held.
pub open spec fn numerals_spec(texts: Seq<String>) -> Option<Seq<Decimal>>
    decreases texts.len(),
{
    if texts.len() == 0 {
        Some(Seq::empty())
    } else {
        match numerals_spec(texts.drop_last()) {
            None => None,
            Some(ds) => match numeral_decimal(texts.last()@) {
                None => None,
                Some(d) => Some(ds.push(d)),
            },
        }
    }
}

/// A parameter entry read: its name must be known, its values numbers, and
/// exactly one of them, which then decodes.
pub open spec fn parameter_spec(raw: RawParameter) -> Result<ParameterView, ParseError> {
    match name_from_text(raw.name@) {
        None => Err(ParseError::StructureViolation(StructureFault::UnknownParameterName)),
        Some(name) => match numerals_spec(raw.values@) {
            None => Err(ParseError::StructureViolation(StructureFault::MalformedNumber)),
            Some(ds) => if ds.len() != 1 {
                Err(ParseError::DomainViolation(DomainFault::ValueCount(name)))
            } else {
                match decode_spec(name, ds[0]) {
                    Err(e) => Err(e),
                    Ok(v) => Ok(
                        ParameterView {
                            name,
                            level_type: raw.level_type@,
                            level: raw.level,
                            value: v,
                        },
                    ),
                }
            },
        },
    }
}

/// The entries of one time series read in order, a later entry of a name
/// replacing an earlier one; the first entry that fails decides the error.
pub open spec fn parameters_spec(raws: Seq<RawParameter>) -> Result<
    Map<ParameterName, ParameterView>,
    ParseError,
>
    decreases raws.len(),
{
    if raws.len() == 0 {
        Ok(Map::empty())
    } else {
        match parameters_spec(raws.drop_last()) {
            Err(e) => Err(e),
            Ok(m) => match parameter_spec(raws.last()) {
                Err(e) => Err(e),
                Ok(p) => Ok(m.insert(p.name, p)),
            },
        }
    }
}

/// One hour's readings, by name.
pub struct TimeSeriesView {
    pub valid_time: Timestamp,
    pub parameters: Map<ParameterName, ParameterView>,
}

/// A time series entry read: its valid time, then its parameters.
pub open spec fn time_series_spec(raw: RawTimeSeries) -> Result<TimeSeriesView, ParseError> {
    match timestamp_from(rfc3339_instant(raw.valid_time@)) {
        Err(e) => Err(e),
        Ok(t) => match parameters_spec(raw.parameters@) {
            Err(e) => Err(e),
            Ok(m) => Ok(TimeSeriesView { valid_time: t, parameters: m }),
        },
    }
}

/// One forecast hour: its valid time and its readings, each held in the slot
/// of its name's index.
pub struct TimeSeries {
    pub valid_time: Timestamp,
    pub parameters: Vec<Option<Parameter>>,
}

impl View for TimeSeries {
    type V = TimeSeriesView;

    open spec fn view(&self) -> TimeSeriesView {
        TimeSeriesView {
            valid_time: self.valid_time,
            parameters: Map::new(
                |n: ParameterName| self.parameters@[name_index(n) as int] is Some,
                |n: ParameterName| self.parameters@[name_index(n) as int].unwrap()@,
            ),
        }
    }
}

pub proof fn lemma_name_index_injective(a: ParameterName, b: ParameterName)
    ensures
        name_index(a) == name_index(b) ==> a == b,
{
}

/// The readings of the first `k` names in enumeration order, each followed
/// by a comma; names the hour lacks are left out.
pub open spec fn readings_text(ts: TimeSeriesView, k: nat) -> Seq<char>
    decreases k,
{
    if k == 0 {
        Seq::empty()
    } else {
        let n = all_names()[k - 1];
        readings_text(ts, (k - 1) as nat) + if ts.parameters.contains_key(n) {
            parameter_text(n, ts.parameters[n].value) + ", "@
        } else {
            Seq::empty()
        }
    }
}

/// An hour described: its valid time, then every reading it holds.
pub open spec fn description(ts: TimeSeriesView, time_text: Seq<char>) -> Seq<char> {
    "Valid time: "@ + time_text + ". "@ + readings_text(ts, 19)
}

impl TimeSeries {
    /// The hour described with the given text for its valid time.
    pub fn describe_with(&self, time_text: &str) -> (r: String)
        requires
            self.wf(),
        ensures
            r@ == description(self@, time_text@),
    {
        let mut out = String::from_str("Valid time: ");
        out.append(time_text);
        out.append(". ");
        let all = ParameterName::all();
        let mut k: usize = 0;
        while k < all.len()
            invariant
                self.wf(),
                all@ == all_names(),
                k <= 19,
                out@ == "Valid time: "@ + time_text@ + ". "@ + readings_text(self@, k as nat),
            decreases 19 - k,
        {
            let ghost before = out@;
            match self.get(all[k]) {
                Some(p) => {
                    let text = p.to_text();
                    out.append(text.as_str());
                    out.append(", ");
                },
                None => {},
            }
            k = k + 1;
            assert(out@ =~= "Valid time: "@ + time_text@ + ". "@ + readings_text(self@, k as nat));
        }
        out
    }

    /// The hour described: its valid time in UTC, then every reading it
    /// holds, in enumeration order.
    pub fn describe(&self) -> (r: String)
        requires
            self.wf(),
        ensures
            r@ == description(self@, timestamp_text(self.valid_time)),
    {
        let time_text = self.valid_time.to_text();
        self.describe_with(time_text.as_str())
    }

    /// Every slot holds a well-formed reading of the slot's name.
    pub open spec fn wf(&self) -> bool {
        &&& self.valid_time.wf()
        &&& self.parameters@.len() == 19
        &&& forall|i: int|
            0 <= i < 19 ==> match #[trigger] self.parameters@[i] {
                Some(p) => name_index(p.name) == i && p@.wf(),
                None => true,
            }
    }

    /// A time series with no readings.
    pub fn new(valid_time: Timestamp) -> (r: TimeSeries)
        requires
            valid_time.wf(),
        ensures
            r.wf(),
            r@.valid_time == valid_time,
            r@.parameters == Map::<ParameterName, ParameterView>::empty(),
    {
        let mut parameters: Vec<Option<Parameter>> = Vec::new();
        let mut i: usize = 0;
        while i < 19
            invariant
                i <= 19,
                parameters@.len() == i,
                forall|j: int| 0 <= j < i ==> parameters@[j] is None,
            decreases 19 - i,
        {
            parameters.push(None);
            i = i + 1;
        }
        let r = TimeSeries { valid_time, parameters };
        assert(r@.parameters =~= Map::<ParameterName, ParameterView>::empty());
        r
    }

    /// Stores a reading under its name, replacing any earlier one.
    pub fn insert(&mut self, p: Parameter)
        requires
            old(self).wf(),
            p@.wf(),
        ensures
            final(self).wf(),
            final(self)@.valid_time == old(self)@.valid_time,
            final(self)@.parameters == old(self)@.parameters.insert(p.name, p@),
    {
        let i = p.name.index();
        let ghost pv = p@;
        let ghost name = p.name;
        self.parameters.set(i, Some(p));
        proof {
            assert forall|n: ParameterName| #[trigger] name_index(n) == name_index(name) implies n
                == name by {
                lemma_name_index_injective(n, name);
            }
        }
        assert(self@.parameters =~= old(self)@.parameters.insert(name, pv));
    }

    /// The reading of a name at this hour; none where the forecast omits it.
    pub fn get(&self, name: ParameterName) -> (r: Option<&Parameter>)
        requires
            self.wf(),
        ensures
            match r {
                Some(p) => self@.parameters.contains_key(name) && p@ == self@.parameters[name]
                    && p.name == name && p@.wf(),
                None => !self@.parameters.contains_key(name),
            },
    {
        let i = name.index();
        match &self.parameters[i] {
            Some(p) => {
                assert(self.parameters@[i as int] is Some);
                proof {
                    lemma_name_index_injective(p.name, name);
                }
                Some(p)
            },
            None => None,
        }
    }
}

/// Reads each numeral of a list, or fails on the first that cannot be held.
fn read_numerals(texts: &Vec<String>) -> (r: Option<Vec<Decimal>>)
    ensures
        match r {
            Some(ds) => numerals_spec(texts@) == Some(ds@) && forall|i: int|
                0 <= i < ds@.len() ==> (#[trigger] ds@[i]).wf(),
            None => numerals_spec(texts@) is None,
        },
{
    let mut ds: Vec<Decimal> = Vec::new();
    let mut i: usize = 0;
    while i < texts.len()
        invariant
            i <= texts@.len(),
            numerals_spec(texts@.subrange(0, i as int)) == Some(ds@),
            forall|j: int| 0 <= j < ds@.len() ==> (#[trigger] ds@[j]).wf(),
        decreases texts@.len() - i,
    {
        let ghost prefix = texts@.subrange(0, i as int + 1);
        assert(prefix.drop_last() =~= texts@.subrange(0, i as int));
        match Decimal::parse(texts[i].as_str()) {
            None => {
                assert(numerals_spec(prefix) is None);
                proof {
                    lemma_numerals_prefix_none(texts@, i as int + 1);
                }
                return None;
            },
            Some(d) => {
                ds.push(d);
            },
        }
        i = i + 1;
    }
    assert(texts@.subrange(0, i as int) =~= texts@);
    Some(ds)
}

/// Once a prefix of numerals fails, the whole list fails.
proof fn lemma_numerals_prefix_none(texts: Seq<String>, k: int)
    requires
        0 <= k <= texts.len(),
        numerals_spec(texts.subrange(0, k)) is None,
    ensures
        numerals_spec(texts) is None,
    decreases texts.len() - k,
{
    if k < texts.len() {
        assert(texts.subrange(0, k + 1).drop_last() =~= texts.subrange(0, k));
        lemma_numerals_prefix_none(texts, k + 1);
    } else {
        assert(texts.subrange(0, k) =~= texts);
    }
}

/// Reads one parameter entry.
pub fn parse_parameter(raw: &RawParameter) -> (r: Result<Parameter, ParseError>)
    ensures
        match r {
            Ok(p) => parameter_spec(*raw) == Ok::<ParameterView, ParseError>(p@) && p@.wf(),
            Err(e) => parameter_spec(*raw) == Err::<ParameterView, ParseError>(e),
        },
{
    let name = match ParameterName::from_name(raw.name.as_str()) {
        Some(n) => n,
        None => {
            return Err(ParseError::StructureViolation(StructureFault::UnknownParameterName));
        },
    };
    let ds = match read_numerals(&raw.values) {
        Some(ds) => ds,
        None => {
            return Err(ParseError::StructureViolation(StructureFault::MalformedNumber));
        },
    };
    if ds.len() != 1 {
        return Err(ParseError::DomainViolation(DomainFault::ValueCount(name)));
    }
    let value = match decode(name, ds[0]) {
        Ok(v) => v,
        Err(e) => {
            return Err(e);
        },
    };
    let p = Parameter { name, level_type: raw.level_type.clone(), level: raw.level, value };
    assert(p@ == (ParameterView {
        name,
        level_type: raw.level_type@,
        level: raw.level,
        value,
    }));
    Ok(p)
}

/// Reads one time series entry: its valid time, then each parameter entry in
/// order.
pub fn parse_time_series(raw: &RawTimeSeries) -> (r: Result<TimeSeries, ParseError>)
    ensures
        match r {
            Ok(ts) => ts.wf() && time_series_spec(*raw) == Ok::<TimeSeriesView, ParseError>(ts@),
            Err(e) => time_series_spec(*raw) == Err::<TimeSeriesView, ParseError>(e),
        },
{
    let valid_time = match Timestamp::parse(raw.valid_time.as_str()) {
        Ok(t) => t,
        Err(e) => {
            return Err(e);
        },
    };
    let mut ts = TimeSeries::new(valid_time);
    let mut i: usize = 0;
    while i < raw.parameters.len()
        invariant
            i <= raw.parameters@.len(),
            ts.wf(),
            ts@.valid_time == valid_time,
            timestamp_from(rfc3339_instant(raw.valid_time@)) == Ok::<Timestamp, ParseError>(valid_time),
            parameters_spec(raw.parameters@.subrange(0, i as int)) == Ok::<
                Map<ParameterName, ParameterView>,
                ParseError,
            >(ts@.parameters),
        decreases raw.parameters@.len() - i,
    {
        let ghost prefix = raw.parameters@.subrange(0, i as int + 1);
        assert(prefix.drop_last() =~= raw.parameters@.subrange(0, i as int));
        match parse_parameter(&raw.parameters[i]) {
            Err(e) => {
                assert(prefix.last() == raw.parameters@[i as int]);
                assert(parameters_spec(prefix) == Err::<Map<ParameterName, ParameterView>, ParseError>(e));
                proof {
                    lemma_parameters_prefix_err(raw.parameters@, i as int + 1, e);
                }
                return Err(e);
            },
            Ok(p) => {
                assert(prefix.last() == raw.parameters@[i as int]);
                ts.insert(p);
            },
        }
        i = i + 1;
    }
    assert(raw.parameters@.subrange(0, i as int) =~= raw.parameters@);
    Ok(ts)
}

/// Once a prefix of entries fails, the whole list fails with that error.
proof fn lemma_parameters_prefix_err(raws: Seq<RawParameter>, k: int, e: ParseError)
    requires
        0 <= k <= raws.len(),
        parameters_spec(raws.subrange(0, k)) == Err::<Map<ParameterName, ParameterView>, ParseError>(e),
    ensures
        parameters_spec(raws) == Err::<Map<ParameterName, ParameterView>, ParseError>(e),
    decreases raws.len() - k,
{
    if k < raws.len() {
        assert(raws.subrange(0, k + 1).drop_last() =~= raws.subrange(0, k));
        lemma_parameters_prefix_err(raws, k + 1, e);
    } else {
        assert(raws.subrange(0, k) =~= raws);
    }
}

/// Every row of coordinates read, or none where a numeral cannot be held.
pub open spec fn coordinates_spec(rows: Seq<Vec<String>>) -> Option<Seq<Seq<Decimal>>>
    decreases rows.len(),
{
    if rows.len() == 0 {
        Some(Seq::empty())
    } else {
        match coordinates_spec(rows.drop_last()) {
            None => None,
            Some(cs) => match numerals_spec(rows.last()@) {
                None => None,
                Some(ds) => Some(cs.push(ds)),
            },
        }
    }
}

/// The time series entries read in order; the first that fails decides the
/// error.
pub open spec fn series_list_spec(raws: Seq<RawTimeSeries>) -> Result<Seq<TimeSeriesView>, ParseError>
    decreases raws.len(),
{
    if raws.len() == 0 {
        Ok(Seq::empty())
    } else {
        match series_list_spec(raws.drop_last()) {
            Err(e) => Err(e),
            Ok(ts) => match time_series_spec(raws.last()) {
                Err(e) => Err(e),
                Ok(t) => Ok(ts.push(t)),
            },
        }
    }
}

pub struct GeometryView {
    pub geometry_type: Seq<char>,
    pub coordinates: Seq<Seq<Decimal>>,
}

/// The area that the forecast covers; carried, not interpreted.
pub struct Geometry {
    pub geometry_type: String,
    pub coordinates: Vec<Vec<Decimal>>,
}

impl View for Geometry {
    type V = GeometryView;

    open spec fn view(&self) -> GeometryView {
        GeometryView {
            geometry_type: self.geometry_type@,
            coordinates: self.coordinates@.map_values(|row: Vec<Decimal>| row@),
        }
    }
}

pub struct ReportView {
    pub approved_time: Timestamp,
    pub reference_time: Timestamp,
    pub geometry: GeometryView,
    pub time_series: Seq<TimeSeriesView>,
}

/// A document read: approval and reference times, the geometry, then each
/// time series in order. The first violation met decides the error.
pub open spec fn report_spec(raw: RawReport) -> Result<ReportView, ParseError> {
    match timestamp_from(rfc3339_instant(raw.approved_time@)) {
        Err(e) => Err(e),
        Ok(approved_time) => match timestamp_from(rfc3339_instant(raw.reference_time@)) {
            Err(e) => Err(e),
            Ok(reference_time) => match coordinates_spec(raw.geometry.coordinates@) {
                None => Err(ParseError::StructureViolation(StructureFault::MalformedNumber)),
                Some(coordinates) => match series_list_spec(raw.time_series@) {
                    Err(e) => Err(e),
                    Ok(time_series) => Ok(
                        ReportView {
                            approved_time,
                            reference_time,
                            geometry: GeometryView {
                                geometry_type: raw.geometry.geometry_type@,
                                coordinates,
                            },
                            time_series,
                        },
                    ),
                },
            },
        },
    }
}

/// A forecast: when it was approved and computed, where it is for, and its
/// hours in the order received.
pub struct WeatherReport {
    pub approved_time: Timestamp,
    pub reference_time: Timestamp,
    pub geometry: Geometry,
    pub time_series: Vec<TimeSeries>,
    pub location: Option<Location>,
}

impl View for WeatherReport {
    type V = ReportView;

    open spec fn view(&self) -> ReportView {
        ReportView {
            approved_time: self.approved_time,
            reference_time: self.reference_time,
            geometry: self.geometry@,
            time_series: self.time_series@.map_values(|t: TimeSeries| t@),
        }
    }
}

fn read_coordinates(rows: &Vec<Vec<String>>) -> (r: Option<Vec<Vec<Decimal>>>)
    ensures
        match r {
            Some(cs) => coordinates_spec(rows@) == Some(cs@.map_values(|row: Vec<Decimal>| row@)),
            None => coordinates_spec(rows@) is None,
        },
{
    let mut cs: Vec<Vec<Decimal>> = Vec::new();
    let mut i: usize = 0;
    while i < rows.len()
        invariant
            i <= rows@.len(),
            coordinates_spec(rows@.subrange(0, i as int)) == Some(
                cs@.map_values(|row: Vec<Decimal>| row@),
            ),
        decreases rows@.len() - i,
    {
        let ghost prefix = rows@.subrange(0, i as int + 1);
        assert(prefix.drop_last() =~= rows@.subrange(0, i as int));
        assert(prefix.last() == rows@[i as int]);
        match read_numerals(&rows[i]) {
            None => {
                proof {
                    lemma_coordinates_prefix_none(rows@, i as int + 1);
                }
                return None;
            },
            Some(ds) => {
                let ghost before = cs@;
                cs.push(ds);
                assert(cs@.map_values(|row: Vec<Decimal>| row@) =~= before.map_values(
                    |row: Vec<Decimal>| row@,
                ).push(ds@));
            },
        }
        i = i + 1;
    }
    assert(rows@.subrange(0, i as int) =~= rows@);
    Some(cs)
}

proof fn lemma_coordinates_prefix_none(rows: Seq<Vec<String>>, k: int)
    requires
        0 <= k <= rows.len(),
        coordinates_spec(rows.subrange(0, k)) is None,
    ensures
        coordinates_spec(rows) is None,
    decreases rows.len() - k,
{
    if k < rows.len() {
        assert(rows.subrange(0, k + 1).drop_last() =~= rows.subrange(0, k));
        lemma_coordinates_prefix_none(rows, k + 1);
    } else {
        assert(rows.subrange(0, k) =~= rows);
    }
}

proof fn lemma_series_prefix_err(raws: Seq<RawTimeSeries>, k: int, e: ParseError)
    requires
        0 <= k <= raws.len(),
        series_list_spec(raws.subrange(0, k)) == Err::<Seq<TimeSeriesView>, ParseError>(e),
    ensures
        series_list_spec(raws) == Err::<Seq<TimeSeriesView>, ParseError>(e),
    decreases raws.len() - k,
{
    if k < raws.len() {
        assert(raws.subrange(0, k + 1).drop_last() =~= raws.subrange(0, k));
        lemma_series_prefix_err(raws, k + 1, e);
    } else {
        assert(raws.subrange(0, k) =~= raws);
    }
}

fn read_series_list(raws: &Vec<RawTimeSeries>) -> (r: Result<Vec<TimeSeries>, ParseError>)
    ensures
        match r {
            Ok(ts) => series_list_spec(raws@) == Ok::<Seq<TimeSeriesView>, ParseError>(
                ts@.map_values(|t: TimeSeries| t@),
            ) && forall|i: int| 0 <= i < ts@.len() ==> (#[trigger] ts@[i]).wf(),
            Err(e) => series_list_spec(raws@) == Err::<Seq<TimeSeriesView>, ParseError>(e),
        },
{
    let mut ts: Vec<TimeSeries> = Vec::new();
    let mut i: usize = 0;
    assert(ts@.map_values(|t: TimeSeries| t@) =~= Seq::<TimeSeriesView>::empty());
    assert(raws@.subrange(0, 0) =~= Seq::<RawTimeSeries>::empty());
    while i < raws.len()
        invariant
            i <= raws@.len(),
            series_list_spec(raws@.subrange(0, i as int)) == Ok::<Seq<TimeSeriesView>, ParseError>(
                ts@.map_values(|t: TimeSeries| t@),
            ),
            forall|j: int| 0 <= j < ts@.len() ==> (#[trigger] ts@[j]).wf(),
        decreases raws@.len() - i,
    {
        let ghost prefix = raws@.subrange(0, i as int + 1);
        assert(prefix.drop_last() =~= raws@.subrange(0, i as int));
        assert(prefix.last() == raws@[i as int]);
        match parse_time_series(&raws[i]) {
            Err(e) => {
                proof {
                    lemma_series_prefix_err(raws@, i as int + 1, e);
                }
                return Err(e);
            },
            Ok(t) => {
                let ghost before = ts@;
                ts.push(t);
                assert(ts@.map_values(|t: TimeSeries| t@) =~= before.map_values(
                    |t: TimeSeries| t@,
                ).push(t@));
            },
        }
        i = i + 1;
    }
    assert(raws@.subrange(0, i as int) =~= raws@);
    Ok(ts)
}

impl WeatherReport {
    /// Every timestamp came from text and every hour is well formed.
    pub open spec fn wf(&self) -> bool {
        &&& self.approved_time.wf()
        &&& self.reference_time.wf()
        &&& forall|i: int| 0 <= i < self.time_series@.len() ==> (#[trigger] self.time_series@[i]).wf()
    }

    /// Builds a report from a wire document, tagging it with the location it
    /// was asked for. Nothing is kept when any part fails.
    pub fn parse(raw: &RawReport, location: Option<Location>) -> (r: Result<
        WeatherReport,
        ParseError,
    >)
        ensures
            match r {
                Ok(w) => {
                    &&& w.wf()
                    &&& report_spec(*raw) == Ok::<ReportView, ParseError>(w@)
                    &&& w.location == location
                },
                Err(e) => report_spec(*raw) == Err::<ReportView, ParseError>(e),
            },
    {
        let approved_time = match Timestamp::parse(raw.approved_time.as_str()) {
            Ok(t) => t,
            Err(e) => {
                return Err(e);
            },
        };
        let reference_time = match Timestamp::parse(raw.reference_time.as_str()) {
            Ok(t) => t,
            Err(e) => {
                return Err(e);
            },
        };
        let coordinates = match read_coordinates(&raw.geometry.coordinates) {
            Some(c) => c,
            None => {
                return Err(ParseError::StructureViolation(StructureFault::MalformedNumber));
            },
        };
        let time_series = match read_series_list(&raw.time_series) {
            Ok(ts) => ts,
            Err(e) => {
                return Err(e);
            },
        };
        let geometry = Geometry { geometry_type: raw.geometry.geometry_type.clone(), coordinates };
        let w = WeatherReport { approved_time, reference_time, geometry, time_series, location };
        assert(w@.geometry == GeometryView {
            geometry_type: raw.geometry.geometry_type@,
            coordinates: w.geometry.coordinates@.map_values(|row: Vec<Decimal>| row@),
        });
        Ok(w)
    }

    /// The hours in the order received. The result is fixed by the report
    /// alone, so enumerating twice yields the same sequence.
    pub fn enumerate_time_series(&self) -> (r: &[TimeSeries])
        ensures
            r@ == self.time_series@,
    {
        self.time_series.as_slice()
    }

    /// The reading of a name at the hour with the given position; none where
    /// the forecast omits it there.
    pub fn parameter_at(&self, index: usize, name: ParameterName) -> (r: Option<&Parameter>)
        requires
            self.wf(),
            index < self.time_series@.len(),
        ensures
            match r {
                Some(p) => self@.time_series[index as int].parameters.contains_key(name)
                    && p@ == self@.time_series[index as int].parameters[name] && p.name == name
                    && p@.wf(),
                None => !self@.time_series[index as int].parameters.contains_key(name),
            },
    {
        self.time_series[index].get(name)
    }
}

proof fn lemma_numerals_len(texts: Seq<String>)
    requires
        numerals_spec(texts) is Some,
    ensures
        numerals_spec(texts).unwrap().len() == texts.len(),
    decreases texts.len(),
{
    if texts.len() > 0 {
        lemma_numerals_len(texts.drop_last());
    }
}

/// Any known parameter whose values are all numbers, but not exactly one of
/// them, is refused as a domain violation that states the one-value
/// requirement.
pub proof fn lemma_value_count_violation(raw: RawParameter)
    requires
        name_from_text(raw.name@) is Some,
        numerals_spec(raw.values@) is Some,
        raw.values@.len() != 1,
    ensures
        parameter_spec(raw) == Err::<ParameterView, ParseError>(
            ParseError::DomainViolation(DomainFault::ValueCount(name_from_text(raw.name@).unwrap())),
        ),
        message_text(parameter_spec(raw)->Err_0) == "parameter must have exactly one value"@,
{
    lemma_numerals_len(raw.values@);
}

proof fn lemma_parameters_fail_at(raws: Seq<RawParameter>, k: int)
    requires
        0 <= k < raws.len(),
        parameter_spec(raws[k]) is Err,
    ensures
        parameters_spec(raws) is Err,
    decreases raws.len(),
{
    if k < raws.len() - 1 {
        lemma_parameters_fail_at(raws.drop_last(), k);
    }
}

proof fn lemma_series_fail_at(raws: Seq<RawTimeSeries>, i: int)
    requires
        0 <= i < raws.len(),
        time_series_spec(raws[i]) is Err,
    ensures
        series_list_spec(raws) is Err,
    decreases raws.len(),
{
    if i < raws.len() - 1 {
        lemma_series_fail_at(raws.drop_last(), i);
    }
}

/// A parameter name outside the enumeration, anywhere in a document, means
/// that no report is built; within its own entry it is a structure
/// violation.
pub proof fn lemma_unknown_name_no_report(raw: RawReport, i: int, k: int)
    requires
        0 <= i < raw.time_series@.len(),
        0 <= k < raw.time_series@[i].parameters@.len(),
        name_from_text(raw.time_series@[i].parameters@[k].name@) is None,
    ensures
        parameter_spec(raw.time_series@[i].parameters@[k]) == Err::<ParameterView, ParseError>(
            ParseError::StructureViolation(StructureFault::UnknownParameterName),
        ),
        report_spec(raw) is Err,
{
    let ts = raw.time_series@[i];
    lemma_parameters_fail_at(ts.parameters@, k);
    lemma_series_fail_at(raw.time_series@, i);
}

} // verus!
