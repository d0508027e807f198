//! Failures of historical source admission and validation.

use vstd::prelude::*;

verus! {

/// Why a historical bar source could not be admitted, or why a raw page of it was refused.
#[derive(Clone, Copy, Debug, PartialEq, Eq, Structural)]
pub enum SourceError {
    /// The source is not a standard 1-MINUTE-LAST-EXTERNAL bar type.
    UnsupportedSource,
    MissingStart,
    MissingEnd,
    MissingLimit,
    /// A requested bound lies before the UNIX epoch or beyond 64-bit nanoseconds.
    StartOutOfRange,
    EndOutOfRange,
    StartExceedsEnd,
    StartOverflows,
    FirstCloseOverflows,
    EndOverflows,
    NoClosedMinute,
    CountOverflows,
    CoverageExceedsLimit,
    DuplicateTargets,
    RequestIdMismatch,
    ClientIdMismatch,
    BarTypeMismatch,
    ExceedsCoverage,
    IncompleteCoverage,
    RowBarTypeMismatch { index: usize },
    InvalidPriceOrVolume { index: usize },
    InvalidOhlcBounds { index: usize },
    TimestampOverflows,
    CloseBoundaryOverflows,
    NotClosedMinutePhase,
    ClosePrecedesEpoch,
    OutsideCoverage { index: usize },
    DuplicateOrOutOfOrder { index: usize },
    Gap { index: usize },
    /// A response to a captured bars source is not a bars response.
    WrongVariant,
}


impl SourceError {
    /// The diagnostic text of the error.
    pub open spec fn text(self) -> Seq<char> {
        match self {
            SourceError::UnsupportedSource => "Historical source validation requires standard 1-MINUTE-LAST-EXTERNAL bars"@,
            SourceError::MissingStart => "Missing historical source start"@,
            SourceError::MissingEnd => "Missing historical source end"@,
            SourceError::MissingLimit => "Missing historical source limit"@,
            SourceError::StartOutOfRange => "Historical source start is outside UNIX nanoseconds"@,
            SourceError::EndOutOfRange => "Historical source end is outside UNIX nanoseconds"@,
            SourceError::StartExceedsEnd => "Historical source start exceeds end"@,
            SourceError::StartOverflows => "Historical source start overflows"@,
            SourceError::FirstCloseOverflows => "Historical source first close overflows"@,
            SourceError::EndOverflows => "Historical source end overflows"@,
            SourceError::NoClosedMinute => "Historical source contains no closed minute"@,
            SourceError::CountOverflows => "Historical source count overflows"@,
            SourceError::CoverageExceedsLimit => "Historical source coverage exceeds request limit"@,
            SourceError::DuplicateTargets => "Historical aggregate targets must have unique standard BarTypes"@,
            SourceError::RequestIdMismatch => "Historical source request ID mismatch"@,
            SourceError::ClientIdMismatch => "Historical source client ID mismatch"@,
            SourceError::BarTypeMismatch => "Historical source BarType mismatch"@,
            SourceError::ExceedsCoverage => "Historical source exceeds original coverage"@,
            SourceError::IncompleteCoverage => "Historical source coverage is incomplete"@,
            SourceError::RowBarTypeMismatch { index } => "Historical source row BarType mismatch at "@ + decimal_digits(index as nat),
            SourceError::InvalidPriceOrVolume { index } => "Historical source has invalid price or volume at "@ + decimal_digits(index as nat),
            SourceError::InvalidOhlcBounds { index } => "Historical source has invalid OHLC bounds at "@ + decimal_digits(index as nat),
            SourceError::TimestampOverflows => "Historical source timestamp overflows"@,
            SourceError::CloseBoundaryOverflows => "Historical source close boundary overflows"@,
            SourceError::NotClosedMinutePhase => "Historical source timestamp is not a closed-minute phase"@,
            SourceError::ClosePrecedesEpoch => "Historical source close precedes epoch"@,
            SourceError::OutsideCoverage { index } => "Historical source row is outside original coverage at "@ + decimal_digits(index as nat),
            SourceError::DuplicateOrOutOfOrder { index } => "Historical source is duplicated or out of order at "@ + decimal_digits(index as nat),
            SourceError::Gap { index } => "Historical source has a gap at "@ + decimal_digits(index as nat),
            SourceError::WrongVariant => "Historical bar source response has wrong data variant"@,
        }
    }

    /// The diagnostic text of the error.
    pub fn message(&self) -> (r: String)
        ensures
            r@ == self.text(),
    {
        match self {
            SourceError::UnsupportedSource => String::from_str("Historical source validation requires standard 1-MINUTE-LAST-EXTERNAL bars"),
            SourceError::MissingStart => String::from_str("Missing historical source start"),
            SourceError::MissingEnd => String::from_str("Missing historical source end"),
            SourceError::MissingLimit => String::from_str("Missing historical source limit"),
            SourceError::StartOutOfRange => String::from_str("Historical source start is outside UNIX nanoseconds"),
            SourceError::EndOutOfRange => String::from_str("Historical source end is outside UNIX nanoseconds"),
            SourceError::StartExceedsEnd => String::from_str("Historical source start exceeds end"),
            SourceError::StartOverflows => String::from_str("Historical source start overflows"),
            SourceError::FirstCloseOverflows => String::from_str("Historical source first close overflows"),
            SourceError::EndOverflows => String::from_str("Historical source end overflows"),
            SourceError::NoClosedMinute => String::from_str("Historical source contains no closed minute"),
            SourceError::CountOverflows => String::from_str("Historical source count overflows"),
            SourceError::CoverageExceedsLimit => String::from_str("Historical source coverage exceeds request limit"),
            SourceError::DuplicateTargets => String::from_str("Historical aggregate targets must have unique standard BarTypes"),
            SourceError::RequestIdMismatch => String::from_str("Historical source request ID mismatch"),
            SourceError::ClientIdMismatch => String::from_str("Historical source client ID mismatch"),
            SourceError::BarTypeMismatch => String::from_str("Historical source BarType mismatch"),
            SourceError::ExceedsCoverage => String::from_str("Historical source exceeds original coverage"),
            SourceError::IncompleteCoverage => String::from_str("Historical source coverage is incomplete"),
            SourceError::RowBarTypeMismatch { index } => indexed_text("Historical source row BarType mismatch at ", *index),
            SourceError::InvalidPriceOrVolume { index } => indexed_text("Historical source has invalid price or volume at ", *index),
            SourceError::InvalidOhlcBounds { index } => indexed_text("Historical source has invalid OHLC bounds at ", *index),
            SourceError::TimestampOverflows => String::from_str("Historical source timestamp overflows"),
            SourceError::CloseBoundaryOverflows => String::from_str("Historical source close boundary overflows"),
            SourceError::NotClosedMinutePhase => String::from_str("Historical source timestamp is not a closed-minute phase"),
            SourceError::ClosePrecedesEpoch => String::from_str("Historical source close precedes epoch"),
            SourceError::OutsideCoverage { index } => indexed_text("Historical source row is outside original coverage at ", *index),
            SourceError::DuplicateOrOutOfOrder { index } => indexed_text("Historical source is duplicated or out of order at ", *index),
            SourceError::Gap { index } => indexed_text("Historical source has a gap at ", *index),
            SourceError::WrongVariant => String::from_str("Historical bar source response has wrong data variant"),
        }
    }
}

/// The decimal digit character of `d`.
pub open spec fn digit_char(d: nat) -> char {
    (48 + d) as char
}

/// The decimal notation of `n`, without leading zeros.
pub open spec fn decimal_digits(n: nat) -> Seq<char>
    decreases n,
{
    if n < 10 {
        seq![digit_char(n)]
    } else {
        decimal_digits(n / 10).push(digit_char(n % 10))
    }
}

fn digit_text(d: usize) -> (r: &'static str)
    requires
        d < 10,
    ensures
        r@ == seq![digit_char(d as nat)],
{
    proof {
        reveal_strlit("0");
        reveal_strlit("1");
        reveal_strlit("2");
        reveal_strlit("3");
        reveal_strlit("4");
        reveal_strlit("5");
        reveal_strlit("6");
        reveal_strlit("7");
        reveal_strlit("8");
        reveal_strlit("9");
    }
    let r = if d == 0 {
        "0"
    } else if d == 1 {
        "1"
    } else if d == 2 {
        "2"
    } else if d == 3 {
        "3"
    } else if d == 4 {
        "4"
    } else if d == 5 {
        "5"
    } else if d == 6 {
        "6"
    } else if d == 7 {
        "7"
    } else if d == 8 {
        "8"
    } else {
        "9"
    };
    assert(r@ =~= seq![digit_char(d as nat)]);
    r
}

/// The decimal notation of `n`.
pub fn decimal(n: u64) -> (r: String)
    ensures
        r@ == decimal_digits(n as nat),
    decreases n,
{
    if n < 10 {
        String::from_str(digit_text(n as usize))
    } else {
        let mut r = decimal(n / 10);
        r.append(digit_text((n % 10) as usize));
        r
    }
}

pub(crate) fn indexed_text(text: &str, index: usize) -> (r: String)
    ensures
        r@ == text@ + decimal_digits(index as nat),
{
    let mut r = String::from_str(text);
    let digits = decimal(index as u64);
    r.append(digits.as_str());
    r
}

/// Why a historical bars request could not be admitted, or its aggregation plan frozen.
#[derive(Debug)]
pub enum AdmissionError {
    /// The request cannot be captured as a historical source.
    Source(SourceError),
    InvalidTimeout,
    TimeoutOverflowsNanoseconds,
    DeadlineOverflows,
    MissingCommandEndpoint,
    /// The shared deadline alert could not be armed; the clock's own diagnostic.
    Timer(String),
    NoOriginalParent,
    ScopeInactive,
    AlreadyActive,
    NoOriginalSource,
    TargetFinerThanSource,
    NoAcyclicPath,
    NoPath,
}

impl AdmissionError {
    /// The diagnostic text of the error.
    pub open spec fn text(&self) -> Seq<char> {
        match self {
            AdmissionError::Source(e) => e.text(),
            AdmissionError::InvalidTimeout => "historical_bars_timeout_ms must be a positive integer"@,
            AdmissionError::TimeoutOverflowsNanoseconds => "historical_bars_timeout_ms overflows nanoseconds"@,
            AdmissionError::DeadlineOverflows => "historical_bars_timeout_ms overflows deadline"@,
            AdmissionError::MissingCommandEndpoint => "Historical request deadlines require the Native data command queue endpoint"@,
            AdmissionError::Timer(e) => e@,
            AdmissionError::NoOriginalParent => "Historical source pipeline has no original parent"@,
            AdmissionError::ScopeInactive => "Historical bar requester session is inactive"@,
            AdmissionError::AlreadyActive => "Historical source request ID is already active"@,
            AdmissionError::NoOriginalSource => "Historical aggregate plan has no original source"@,
            AdmissionError::TargetFinerThanSource => "Historical time aggregate target cannot be finer than the original 1m source"@,
            AdmissionError::NoAcyclicPath => "Historical aggregate target has no acyclic path to the original source"@,
            AdmissionError::NoPath => "Historical aggregate target has no path to the original source"@,
        }
    }

    /// The diagnostic text of the error.
    pub fn message(&self) -> (r: String)
        ensures
            r@ == self.text(),
    {
        match self {
            AdmissionError::Source(e) => e.message(),
            AdmissionError::InvalidTimeout => String::from_str("historical_bars_timeout_ms must be a positive integer"),
            AdmissionError::TimeoutOverflowsNanoseconds => String::from_str("historical_bars_timeout_ms overflows nanoseconds"),
            AdmissionError::DeadlineOverflows => String::from_str("historical_bars_timeout_ms overflows deadline"),
            AdmissionError::MissingCommandEndpoint => String::from_str("Historical request deadlines require the Native data command queue endpoint"),
            AdmissionError::Timer(e) => e.clone(),
            AdmissionError::NoOriginalParent => String::from_str("Historical source pipeline has no original parent"),
            AdmissionError::ScopeInactive => String::from_str("Historical bar requester session is inactive"),
            AdmissionError::AlreadyActive => String::from_str("Historical source request ID is already active"),
            AdmissionError::NoOriginalSource => String::from_str("Historical aggregate plan has no original source"),
            AdmissionError::TargetFinerThanSource => String::from_str("Historical time aggregate target cannot be finer than the original 1m source"),
            AdmissionError::NoAcyclicPath => String::from_str("Historical aggregate target has no acyclic path to the original source"),
            AdmissionError::NoPath => String::from_str("Historical aggregate target has no path to the original source"),
        }
    }
}

} // verus!
