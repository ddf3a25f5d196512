//! The chart-kind selector shared by the chart views.

use vstd::prelude::*;

verus! {

/// Which chart a view renders.
#[derive(Debug, Clone, Copy, PartialEq, Eq, Structural)]
pub enum ChartType {
    Line,
    Candle,
}

/// The chart kind a name denotes; any unknown name falls back to the
/// line chart.
pub open spec fn chart_from_str(s: Seq<char>) -> ChartType {
    if s == "candle"@ {
        ChartType::Candle
    } else {
        ChartType::Line
    }
}

impl ChartType {
    /// The name of the chart kind.
    pub fn as_str(&self) -> (r: &'static str)
        ensures
            self is Line ==> r@ == "line"@,
            self is Candle ==> r@ == "candle"@,
    {
        match self {
            ChartType::Line => "line",
            ChartType::Candle => "candle",
        }
    }

    /// Parses a chart name, defaulting to the line chart.
    pub fn from_str(s: &str) -> (r: ChartType)
        ensures
            r == chart_from_str(s@),
    {
        let o: String = s.to_owned();
        let candle: String = "candle".to_owned();
        if o == candle {
            ChartType::Candle
        } else {
            ChartType::Line
        }
    }

    /// The chart name selected by position: `0` is the line chart, `1`
    /// the candle chart, anything else is unknown.
    pub fn from_usize_as_str(s: usize) -> (r: &'static str)
        ensures
            s == 0 ==> r@ == "line"@,
            s == 1 ==> r@ == "candle"@,
            s >= 2 ==> r@ == "None"@,
    {
        if s == 0 {
            "line"
        } else if s == 1 {
            "candle"
        } else {
            "None"
        }
    }
}

} // verus!
