//! Timestamp helpers for the chart axes. A timestamp is a plain `u64`
//! count of nanoseconds since the epoch; what a civil-time library makes
//! of the split parts is its own business.

use vstd::prelude::*;

verus! {

pub const NANOS_PER_SEC: u64 = 1_000_000_000;

/// Whether `s` lists the value `v`.
pub open spec fn seq_contains_u64(s: Seq<u64>, v: u64) -> bool {
    exists|l: int| 0 <= l < s.len() && s[l] == v
}

/// Whole seconds and sub-second nanoseconds combined into one nanosecond
/// timestamp.
pub fn datetime_to_nanos(secs: u64, subsec_nanos: u64) -> (r: u64)
    requires
        secs * 1_000_000_000 + subsec_nanos <= u64::MAX,
    ensures
        r == secs * 1_000_000_000 + subsec_nanos,
{
    secs * NANOS_PER_SEC + subsec_nanos
}

/// A nanosecond timestamp split into the whole seconds and sub-second
/// nanoseconds a civil-time type is built from.
pub fn convert_nano_to_datetime(ts_nanos: u64) -> (r: (u64, u64))
    ensures
        r.0 == ts_nanos / 1_000_000_000,
        r.1 == ts_nanos % 1_000_000_000,
{
    (ts_nanos / NANOS_PER_SEC, ts_nanos % NANOS_PER_SEC)
}

/// The smallest and the largest timestamp of the list, `None` exactly for
/// an empty list.
pub fn min_max_datetimes(timestamps: Vec<u64>) -> (r: Option<(u64, u64)>)
    ensures
        r is None <==> timestamps@.len() == 0,
        r matches Some(p) ==> {
            &&& seq_contains_u64(timestamps@, p.0)
            &&& seq_contains_u64(timestamps@, p.1)
            &&& forall|i: int|
                0 <= i < timestamps@.len() ==> p.0 <= #[trigger] timestamps@[i] <= p.1
        },
{
    let n = timestamps.len();
    if n == 0 {
        return None;
    }
    let mut mn: u64 = timestamps[0];
    let mut mx: u64 = timestamps[0];
    for i in 1..n
        invariant
            n == timestamps@.len(),
            exists|l: int| 0 <= l < i && timestamps@[l] == mn,
            exists|l: int| 0 <= l < i && timestamps@[l] == mx,
            forall|l: int| 0 <= l < i ==> mn <= #[trigger] timestamps@[l] <= mx,
    {
        let t = timestamps[i];
        if t < mn {
            mn = t;
            proof {
                assert(timestamps@[i as int] == mn);
            }
        } else {
            proof {
                let w = choose|l: int| 0 <= l < i && timestamps@[l] == mn;
                assert(0 <= w < i + 1 && timestamps@[w] == mn);
            }
        }
        if t > mx {
            mx = t;
            proof {
                assert(timestamps@[i as int] == mx);
            }
        } else {
            proof {
                let w = choose|l: int| 0 <= l < i && timestamps@[l] == mx;
                assert(0 <= w < i + 1 && timestamps@[w] == mx);
            }
        }
    }
    Some((mn, mx))
}

} // verus!
