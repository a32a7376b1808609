//! Averaging one window's readings into one record per device.
//!
//! Continuous metrics take the arithmetic mean, rounded to the same
//! scaled-integer precision the decoder emits; the movement counter takes
//! the wrap-aware difference of the window's endpoint samples.

use vstd::prelude::*;

use vstd::arithmetic::div_mod::{
    lemma_div_pos_is_pos, lemma_multiply_divide_lt,
};

use crate::collector::Measurements;
use crate::config::{resolved_name, SensorConfig};
use crate::models::{AverageData, AverageEntry, AverageView, RuuviData};

verus! {

/// A continuous metric of a reading.
pub enum Metric {
    Temperature,
    Humidity,
    Pressure,
    AccelerationX,
    AccelerationY,
    AccelerationZ,
}

/// The value a reading holds for a metric.
pub open spec fn metric_of(r: RuuviData, m: Metric) -> int {
    match m {
        Metric::Temperature => r.temperature as int,
        Metric::Humidity => r.humidity as int,
        Metric::Pressure => r.pressure as int,
        Metric::AccelerationX => r.acceleration_x as int,
        Metric::AccelerationY => r.acceleration_y as int,
        Metric::AccelerationZ => r.acceleration_z as int,
    }
}

/// The sum of a metric over a sequence of readings.
pub open spec fn metric_sum(s: Seq<RuuviData>, m: Metric) -> int
    decreases s.len(),
{
    if s.len() == 0 {
        0
    } else {
        metric_sum(s.drop_last(), m) + metric_of(s.last(), m)
    }
}

/// `sum / n` rounded to the nearest integer, halves away from zero.
pub open spec fn round_avg(sum: int, n: int) -> int
    recommends
        n >= 1,
{
    if sum >= 0 {
        (2 * sum + n) / (2 * n)
    } else {
        -((2 * (-sum) + n) / (2 * n))
    }
}

/// The rounded mean of a metric over a sequence of readings.
pub open spec fn metric_avg(s: Seq<RuuviData>, m: Metric) -> int
    recommends
        s.len() > 0,
{
    round_avg(metric_sum(s, m), s.len() as int)
}

/// The movement of a window: how far the 8-bit counter advanced from the
/// window's first reading to its last, modulo its width.
pub open spec fn wrap_delta(first: u8, last: u8) -> int {
    (last - first + 256) % 256
}

/// The averages record a non-empty sequence of readings yields, given the
/// resolved display name and the window-end time in Unix seconds.
pub open spec fn spec_average_of(readings: Seq<RuuviData>, name: Seq<char>, now: int) -> AverageView
    recommends
        readings.len() > 0,
{
    AverageView {
        temperature: metric_avg(readings, Metric::Temperature),
        humidity: metric_avg(readings, Metric::Humidity),
        pressure: metric_avg(readings, Metric::Pressure),
        acceleration_x: metric_avg(readings, Metric::AccelerationX),
        acceleration_y: metric_avg(readings, Metric::AccelerationY),
        acceleration_z: metric_avg(readings, Metric::AccelerationZ),
        movement_counter: wrap_delta(readings[0].movement_counter, readings[readings.len() - 1].movement_counter),
        time: now,
        name: name,
        samples: readings.len() as int,
    }
}

/// A rounded mean lies between bounds that enclose every summand.
proof fn lemma_round_avg_bounds(sum: int, n: int, lo: int, hi: int)
    requires
        n >= 1,
        lo <= 0,
        0 <= hi,
        n * lo <= sum,
        sum <= n * hi,
    ensures
        lo <= round_avg(sum, n) <= hi,
{
    if sum >= 0 {
        assert((2 * n) * (hi + 1) == 2 * (n * hi) + 2 * n) by (nonlinear_arith);
        assert(2 * sum + n < (2 * n) * (hi + 1));
        lemma_multiply_divide_lt(2 * sum + n, 2 * n, hi + 1);
        lemma_div_pos_is_pos(2 * sum + n, 2 * n);
    } else {
        let neg = -sum;
        assert((2 * n) * (-lo + 1) == 2 * (n * (-lo)) + 2 * n) by (nonlinear_arith);
        assert(n * (-lo) == -(n * lo)) by (nonlinear_arith);
        assert(2 * neg + n < (2 * n) * (-lo + 1));
        lemma_multiply_divide_lt(2 * neg + n, 2 * n, -lo + 1);
        lemma_div_pos_is_pos(2 * neg + n, 2 * n);
    }
}

/// `sum / n` rounded to the nearest integer, halves away from zero.
fn round_div(sum: i128, n: i128) -> (r: i128)
    requires
        1 <= n <= 0x1_0000_0000_0000_0000,
        -0x8000_0000 * n <= sum,
        sum <= 0xFFFF_FFFF * n,
    ensures
        r == round_avg(sum as int, n as int),
{
    if sum >= 0 {
        (2 * sum + n) / (2 * n)
    } else {
        -((2 * (-sum) + n) / (2 * n))
    }
}

/// Average a non-empty sequence of readings into one record, carrying the
/// resolved display name, the window-end time and the sample count.
pub fn average_readings(readings: &Vec<RuuviData>, name: String, now: i64) -> (r: AverageData)
    requires
        readings@.len() > 0,
    ensures
        r@ == spec_average_of(readings@, name@, now as int),
{
    let ghost rs = readings@;
    let n = readings.len();
    let mut t_sum: i128 = 0;
    let mut h_sum: i128 = 0;
    let mut p_sum: i128 = 0;
    let mut ax_sum: i128 = 0;
    let mut ay_sum: i128 = 0;
    let mut az_sum: i128 = 0;
    let mut i: usize = 0;
    while i < n
        invariant
            n == rs.len(),
            rs == readings@,
            i <= n,
            t_sum == metric_sum(rs.take(i as int), Metric::Temperature),
            h_sum == metric_sum(rs.take(i as int), Metric::Humidity),
            p_sum == metric_sum(rs.take(i as int), Metric::Pressure),
            ax_sum == metric_sum(rs.take(i as int), Metric::AccelerationX),
            ay_sum == metric_sum(rs.take(i as int), Metric::AccelerationY),
            az_sum == metric_sum(rs.take(i as int), Metric::AccelerationZ),
            -0x8000_0000 * (i as int) <= t_sum <= 0x7FFF_FFFF * (i as int),
            0 <= h_sum <= 0xFFFF_FFFF * (i as int),
            0 <= p_sum <= 0xFFFF_FFFF * (i as int),
            -0x8000_0000 * (i as int) <= ax_sum <= 0x7FFF_FFFF * (i as int),
            -0x8000_0000 * (i as int) <= ay_sum <= 0x7FFF_FFFF * (i as int),
            -0x8000_0000 * (i as int) <= az_sum <= 0x7FFF_FFFF * (i as int),
        decreases n - i,
    {
        let r = readings[i];
        proof {
            assert(rs.take(i as int + 1).drop_last() =~= rs.take(i as int));
            assert(rs.take(i as int + 1).last() == rs[i as int]);
        }
        t_sum = t_sum + (r.temperature as i128);
        h_sum = h_sum + (r.humidity as i128);
        p_sum = p_sum + (r.pressure as i128);
        ax_sum = ax_sum + (r.acceleration_x as i128);
        ay_sum = ay_sum + (r.acceleration_y as i128);
        az_sum = az_sum + (r.acceleration_z as i128);
        i = i + 1;
    }
    proof {
        assert(rs.take(n as int) =~= rs);
    }
    let n_i = n as i128;
    let t_avg = round_div(t_sum, n_i);
    let h_avg = round_div(h_sum, n_i);
    let p_avg = round_div(p_sum, n_i);
    let ax_avg = round_div(ax_sum, n_i);
    let ay_avg = round_div(ay_sum, n_i);
    let az_avg = round_div(az_sum, n_i);
    proof {
        lemma_round_avg_bounds(t_sum as int, n as int, -0x8000_0000, 0x7FFF_FFFF);
        lemma_round_avg_bounds(h_sum as int, n as int, 0, 0xFFFF_FFFF);
        lemma_round_avg_bounds(p_sum as int, n as int, 0, 0xFFFF_FFFF);
        lemma_round_avg_bounds(ax_sum as int, n as int, -0x8000_0000, 0x7FFF_FFFF);
        lemma_round_avg_bounds(ay_sum as int, n as int, -0x8000_0000, 0x7FFF_FFFF);
        lemma_round_avg_bounds(az_sum as int, n as int, -0x8000_0000, 0x7FFF_FFFF);
    }
    let first = readings[0];
    let last = readings[n - 1];
    let movement_counter: u32 = ((last.movement_counter as u32) + 256 - (first.movement_counter
        as u32)) % 256;
    AverageData {
        temperature: t_avg as i32,
        humidity: h_avg as u32,
        pressure: p_avg as u32,
        acceleration_x: ax_avg as i32,
        acceleration_y: ay_avg as i32,
        acceleration_z: az_avg as i32,
        movement_counter,
        time: now,
        name,
        samples: n,
    }
}

/// The records one window yields: one per device that has a reading, in
/// the order the devices first reported, skipping devices with none.
pub open spec fn spec_calculate_averages(
    m: Seq<(Seq<char>, Seq<RuuviData>)>,
    tags: Seq<(Seq<char>, Seq<char>)>,
    now: int,
) -> Seq<(Seq<char>, AverageView)>
    decreases m.len(),
{
    if m.len() == 0 {
        Seq::empty()
    } else {
        let prev = spec_calculate_averages(m.drop_last(), tags, now);
        let e = m.last();
        if e.1.len() > 0 {
            prev.push((e.0, spec_average_of(e.1, resolved_name(tags, e.0), now)))
        } else {
            prev
        }
    }
}

/// Average one window's accumulated readings: each device with at least
/// one reading yields exactly one record, averaged as
/// [`spec_average_of`] says, named from the registry with a placeholder
/// for unknown devices, stamped with the window-end time `now`; a device
/// with an empty series yields nothing.
pub fn calculate_averages(measurements: &Measurements, config: &SensorConfig, now: i64) -> (r:
    Vec<AverageEntry>)
    ensures
        r@.map_values(|e: AverageEntry| e@) == spec_calculate_averages(
            measurements@,
            config.tags_view(),
            now as int,
        ),
{
    let ghost m = measurements@;
    let mut out: Vec<AverageEntry> = Vec::new();
    let n = measurements.series.len();
    let mut i: usize = 0;
    proof {
        assert(out@.map_values(|e: AverageEntry| e@) =~= Seq::<(Seq<char>, AverageView)>::empty());
    }
    while i < n
        invariant
            n == measurements.series@.len(),
            m == measurements@,
            i <= n,
            out@.map_values(|e: AverageEntry| e@) == spec_calculate_averages(
                m.take(i as int),
                config.tags_view(),
                now as int,
            ),
        decreases n - i,
    {
        proof {
            assert(m.take(i as int + 1).drop_last() =~= m.take(i as int));
            assert(m.take(i as int + 1).last() == m[i as int]);
            assert(m[i as int] == measurements.series@[i as int]@);
        }
        let series = &measurements.series[i];
        if series.readings.len() > 0 {
            let name = config.resolve_name(&series.sensor_id);
            let data = average_readings(&series.readings, name, now);
            let entry = AverageEntry { sensor_id: series.sensor_id.clone(), data };
            let ghost out_before = out@.map_values(|e: AverageEntry| e@);
            let ghost entry_view = entry@;
            out.push(entry);
            proof {
                assert(out@.map_values(|e: AverageEntry| e@) =~= out_before.push(entry_view));
            }
        }
        i = i + 1;
    }
    proof {
        assert(m.take(n as int) =~= m);
    }
    out
}

/// The seconds of a wall-clock span, as the driving loop counts them:
/// the span's whole seconds reinterpreted as an unsigned count.
pub fn duration_to_seconds(whole_seconds: i64) -> (r: u64)
    ensures
        r == whole_seconds as u64,
{
    #[verifier::truncate] (whole_seconds as u64)
}


/// A device whose series is empty yields nothing: adding an empty series
/// to the accumulation map leaves the window's records unchanged.
pub proof fn lemma_empty_series_yields_nothing(
    m: Seq<(Seq<char>, Seq<RuuviData>)>,
    tags: Seq<(Seq<char>, Seq<char>)>,
    id: Seq<char>,
    now: int,
)
    ensures
        spec_calculate_averages(m.push((id, Seq::empty())), tags, now) == spec_calculate_averages(
            m,
            tags,
            now,
        ),
{
    assert(m.push((id, Seq::<RuuviData>::empty())).drop_last() =~= m);
}

} // verus!
