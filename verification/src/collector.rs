//! Accumulation of decoded readings per device across one collection
//! window, and the timing rules of the poll loop.
//!
//! The binary drives the loop: it performs the scans and the sleeps and
//! hands every scan's raw pairs in here, where the registry filter, the
//! decoding and the ordered accumulation are carried out.

use vstd::prelude::*;

use crate::assoc::{key_index, lemma_key_index_at, lemma_key_index_none};
use crate::config::{tags_lookup, SensorConfig};
use crate::decoder::{decode_ruuvi_data, spec_decode};
use crate::models::RuuviData;

verus! {

/// Length of one collection window, in seconds.
pub const COLLECTION_INTERVAL_SECS: u64 = 1800;

/// Spacing of scan passes inside a window, in seconds.
pub const POLL_INTERVAL_SECS: u64 = 30;

/// Length of one active scan pass, in seconds.
pub const SCAN_DURATION_SECS: u64 = 20;

/// One device address together with the raw manufacturer bytes one scan
/// pass reported for it.
pub struct ScanPair {
    /// Device address in its canonical uppercase hex form.
    pub address: String,
    /// Raw manufacturer data bytes from the advertisement.
    pub payload: Vec<u8>,
}

impl View for ScanPair {
    type V = (Seq<char>, Seq<u8>);

    open spec fn view(&self) -> (Seq<char>, Seq<u8>) {
        (self.address@, self.payload@)
    }
}

/// One device's readings of the current window, in arrival order.
pub struct MeasurementSeries {
    /// Device address in its canonical uppercase hex form.
    pub sensor_id: String,
    /// Readings accepted for this device, oldest first.
    pub readings: Vec<RuuviData>,
}

impl View for MeasurementSeries {
    type V = (Seq<char>, Seq<RuuviData>);

    open spec fn view(&self) -> (Seq<char>, Seq<RuuviData>) {
        (self.sensor_id@, self.readings@)
    }
}

/// `m` with `reading` appended to the series of `id`: the last series
/// keyed by `id` grows at its end, a first reading opens a new series at
/// the end of the map.
pub open spec fn map_append(
    m: Seq<(Seq<char>, Seq<RuuviData>)>,
    id: Seq<char>,
    reading: RuuviData,
) -> Seq<(Seq<char>, Seq<RuuviData>)> {
    if key_index(m, id) >= 0 {
        m.update(key_index(m, id), (m[key_index(m, id)].0, m[key_index(m, id)].1.push(reading)))
    } else {
        m.push((id, seq![reading]))
    }
}

/// The accumulation map after the pairs of one scan pass are folded in:
/// a pair is kept when its address is registered and its payload decodes,
/// and its reading is appended in the order the pairs came.
pub open spec fn spec_process_scan(
    m: Seq<(Seq<char>, Seq<RuuviData>)>,
    tags: Seq<(Seq<char>, Seq<char>)>,
    pairs: Seq<(Seq<char>, Seq<u8>)>,
) -> Seq<(Seq<char>, Seq<RuuviData>)>
    decreases pairs.len(),
{
    if pairs.len() == 0 {
        m
    } else {
        let prev = spec_process_scan(m, tags, pairs.drop_last());
        let p = pairs.last();
        if tags_lookup(tags, p.0) is Some {
            match spec_decode(p.1) {
                Some(reading) => map_append(prev, p.0, reading),
                None => prev,
            }
        } else {
            prev
        }
    }
}

/// The per-device accumulation map of one collection window.
///
/// Its view is the sequence of (address, readings) series in the order
/// the devices first reported; each address keys at most one series.
pub struct Measurements {
    /// One series per device, in the order the devices first reported.
    pub series: Vec<MeasurementSeries>,
}

impl View for Measurements {
    type V = Seq<(Seq<char>, Seq<RuuviData>)>;

    open spec fn view(&self) -> Seq<(Seq<char>, Seq<RuuviData>)> {
        self.series@.map_values(|s: MeasurementSeries| s@)
    }
}

impl Measurements {
    /// Device addresses key at most one series each.
    pub open spec fn wf(&self) -> bool {
        forall|i: int, j: int|
            0 <= i < j < self@.len() ==> (#[trigger] self@[i].0) != (#[trigger] self@[j].0)
    }

    /// The empty accumulation map a window starts from.
    pub fn new() -> (r: Measurements)
        ensures
            r@ == Seq::<(Seq<char>, Seq<RuuviData>)>::empty(),
            r.wf(),
    {
        let r = Measurements { series: Vec::new() };
        proof {
            assert(r@ =~= Seq::<(Seq<char>, Seq<RuuviData>)>::empty());
        }
        r
    }

    /// Number of devices that have a series.
    pub fn device_count(&self) -> (r: usize)
        ensures
            r == self@.len(),
    {
        self.series.len()
    }

    /// Read access to the accumulated series.
    pub fn series(&self) -> (r: &Vec<MeasurementSeries>)
        ensures
            r@.map_values(|s: MeasurementSeries| s@) == self@,
    {
        &self.series
    }

    /// Append one accepted reading to the series of `sensor_id`, opening
    /// the series when the device has none yet.
    pub fn push_reading(&mut self, sensor_id: &String, reading: RuuviData)
        ensures
            final(self)@ == map_append(old(self)@, sensor_id@, reading),
            old(self).wf() ==> final(self).wf(),
    {
        let ghost m = self@;
        let mut i: usize = self.series.len();
        while i > 0
            invariant
                i <= self.series.len(),
                m == self@,
                m == old(self)@,
                forall|k: int| i <= k < m.len() ==> (#[trigger] m[k].0) != sensor_id@,
            decreases i,
        {
            i = i - 1;
            proof {
                assert(m[i as int] == self.series@[i as int]@);
            }
            if self.series[i].sensor_id == *sensor_id {
                self.series[i].readings.push(reading);
                proof {
                    lemma_key_index_at(m, sensor_id@, i as int);
                    assert(self@ =~= m.update(
                        i as int,
                        (m[i as int].0, m[i as int].1.push(reading)),
                    ));
                    if old(self).wf() {
                        assert forall|a: int, b: int|
                            0 <= a < b < self@.len() implies (#[trigger] self@[a].0) != (
                        #[trigger] self@[b].0) by {
                            assert(old(self)@[a].0 != old(self)@[b].0);
                            assert(self@[a].0 == m[a].0);
                            assert(self@[b].0 == m[b].0);
                        }
                    }
                }
                return ;
            }
        }
        let mut readings: Vec<RuuviData> = Vec::new();
        readings.push(reading);
        self.series.push(MeasurementSeries { sensor_id: sensor_id.clone(), readings });
        proof {
            lemma_key_index_none(m, sensor_id@);
            assert(seq![reading] =~= Seq::<RuuviData>::empty().push(reading));
            assert(self@ =~= m.push((sensor_id@, seq![reading])));
            if old(self).wf() {
                assert forall|a: int, b: int|
                    0 <= a < b < self@.len() implies (#[trigger] self@[a].0) != (
                #[trigger] self@[b].0) by {
                    if b < m.len() {
                        assert(old(self)@[a].0 != old(self)@[b].0);
                        assert(self@[a].0 == m[a].0);
                        assert(self@[b].0 == m[b].0);
                    } else {
                        assert(m[a].0 != sensor_id@);
                    }
                }
            }
        }
    }

    /// Fold one scan pass into the window: decode every pair of a
    /// registered device and append the readings in arrival order;
    /// unregistered addresses and rejected payloads leave no trace.
    pub fn process_scan(&mut self, config: &SensorConfig, pairs: &Vec<ScanPair>)
        ensures
            final(self)@ == spec_process_scan(
                old(self)@,
                config.tags_view(),
                pairs@.map_values(|p: ScanPair| p@),
            ),
            old(self).wf() ==> final(self).wf(),
    {
        let ghost m0 = self@;
        let ghost pair_views = pairs@.map_values(|p: ScanPair| p@);
        let n = pairs.len();
        let mut i: usize = 0;
        while i < n
            invariant
                n == pairs.len(),
                i <= n,
                pair_views == pairs@.map_values(|p: ScanPair| p@),
                m0 == old(self)@,
                self@ == spec_process_scan(m0, config.tags_view(), pair_views.take(i as int)),
                old(self).wf() ==> self.wf(),
            decreases n - i,
        {
            proof {
                assert(pair_views.take(i as int + 1).drop_last() =~= pair_views.take(i as int));
                assert(pair_views[i as int] == pairs@[i as int]@);
            }
            if config.is_registered(&pairs[i].address) {
                match decode_ruuvi_data(pairs[i].payload.as_slice()) {
                    Some(reading) => {
                        self.push_reading(&pairs[i].address, reading);
                    },
                    None => {},
                }
            }
            i = i + 1;
        }
        proof {
            assert(pair_views.take(n as int) =~= pair_views);
        }
    }
}

/// Seconds a window that started `elapsed_secs` ago still owes.
pub open spec fn remaining_spec(elapsed_secs: u64) -> u64 {
    if elapsed_secs >= COLLECTION_INTERVAL_SECS {
        0u64
    } else {
        (COLLECTION_INTERVAL_SECS - elapsed_secs) as u64
    }
}

/// Seconds still to run in a window that has been open `elapsed_secs`.
pub fn remaining_secs(elapsed_secs: u64) -> (r: u64)
    ensures
        r == remaining_spec(elapsed_secs),
{
    if elapsed_secs >= COLLECTION_INTERVAL_SECS {
        0
    } else {
        COLLECTION_INTERVAL_SECS - elapsed_secs
    }
}

/// Whether a window that has been open `elapsed_secs` is complete.
pub fn collection_complete(elapsed_secs: u64) -> (r: bool)
    ensures
        r == (elapsed_secs >= COLLECTION_INTERVAL_SECS),
{
    elapsed_secs >= COLLECTION_INTERVAL_SECS
}

/// Seconds to sleep between one scan pass and the next: the poll spacing
/// less the scan itself, but never more than the window still has.
pub fn poll_sleep_secs(elapsed_secs: u64) -> (r: u64)
    ensures
        r == if (POLL_INTERVAL_SECS - SCAN_DURATION_SECS) as u64 <= remaining_spec(elapsed_secs) {
            (POLL_INTERVAL_SECS - SCAN_DURATION_SECS) as u64
        } else {
            remaining_spec(elapsed_secs)
        },
{
    let gap = POLL_INTERVAL_SECS - SCAN_DURATION_SECS;
    let remaining = remaining_secs(elapsed_secs);
    if gap <= remaining {
        gap
    } else {
        remaining
    }
}

} // verus!
