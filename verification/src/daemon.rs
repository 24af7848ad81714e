//! The daemon's state: its settings and the device entries it keeps.
use vstd::prelude::*;

use crate::config::{DaemonConfig, DeviceConfig};
use crate::device::{
    dev_prefixed, merge_existing_device_stats, merge_outcome, readings_applied,
    readings_are_defined, readings_defined, reading_changed, result_view, update_devices_stats, DeviceEntry,
    DeviceEntryView, DeviceError, DeviceErrorView, DeviceProbe, DeviceReading,
};
use crate::device_stats::{pairs_map, pairs_of, DeviceStats};
use crate::log_prefix::LogPrefix;

verus! {

/// The daemon: how often it reads, where it stores, and the entries.
pub struct KrillKounter {
    update_rate: u64,
    stats: DeviceStats,
    stats_file_path: String,
}

/// The daemon's state, texts as characters.
pub struct KrillKounterView {
    pub update_rate: u64,
    pub stats: Map<Seq<char>, DeviceEntryView>,
    pub stats_file_path: Seq<char>,
}

impl View for KrillKounter {
    type V = KrillKounterView;

    closed spec fn view(&self) -> KrillKounterView {
        KrillKounterView {
            update_rate: self.update_rate,
            stats: self.stats@,
            stats_file_path: self.stats_file_path@,
        }
    }
}

/// Whether a (serial, entry) pair is for an active device.
pub open spec fn is_active_pair(p: (Seq<char>, DeviceEntryView)) -> bool {
    p.1.is_active
}

/// The pairs for active devices, in order.
pub open spec fn active_pairs(s: Seq<(Seq<char>, DeviceEntryView)>) -> Seq<
    (Seq<char>, DeviceEntryView),
> {
    s.filter(|p: (Seq<char>, DeviceEntryView)| is_active_pair(p))
}

impl KrillKounter {
    /// The (serial, entry) pairs, in the order they are kept.
    pub closed spec fn entry_pairs(&self) -> Seq<(Seq<char>, DeviceEntryView)> {
        self.stats.pairs()
    }

    /// The pairs make up the entries.
    pub proof fn lemma_entry_pairs(&self)
        ensures
            pairs_map(self.entry_pairs()) == self@.stats,
    {
    }

    /// Starts the daemon from its settings, the device configuration, the
    /// stored entries and what was read of the system for each configured
    /// device (`probes[i]` for `device_config.device_paths[i]`, each of which
    /// must start with `/dev/`): the configured devices are merged into the
    /// stored entries (see `merge_existing_device_stats`). Whatever the clock
    /// gave, the outcome is that of some clock readings that, where present,
    /// are not empty.
    pub fn init(
        config: &DaemonConfig,
        device_config: &DeviceConfig,
        stats: DeviceStats,
        probes: &[DeviceProbe],
    ) -> (r: Result<Self, DeviceError>)
        requires
            probes.len() == device_config.device_paths.len(),
            forall|i: int|
                0 <= i < device_config.device_paths.len() ==> dev_prefixed(
                    #[trigger] device_config.device_paths[i]@,
                ),
        ensures
            exists|clocks: Seq<Option<Seq<char>>>|
                #![trigger merge_outcome(stats@, device_config.device_paths@, probes@, clocks)]
                clocks.len() == device_config.device_paths.len() && (forall|i: int|
                    0 <= i < clocks.len() ==> (#[trigger] clocks[i] matches Some(c) ==> c.len()
                        > 0)) && match (
                    r,
                    merge_outcome(stats@, device_config.device_paths@, probes@, clocks),
                ) {
                    (Ok(k), (m, Ok(()))) => k@ == KrillKounterView {
                        update_rate: config.update_rate,
                        stats: m,
                        stats_file_path: config.stats_file_path@,
                    },
                    (Err(e), (_, Err(f))) => e@ == f,
                    _ => false,
                },
    {
        let mut stats = stats;
        let update_rate = config.update_rate;
        let stats_file_path = config.stats_file_path.clone();
        match merge_existing_device_stats(device_config.device_paths.as_slice(), probes, &mut stats) {
            Ok(()) => Ok(KrillKounter { update_rate, stats, stats_file_path }),
            Err(e) => Err(e),
        }
    }

    /// Seconds between two readings.
    pub fn update_rate(&self) -> (r: u64)
        ensures
            r == self@.update_rate,
    {
        self.update_rate
    }

    /// Where the entries are stored.
    pub fn stats_file_path(&self) -> (r: &String)
        ensures
            r@ == self@.stats_file_path,
    {
        &self.stats_file_path
    }

    /// The entries.
    pub fn stats(&self) -> (r: &DeviceStats)
        ensures
            r@ == self@.stats,
    {
        &self.stats
    }

    /// The entries of the active devices, the ones to read, in the order they
    /// are kept.
    pub fn active_entries(&self) -> (r: Vec<(String, DeviceEntry)>)
        ensures
            pairs_of(r@) == active_pairs(self.entry_pairs()),
    {
        let entries = self.stats.entries();
        let n = entries.len();
        let ghost all = self.stats.pairs();
        let mut r: Vec<(String, DeviceEntry)> = Vec::new();
        let mut i: usize = 0;
        assert(all.take(0) =~= Seq::empty());
        assert(active_pairs(all.take(0)) =~= Seq::empty()) by {
            reveal(Seq::filter);
        }
        while i < n
            invariant
                i <= n == entries@.len(),
                all == pairs_of(entries@),
                pairs_of(r@) == active_pairs(all.take(i as int)),
            decreases n - i,
        {
            let ghost before = r@;
            assert(all.take(i + 1).drop_last() =~= all.take(i as int));
            assert(all[i as int] == (entries@[i as int].0@, entries@[i as int].1@));
            assert(all.len() == n);
            assert(all.take(i + 1).last() == all[i as int]);
            assert(active_pairs(all.take(i + 1)) == if is_active_pair(all[i as int]) {
                active_pairs(all.take(i as int)).push(all[i as int])
            } else {
                active_pairs(all.take(i as int))
            }) by {
                reveal(Seq::filter);
            }
            if entries[i].1.is_active {
                r.push((entries[i].0.clone(), entries[i].1.clone()));
                assert(pairs_of(r@) =~= pairs_of(before).push(all[i as int]));
            }
            i = i + 1;
        }
        assert(all.take(n as int) =~= all);
        r
    }

    /// Whether taking `readings` is defined (see `readings_defined`).
    pub fn readings_are_defined(&self, readings: &[DeviceReading]) -> (r: bool)
        ensures
            r == readings_defined(self@.stats, readings@),
    {
        readings_are_defined(readings, &self.stats)
    }

    /// Takes new readings into the entries, as `update_devices_stats` does;
    /// the result says whether any entry changed, in which case the entries
    /// are to be stored again.
    pub fn update_stats(&mut self, readings: &[DeviceReading]) -> (r: Result<bool, DeviceError>)
        requires
            readings_defined(old(self)@.stats, readings@),
        ensures
            (final(self)@.stats, result_view(r)) == readings_applied(old(self)@.stats, readings@),
            final(self)@.update_rate == old(self)@.update_rate,
            final(self)@.stats_file_path == old(self)@.stats_file_path,
            r matches Ok(b) ==> (b <==> exists|i: int|
                0 <= i < readings.len() && #[trigger] reading_changed(
                    old(self)@.stats,
                    readings@,
                    i,
                )),
    {
        update_devices_stats(readings, &mut self.stats)
    }
}

impl LogPrefix for KrillKounter {
    open spec fn prefix_spec(&self) -> Seq<char> {
        "KrillKounter: "@
    }

    fn log_prefix(&self) -> (r: String) {
        String::from_str("KrillKounter: ")
    }
}

} // verus!
