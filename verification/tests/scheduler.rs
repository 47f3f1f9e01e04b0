use trx_client::scheduler::{
    active_satellite_entry, timespan_active_entries, timespan_active_entry, timespan_cycle_slot,
    SatelliteEntry, SatellitePass, SatelliteSchedulerConfig, ScheduleEntry, MINUTE_MS,
};

fn entry(
    id: &str,
    start_min: u32,
    end_min: u32,
    bookmark_id: &str,
    center_hz: Option<u64>,
    interleave_min: Option<u32>,
) -> ScheduleEntry {
    ScheduleEntry {
        id: id.to_string(),
        start_min,
        end_min,
        bookmark_id: bookmark_id.to_string(),
        label: None,
        interleave_min,
        center_hz,
        bookmark_ids: Vec::new(),
    }
}

#[test]
fn timespan_active_entry_returns_selected_overlap_entry() {
    let entries = vec![
        entry("slot-a", 0, 0, "bm-shared", Some(144_500_000), Some(10)),
        entry("slot-b", 0, 0, "bm-shared", Some(144_300_000), Some(10)),
    ];

    let active = timespan_active_entry(&entries, 15 * MINUTE_MS, None).expect("active entry");
    assert_eq!(active.id, "slot-b");
    assert_eq!(active.center_hz, Some(144_300_000));
}

#[test]
fn timespan_active_entry_returns_first_match_without_interleave() {
    let entries = vec![
        entry("slot-a", 60, 120, "bm-a", Some(14_100_000), None),
        entry("slot-b", 60, 120, "bm-b", Some(14_200_000), None),
    ];

    let active = timespan_active_entry(&entries, 90 * MINUTE_MS, None).expect("active entry");
    assert_eq!(active.id, "slot-a");
    assert_eq!(active.center_hz, Some(14_100_000));
}

#[test]
fn timespan_cycle_is_anchored_to_overlap_start() {
    let entries = vec![
        entry("slot-a", 60, 180, "bm-a", Some(14_100_000), Some(10)),
        entry("slot-b", 90, 180, "bm-b", Some(14_200_000), Some(10)),
    ];

    let active = timespan_active_entry(&entries, 100 * MINUTE_MS, None).expect("active entry");
    assert_eq!(active.id, "slot-b");
}

#[test]
fn timespan_cycle_handles_overlap_spanning_midnight() {
    let entries = vec![
        entry("slot-a", 1380, 120, "bm-a", Some(14_100_000), Some(10)),
        entry("slot-b", 0, 120, "bm-b", Some(14_200_000), Some(10)),
    ];

    let active_entries = timespan_active_entries(&entries, 5 * MINUTE_MS);
    assert_eq!(active_entries.len(), 2);
    let slot = timespan_cycle_slot(&active_entries, 5 * MINUTE_MS, None).expect("cycle slot");
    assert_eq!(slot, 0);

    let active = timespan_active_entry(&entries, 10 * MINUTE_MS, None).expect("active entry");
    assert_eq!(active.id, "slot-b");
}

// ── Satellite scheduling tests ─────────────────────────────────

fn sat_entry(id: &str, satellite: &str, norad_id: u32, min_el: i64, priority: u32) -> SatelliteEntry {
    SatelliteEntry {
        id: id.to_string(),
        satellite: satellite.to_string(),
        norad_id,
        bookmark_id: format!("bm-{id}"),
        min_elevation: min_el,
        priority,
        center_hz: None,
        bookmark_ids: Vec::new(),
    }
}

fn pass(norad_id: u32, aos_ms: i64, los_ms: i64, max_el: i64) -> SatellitePass {
    SatellitePass { norad_id, aos_ms, los_ms, max_elevation: max_el }
}

fn now_ms() -> i64 {
    std::time::SystemTime::now()
        .duration_since(std::time::UNIX_EPOCH)
        .unwrap()
        .as_millis() as i64
}

#[test]
fn satellite_no_active_pass_returns_none() {
    let cfg = SatelliteSchedulerConfig {
        enabled: true,
        pretune_secs: 60,
        entries: vec![sat_entry("noaa19", "NOAA 19", 33591, 5, 0)],
    };
    let now = now_ms();
    // Pass is in the future (starts 1 hour from now).
    let predictions = Some(vec![pass(33591, now + 3_600_000, now + 4_200_000, 45)]);

    assert!(active_satellite_entry(&cfg, &predictions).is_none());
}

#[test]
fn satellite_active_pass_returns_entry() {
    let cfg = SatelliteSchedulerConfig {
        enabled: true,
        pretune_secs: 60,
        entries: vec![sat_entry("noaa19", "NOAA 19", 33591, 5, 0)],
    };
    let now = now_ms();
    // Pass is currently active.
    let predictions = Some(vec![pass(33591, now - 300_000, now + 300_000, 45)]);

    let result = active_satellite_entry(&cfg, &predictions);
    assert!(result.is_some());
    assert_eq!(result.unwrap().id, "noaa19");
}

#[test]
fn satellite_pretune_activates_before_aos() {
    let cfg = SatelliteSchedulerConfig {
        enabled: true,
        pretune_secs: 120, // 2 minutes pretune
        entries: vec![sat_entry("noaa19", "NOAA 19", 33591, 5, 0)],
    };
    let now = now_ms();
    // AOS is 60 seconds from now — within the 120s pretune window.
    let predictions = Some(vec![pass(33591, now + 60_000, now + 660_000, 30)]);

    let result = active_satellite_entry(&cfg, &predictions);
    assert!(result.is_some(), "should activate during pretune window");
}

#[test]
fn satellite_low_elevation_pass_skipped() {
    let cfg = SatelliteSchedulerConfig {
        enabled: true,
        pretune_secs: 60,
        entries: vec![sat_entry("noaa19", "NOAA 19", 33591, 20, 0)], // min 20°
    };
    let now = now_ms();
    // Pass has only 10° max elevation — below threshold.
    let predictions = Some(vec![pass(33591, now - 300_000, now + 300_000, 10)]);

    assert!(
        active_satellite_entry(&cfg, &predictions).is_none(),
        "pass below min elevation should be skipped"
    );
}

#[test]
fn satellite_priority_selects_lower_value() {
    let cfg = SatelliteSchedulerConfig {
        enabled: true,
        pretune_secs: 60,
        entries: vec![
            sat_entry("noaa19", "NOAA 19", 33591, 5, 10),
            sat_entry("meteor", "METEOR-M2 3", 57166, 5, 1), // higher priority
        ],
    };
    let now = now_ms();
    // Both satellites have active passes.
    let predictions = Some(vec![
            pass(33591, now - 300_000, now + 300_000, 40),
            pass(57166, now - 200_000, now + 400_000, 35),
        ]);

    let result = active_satellite_entry(&cfg, &predictions);
    assert!(result.is_some());
    assert_eq!(result.unwrap().id, "meteor", "lower priority value should win");
}

#[test]
fn satellite_no_predictions_returns_none() {
    let cfg = SatelliteSchedulerConfig {
        enabled: true,
        pretune_secs: 60,
        entries: vec![sat_entry("noaa19", "NOAA 19", 33591, 5, 0)],
    };
    // No predictions available yet.
    assert!(active_satellite_entry(&cfg, &None).is_none());
}

#[test]
fn satellite_unmatched_norad_id_ignored() {
    let cfg = SatelliteSchedulerConfig {
        enabled: true,
        pretune_secs: 60,
        entries: vec![sat_entry("noaa19", "NOAA 19", 33591, 5, 0)],
    };
    let now = now_ms();
    // Active pass for a different satellite.
    let predictions = Some(vec![pass(28654, now - 300_000, now + 300_000, 50)]);

    assert!(
        active_satellite_entry(&cfg, &predictions).is_none(),
        "should not match on different NORAD ID"
    );
}

