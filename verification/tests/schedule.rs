use trx_client::background_decode::BackgroundDecodeConfig;
use trx_client::bookmarks::{Bookmark, BookmarkStoreMap};
use trx_client::commands::{Decoder, RigCommand};
use trx_client::scheduler::{
    active_satellite_entry_at, current_grayline_period, default_pretune_secs,
    default_transition_window, entry_is_active,
    grayline_bookmark_id, scheduled_target, utc_day_ms, GraylineConfig, GraylinePeriod, Moment,
    SatelliteEntry, SatellitePass, SatelliteSchedulerConfig, ScheduleEntry, SchedulerConfig,
    SchedulerMode, DAY_MS, MINUTE_MS,
};
use trx_client::scheduler_control::SchedulerControlManager;
use trx_client::scheduler_task::{
    activate_entry, applied_status, apply_last_scheduler_cycle, ActivateError,
    SchedulerActivateEntryRequest, SchedulerStatus, SchedulerStatusMap, SchedulerTask,
};
use trx_client::sse::sync_scheduler_vchannels;
use trx_client::stores::{
    bookmark_file_name, is_legacy_key, scheduler_file_name, should_migrate, BackgroundDecodeStore,
    SchedulerStore, SchedulerStoreMap,
};

fn bookmark(id: &str, freq_hz: u64, mode: &str) -> Bookmark {
    Bookmark {
        id: id.to_string(),
        name: id.to_uppercase(),
        freq_hz,
        mode: mode.to_string(),
        bandwidth_hz: Some(2400),
        locator: None,
        comment: String::new(),
        category: String::new(),
        decoders: vec!["ft8".to_string()],
    }
}

fn span(id: &str, start_min: u32, end_min: u32, bookmark_id: &str) -> ScheduleEntry {
    ScheduleEntry {
        id: id.to_string(),
        start_min,
        end_min,
        bookmark_id: bookmark_id.to_string(),
        label: None,
        interleave_min: None,
        center_hz: Some(7_100_000),
        bookmark_ids: vec!["b".to_string()],
    }
}

fn time_span(entries: Vec<ScheduleEntry>) -> SchedulerConfig {
    let mut config = SchedulerConfig::disabled("hf");
    config.mode = SchedulerMode::TimeSpan;
    config.entries = entries;
    config
}

fn at(minute: i64) -> Moment {
    Moment {
        now_ms: minute * MINUTE_MS,
        day_ms: minute * MINUTE_MS,
        sun: None,
        passes: None,
    }
}

fn stores() -> BookmarkStoreMap {
    let mut stores = BookmarkStoreMap::new();
    stores.general.insert(&bookmark("a", 7_074_000, "USB"));
    stores.general.insert(&bookmark("b", 7_050_000, "LSB"));
    stores
}

#[test]
fn the_day_has_four_periods() {
    assert_eq!(default_transition_window(), 20);
    assert_eq!(default_pretune_secs(), 60);
    let sun = Some((6 * 60 * MINUTE_MS, 18 * 60 * MINUTE_MS));
    let period = |minute: i64| current_grayline_period(sun, true, 20, minute * MINUTE_MS);
    assert!(matches!(period(6 * 60), GraylinePeriod::Dawn));
    assert!(matches!(period(6 * 60 - 20), GraylinePeriod::Dawn));
    assert!(matches!(period(6 * 60 - 21), GraylinePeriod::Night));
    assert!(matches!(period(12 * 60), GraylinePeriod::Day));
    assert!(matches!(period(18 * 60 + 10), GraylinePeriod::Dusk));
    assert!(matches!(period(23 * 60), GraylinePeriod::Night));
    let gl = GraylineConfig {
        northern: true,
        transition_window_min: 20,
        day_bookmark_id: Some("d".to_string()),
        night_bookmark_id: None,
        dawn_bookmark_id: None,
        dusk_bookmark_id: None,
    };
    assert_eq!(grayline_bookmark_id(&gl, GraylinePeriod::Day), Some("d".to_string()));
    assert_eq!(grayline_bookmark_id(&gl, GraylinePeriod::Night), None);
    assert_eq!(utc_day_ms(DAY_MS * 3 + 5), 5);
}

#[test]
fn entries_may_span_midnight() {
    let late = span("x", 23 * 60, 60, "a");
    assert!(entry_is_active(&late, 23 * 60 * MINUTE_MS));
    assert!(entry_is_active(&late, 30 * MINUTE_MS));
    assert!(!entry_is_active(&late, 60 * MINUTE_MS));
    let always = span("x", 10, 10, "a");
    assert!(entry_is_active(&always, 0));
}

#[test]
fn a_satellite_comes_before_the_schedule() {
    let mut config = time_span(vec![span("x", 0, 60, "a")]);
    config.satellites = Some(SatelliteSchedulerConfig {
        enabled: true,
        pretune_secs: 60,
        entries: vec![SatelliteEntry {
            id: "s".to_string(),
            satellite: "NOAA 19".to_string(),
            norad_id: 33591,
            bookmark_id: "b".to_string(),
            min_elevation: 10,
            priority: 0,
            center_hz: None,
            bookmark_ids: Vec::new(),
        }],
    });
    let mut moment = at(5);
    let target = scheduled_target(&config, &moment).expect("in the span");
    assert_eq!(target.entry_id, Some("x".to_string()));
    assert!(target.satellite.is_none());
    moment.passes = Some(vec![SatellitePass {
        norad_id: 33591,
        aos_ms: moment.now_ms - 1,
        los_ms: moment.now_ms + 1000,
        max_elevation: 45,
    }]);
    let target = scheduled_target(&config, &moment).expect("a pass");
    assert_eq!(target.satellite, Some(("NOAA 19".to_string(), 33591)));
    assert_eq!(target.target.bookmark_id, "b");
    let end = moment.now_ms + 1000;
    let satellites = config.satellites.as_ref().expect("satellites");
    assert!(active_satellite_entry_at(satellites, &moment.passes, end).is_some());
    assert!(active_satellite_entry_at(satellites, &moment.passes, end + 1).is_none());
    config.mode = SchedulerMode::Disabled;
    config.satellites = None;
    assert!(scheduled_target(&config, &moment).is_none());
}

#[test]
fn rigs_are_tuned_once_for_each_target() {
    let stores = stores();
    let config = time_span(vec![span("x", 0, 60, "a")]);
    let mut task = SchedulerTask::new();
    assert!(task.begin(true));
    let (target, plan) = task.plan(&config, &at(5), &stores).expect("scheduled");
    assert_eq!(plan.bookmark_name, "A");
    assert!(matches!(plan.tune[0], RigCommand::SetCenterFreq(7_100_000)));
    assert!(matches!(plan.tune[1], RigCommand::SetFreq(7_074_000)));
    assert!(matches!(&plan.tune[2], RigCommand::SetMode(m) if m == "USB"));
    assert!(matches!(plan.tune[3], RigCommand::SetBandwidth(2400)));
    assert!(plan.decoders.iter().any(|c| matches!(
        c,
        RigCommand::SetDecode { decoder: Decoder::Ft8, enabled: true }
    )));
    task.applied("hf", target.target.clone());
    assert!(task.plan(&config, &at(6), &stores).is_none());
    // A user may have tuned the rig in between.
    assert!(!task.begin(false));
    assert!(task.begin(true));
    assert!(task.plan(&config, &at(6), &stores).is_some());
    assert!(task.plan(&config, &at(90), &stores).is_none());
}

#[test]
fn the_status_tells_the_target() {
    let stores = stores();
    let config = time_span(vec![span("x", 0, 60, "a")]);
    let target = scheduled_target(&config, &at(5)).expect("scheduled");
    let status = applied_status(&target, "A", 99);
    assert!(status.active);
    assert_eq!(status.last_entry_id, Some("x".to_string()));
    assert_eq!(status.last_bookmark_id, Some("a".to_string()));
    assert_eq!(status.last_applied_utc, Some(99));
    assert_eq!(status.last_center_hz, Some(7_100_000));
    let mut statuses = SchedulerStatusMap::new();
    assert!(!statuses.get_scheduler_status("hf").active);
    assert!(apply_last_scheduler_cycle("hf", &statuses, &stores).is_none());
    statuses.record("hf", status);
    let (again, plan) = apply_last_scheduler_cycle("hf", &statuses, &stores).expect("applied");
    assert_eq!(again.target.bookmark_id, "a");
    assert_eq!(plan.bookmark_name, "A");
    let mut control = SchedulerControlManager::new();
    let channels = sync_scheduler_vchannels(&control, &statuses, &stores, "hf");
    assert!(!channels.is_empty());
    assert!(channels.iter().all(|c| c.bandwidth_hz == 2400));
    control.register_session(1);
    control.set_released(1, false);
    assert!(sync_scheduler_vchannels(&control, &statuses, &stores, "hf").is_empty());
    assert!(!SchedulerStatus::default().active);
}

#[test]
fn entries_are_activated_by_hand() {
    let stores = stores();
    let config = time_span(vec![span("x", 0, 60, "a"), span("y", 0, 60, " "), span("z", 0, 60, "q")]);
    let ask = |id: &str, config: Option<&SchedulerConfig>| {
        activate_entry(
            "hf",
            config,
            &SchedulerActivateEntryRequest {
                entry_id: id.to_string(),
            },
            &stores,
        )
    };
    let (target, _) = ask(" x ", Some(&config)).expect("known");
    assert_eq!(target.entry_id, Some("x".to_string()));
    let refused = |id: &str, config: Option<&SchedulerConfig>| {
        let e: ActivateError = match ask(id, config) {
            Err(e) => e,
            Ok(_) => panic!("activated"),
        };
        (e.status_code(), e.message())
    };
    assert_eq!(refused("x", None).1, "scheduler config not found");
    assert_eq!(refused("n", Some(&config)).1, "scheduler entry not found");
    assert_eq!(refused("y", Some(&config)).1, "scheduler entry has no primary bookmark");
    assert_eq!(refused("z", Some(&config)).1, "bookmark 'q' not found for remote 'hf'");
    let off = SchedulerConfig::disabled("hf");
    assert_eq!(refused("x", Some(&off)).1, "scheduler mode is not time_span");
}

#[test]
fn configurations_are_stored_by_rig() {
    assert_eq!(scheduler_file_name("hf"), "scheduler.hf.db");
    assert_eq!(bookmark_file_name("hf"), "bookmark.hf.db");
    assert!(should_migrate(true, &vec![false, false]));
    assert!(!should_migrate(true, &vec![false, true]));
    assert!(!should_migrate(false, &vec![false]));
    assert!(is_legacy_key("sch:hf") && !is_legacy_key("hf"));
    let mut map = SchedulerStoreMap::new();
    assert!(map.get_config("hf").is_none());
    map.open_store("hf", SchedulerStore { config: None });
    assert!(map.is_open("hf"));
    map.put_config("hf", SchedulerConfig::disabled("other"));
    assert_eq!(map.get_config("hf").expect("stored").remote, "hf");
    assert_eq!(map.list_all().len(), 1);
    assert!(map.remove_config("hf"));
    assert!(!map.remove_config("hf"));
    let mut decode = BackgroundDecodeStore::new();
    assert!(!decode.get_config("hf").enabled);
    let kept = decode.put_config(BackgroundDecodeConfig {
        rig_id: "hf".to_string(),
        enabled: true,
        bookmark_ids: vec!["a".to_string(), "a".to_string()],
    });
    assert_eq!(kept.bookmark_ids, vec!["a".to_string()]);
    assert!(decode.get_config("hf").enabled);
    assert!(decode.reset_config("hf"));
    assert!(!decode.reset_config("hf"));
}
