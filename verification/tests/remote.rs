use trx_client::remote::{
    active_spectrum_rig_ids, build_envelope, cache_remote_rigs, channel_key, choose_default_rig,
    connection_closed, global_target_for_snapshot, has_short_names, is_due, map_rigs,
    mark_disconnected, refresh_remote_snapshot, resolve_server_rig_id, resolve_short_name,
    rigs_of_reply, same_remote_rig_entry, sat_passes_of_reply, snapshot_of_reply, spectrum_step,
    step_failed, timed_out, MappedRig, PollState, RemoteClientConfig, RemoteRigEntry, RigEntry,
    RigSummary, SpectrumStep,
};

fn sample_snapshot() -> RigSummary {
    RigSummary {
        initialized: true,
        tx: true,
    }
}

fn rig(id: &str, name: &str, port: u16) -> RigEntry {
    RigEntry {
        rig_id: id.to_string(),
        display_name: Some(name.to_string()),
        state: sample_snapshot(),
        audio_port: Some(port),
    }
}

fn known(id: &str, name: &str, port: u16) -> RemoteRigEntry {
    RemoteRigEntry {
        rig_id: id.to_string(),
        display_name: Some(name.to_string()),
        state: sample_snapshot(),
        audio_port: Some(port),
    }
}

fn named(rig_id: &str, short_name: &str) -> RemoteClientConfig {
    let mut config = RemoteClientConfig::new(None);
    config.names.by_rig.insert(rig_id, short_name.to_string());
    config
}

#[derive(Debug, PartialEq, Eq)]
enum Ask {
    State,
}

#[test]
fn build_envelope_includes_rig_id() {
    let mut config = RemoteClientConfig::new(Some("secret".to_string()));
    config.selected_rig_id = Some("sdr".to_string());
    let envelope = build_envelope(&config, Ask::State, &None);
    assert_eq!(envelope.token.as_deref(), Some("secret"));
    assert_eq!(envelope.rig_id.as_deref(), Some("sdr"));
    assert_eq!(envelope.cmd, Ask::State);
}

#[test]
fn build_envelope_translates_short_name_to_server_rig_id() {
    let mut config = named("hf", "home-hf");
    config.selected_rig_id = Some("home-hf".to_string());
    config.short_name_to_rig_id.insert("home-hf", "hf".to_string());
    let envelope = build_envelope(&config, Ask::State, &None);
    assert_eq!(envelope.rig_id.as_deref(), Some("hf"));

    let envelope = build_envelope(&config, Ask::State, &Some("home-hf".to_string()));
    assert_eq!(envelope.rig_id.as_deref(), Some("hf"));
}

#[test]
fn resolve_short_name_legacy_passthrough() {
    let config = RemoteClientConfig::new(None);
    assert!(!has_short_names(&config));
    assert_eq!(resolve_short_name(&config, "hf"), Some("hf".to_string()));
}

#[test]
fn resolve_short_name_with_mapping() {
    let mut config = named("hf", "home-hf");
    config.names.default = Some("default-rig".to_string());
    assert!(has_short_names(&config));
    assert_eq!(
        resolve_short_name(&config, "hf"),
        Some("home-hf".to_string())
    );
    assert_eq!(
        resolve_short_name(&config, "unknown"),
        Some("default-rig".to_string())
    );
}

#[test]
fn cache_remote_rigs_keeps_other_server_entries() {
    let mut config = named("hf", "gdansk");
    config.known_rigs = vec![known("lidzbark-vhf", "Lidzbark VHF", 4531)];
    let rigs = vec![rig("hf", "Gdansk HF", 4532)];
    let mapped = vec![MappedRig {
        key: "gdansk".to_string(),
        index: 0,
    }];

    cache_remote_rigs(&mut config, &rigs, &mapped);

    let cached = &config.known_rigs;
    assert_eq!(cached.len(), 2);
    assert!(cached.iter().any(|entry| entry.rig_id == "lidzbark-vhf"));
    assert!(cached.iter().any(|entry| {
        entry.rig_id == "gdansk"
            && entry.display_name.as_deref() == Some("Gdansk HF")
            && entry.audio_port == Some(4532)
    }));
}

#[test]
fn global_target_for_snapshot_skips_other_server_selection() {
    let mapped = vec![MappedRig {
        key: "gdansk".to_string(),
        index: 0,
    }];

    let target = global_target_for_snapshot(&Some("lidzbark-vhf".to_string()), &mapped);
    assert!(target.is_none());

    let target = global_target_for_snapshot(&None, &mapped);
    assert_eq!(target.map(|i| mapped[i].key.as_str()), Some("gdansk"));
}

#[test]
fn active_spectrum_rig_ids_only_returns_owned_selected_rig() {
    let mut config = named("hf", "gdansk");
    config.selected_rig_id = Some("lidzbark-vhf".to_string());
    config.known_rigs = vec![
        known("gdansk", "Gdansk", 4532),
        known("lidzbark-vhf", "Lidzbark VHF", 4531),
    ];
    config.spectrum_receivers = 1;

    let ids = active_spectrum_rig_ids(&config);
    assert!(ids.is_empty());
}

#[test]
fn the_selected_rigs_spectrum_is_shared() {
    let config = named("hf", "gdansk");
    let gdansk = Some("gdansk".to_string());
    let other = Some("other".to_string());
    let step = |selected, rig, answered| spectrum_step(&config, selected, rig, answered);
    assert_eq!(step(&gdansk, "gdansk", true), SpectrumStep::Publish { shared: true });
    assert_eq!(step(&other, "gdansk", true), SpectrumStep::Publish { shared: false });
    assert_eq!(step(&None, "gdansk", true), SpectrumStep::Publish { shared: false });
    assert_eq!(step(&gdansk, "gdansk", false), SpectrumStep::Fail { clear_shared: true });
    assert_eq!(step(&other, "gdansk", false), SpectrumStep::Fail { clear_shared: false });
    assert_eq!(step(&other, "other", false), SpectrumStep::Fail { clear_shared: false });
}

#[test]
fn spectra_are_asked_for_own_watched_rigs() {
    let mut config = named("hf", "gdansk");
    config.selected_rig_id = Some("gdansk".to_string());
    config.known_rigs = vec![known("gdansk", "Gdansk", 4532), known("other", "Other", 1)];
    config.rig_spectrums.insert("other", 2);
    config.spectrum_receivers = 1;
    assert_eq!(active_spectrum_rig_ids(&config), vec!["gdansk".to_string()]);
    config.spectrum_receivers = 0;
    assert!(active_spectrum_rig_ids(&config).is_empty());
    config.rig_spectrums.insert("gdansk", 1);
    assert_eq!(active_spectrum_rig_ids(&config), vec!["gdansk".to_string()]);
    config.known_rigs[0].state.initialized = false;
    assert!(active_spectrum_rig_ids(&config).is_empty());
}

#[test]
fn a_fresh_list_is_taken_in() {
    let mut config = named("hf", "gdansk");
    config.known_rigs = vec![known("other", "Other", 1)];
    config.rig_states.insert("other", ());
    config.rig_states.insert("gdansk", ());
    let rigs = vec![rig("hf", "Gdansk HF", 4532), rig("vhf", "Unnamed", 4533)];
    let refresh = refresh_remote_snapshot(&mut config, &rigs).expect("a rig is mapped");
    assert_eq!(refresh.mapped.len(), 1);
    assert_eq!(refresh.mapped[0].key, "gdansk");
    assert_eq!(refresh.target, Some(0));
    assert!(refresh.dropped.is_empty());
    assert_eq!(config.selected_rig_id, Some("gdansk".to_string()));
    assert_eq!(config.rig_server_connected.get("gdansk"), Some(&true));
    assert_eq!(config.rig_server_connected.get("other"), None);
    // A mapped name resolves to the rig that it stands for.
    assert_eq!(
        resolve_server_rig_id(&config, "gdansk"),
        Some("hf".to_string())
    );
    // What other servers list stays as it was.
    assert!(config.known_rigs.iter().any(|e| e.rig_id == "other"));

    let error = refresh_remote_snapshot(&mut config, &Vec::new()).expect_err("no rigs");
    assert_eq!(error.message, "GetRigs returned no mapped rigs");

    let lost = mark_disconnected(&mut config);
    assert_eq!(lost, vec!["gdansk".to_string()]);
    assert_eq!(config.rig_server_connected.get("gdansk"), Some(&false));
}

#[test]
fn rigs_without_local_names_keep_their_ids() {
    let mut config = RemoteClientConfig::new(None);
    let mapped = map_rigs(&mut config, &vec![rig("a", "A", 1), rig("b", "B", 2)]);
    let keys: Vec<&str> = mapped.iter().map(|m| m.key.as_str()).collect();
    assert_eq!(keys, vec!["a", "b"]);
    assert_eq!(mapped[1].index, 1);
}

#[test]
fn the_default_rig_can_transmit_and_is_ready() {
    let mut rigs = vec![rig("z", "Z", 1), rig("b", "B", 1), rig("a", "A", 1)];
    rigs[2].state.tx = false;
    rigs[0].state.initialized = false;
    assert_eq!(choose_default_rig(&rigs), Some(1));
    assert_eq!(choose_default_rig(&Vec::new()), None);
}

#[test]
fn entries_are_compared_by_what_is_shown() {
    let a = known("a", "A", 1);
    let mut b = known("a", "A", 1);
    assert!(same_remote_rig_entry(&a, &b));
    b.state.tx = false;
    assert!(same_remote_rig_entry(&a, &b));
    b.audio_port = None;
    assert!(!same_remote_rig_entry(&a, &b));
}

#[test]
fn replies_carry_what_was_asked_or_an_error() {
    assert_eq!(snapshot_of_reply(true, Some(7), None), Ok(7));
    let e = snapshot_of_reply::<u8>(true, None, None).expect_err("nothing in it");
    assert_eq!(e.message, "missing snapshot");
    let e = rigs_of_reply::<u8>(true, None, None).expect_err("nothing in it");
    assert_eq!(e.message, "missing rigs list in GetRigs response");
    let e = sat_passes_of_reply::<u8>(true, None, None).expect_err("nothing in it");
    assert_eq!(e.message, "missing sat_passes in GetSatPasses response");
    let e = snapshot_of_reply(false, Some(7), Some("busy".to_string())).expect_err("refused");
    assert_eq!(e.message, "busy");
    let e = snapshot_of_reply(false, Some(7), None).expect_err("refused");
    assert_eq!(e.message, "remote error");
    assert_eq!(timed_out("read", 5).message, "read timed out after 5s");
    assert_eq!(step_failed("write", "pipe").message, "write failed: pipe");
}

#[test]
fn a_reply_renews_the_rig_it_was_for() {
    let mut config = RemoteClientConfig::new(None);
    config.selected_rig_id = Some("a".to_string());
    assert_eq!(channel_key(&config, &None), Some("a".to_string()));
    assert_eq!(
        channel_key(&config, &Some("b".to_string())),
        Some("b".to_string())
    );
}

#[test]
fn polls_fail_three_times_before_the_connection_goes() {
    let mut polls = PollState::new();
    assert!(polls.failed("odd").is_none());
    assert!(polls.failed("odd").is_none());
    let e = polls.failed("odd").expect("third failure");
    assert_eq!(e.message, "remote poll failed 3 consecutive times: odd");
    polls.succeeded();
    assert!(polls.failed("odd").is_none());
    let closed = connection_closed().message;
    assert_eq!(polls.failed(&closed).expect("fatal").message, closed);
    assert!(is_due(10, 10));
    assert!(!is_due(9, 10));
}
