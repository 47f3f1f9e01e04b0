use trx_client::ids::{format_uuid, parse_uuid};
use trx_client::remote::{RemoteRigEntry, RigSummary};
use trx_client::scheduler_control::{SchedulerControlManager, SchedulerControlUpdate};
use trx_client::sessions::{
    close_session, named_rig, open_new_session, open_session, requested_rig, select_rig,
    session_rig, SelectRigQuery, SessionRigManager,
};

fn new_id() -> u128 {
    uuid::Uuid::new_v4().as_u128()
}

fn known(id: &str) -> Vec<RemoteRigEntry> {
    vec![RemoteRigEntry {
        rig_id: id.to_string(),
        display_name: None,
        state: RigSummary {
            initialized: true,
            tx: false,
        },
        audio_port: None,
    }]
}

#[test]
fn test_session_rig_manager_register_and_get() {
    let mut mgr = SessionRigManager::default();
    let id = new_id();
    mgr.register(id, "rig-1".to_string());
    assert_eq!(mgr.get_rig(id), Some("rig-1".to_string()));
}

#[test]
fn test_session_rig_manager_set_overrides() {
    let mut mgr = SessionRigManager::default();
    let id = new_id();
    mgr.register(id, "rig-1".to_string());
    mgr.set_rig(id, "rig-2".to_string());
    assert_eq!(mgr.get_rig(id), Some("rig-2".to_string()));
}

#[test]
fn test_session_rig_manager_unregister() {
    let mut mgr = SessionRigManager::default();
    let id = new_id();
    mgr.register(id, "rig-1".to_string());
    mgr.unregister(id);
    assert_eq!(mgr.get_rig(id), None);
}

#[test]
fn test_session_rig_manager_unknown_session() {
    let mgr = SessionRigManager::default();
    let id = new_id();
    assert_eq!(mgr.get_rig(id), None);
}

#[test]
fn sessions_do_not_touch_each_other() {
    let mut mgr = SessionRigManager::default();
    mgr.register(1, "a".to_string());
    mgr.register(2, "b".to_string());
    mgr.set_rig(1, "c".to_string());
    assert_eq!(mgr.get_rig(2), Some("b".to_string()));
    mgr.unregister(1);
    assert_eq!(mgr.get_rig(2), Some("b".to_string()));
}

#[test]
fn an_opened_session_is_closed_again() {
    let mut control = SchedulerControlManager::new();
    let mut mgr = SessionRigManager::default();
    let rig = open_session(7, &Some("".to_string()), &Some("hf".to_string()), &mut control, &mut mgr);
    assert_eq!(rig, Some("hf".to_string()));
    assert_eq!(mgr.get_rig(7), Some("hf".to_string()));
    assert_eq!(control.summary(Some(7)).connected_sessions, 1);
    close_session(7, &mut control, &mut mgr);
    assert_eq!(mgr.get_rig(7), None);
    assert_eq!(control.summary(None).connected_sessions, 0);
    assert_eq!(session_rig(&mgr, 7, &Some("vhf".to_string())), Some("vhf".to_string()));
}

#[test]
fn new_sessions_have_ids_of_their_own() {
    let mut control = SchedulerControlManager::new();
    let mut mgr = SessionRigManager::default();
    let (a, _) = open_new_session(&Some("x".to_string()), &None, &mut control, &mut mgr);
    let (b, rig) = open_new_session(&Some("y".to_string()), &None, &mut control, &mut mgr);
    assert_ne!(a, b);
    assert_eq!(rig, Some("y".to_string()));
    // The identifiers are random ones of version 4.
    assert_eq!((a >> 76) & 0xf, 4);
}

#[test]
fn a_rig_is_selected_for_one_session() {
    let mut mgr = SessionRigManager::default();
    mgr.register(5, "old".to_string());
    let query = SelectRigQuery {
        remote: " hf ".to_string(),
        session_id: Some(format_uuid(5)),
    };
    assert!(matches!(select_rig(&query, &known("hf"), &mut mgr), Ok(rig) if rig == "hf"));
    assert_eq!(mgr.get_rig(5), Some("hf".to_string()));
    let query = SelectRigQuery {
        remote: "vhf".to_string(),
        session_id: None,
    };
    let e = select_rig(&query, &known("hf"), &mut mgr).expect_err("not known");
    assert_eq!((e.status, e.text.as_str()), (400, "unknown remote: vhf"));
    let query = SelectRigQuery {
        remote: "  ".to_string(),
        session_id: None,
    };
    let e = select_rig(&query, &known("hf"), &mut mgr).expect_err("no name");
    assert_eq!((e.status, e.text.as_str()), (400, "remote must not be empty"));
    let query = SelectRigQuery {
        remote: "hf".to_string(),
        session_id: Some("not an id".to_string()),
    };
    assert!(matches!(select_rig(&query, &known("hf"), &mut mgr), Ok(rig) if rig == "hf"));
}

#[test]
fn the_requested_rig_comes_before_the_selected_one() {
    let active = Some("hf".to_string());
    assert_eq!(requested_rig(&Some("vhf".to_string()), &active), Some("vhf".to_string()));
    assert_eq!(requested_rig(&Some("".to_string()), &active), active);
    assert_eq!(requested_rig(&None, &None), None);
    assert_eq!(named_rig(&Some("".to_string())), None);
    assert_eq!(named_rig(&Some("a".to_string())), Some("a".to_string()));
}

#[test]
fn identifiers_read_back() {
    let text = "67e55044-10b1-426f-9247-bb680e5fe0c8";
    let id = parse_uuid(text).expect("an identifier");
    assert_eq!(id, 0x67e5504410b1426f9247bb680e5fe0c8);
    assert_eq!(format_uuid(id), text);
    assert_eq!(parse_uuid("67E5504410B1426F9247BB680E5FE0C8"), Some(id));
    assert_eq!(parse_uuid("nonsense"), None);
}

#[test]
fn the_scheduler_waits_for_users() {
    let mut control = SchedulerControlManager::new();
    assert!(control.scheduler_allowed());
    assert!(!control.has_active_user_control());
    control.register_session(1);
    control.register_session(2);
    // A user that has only connected has not released control.
    assert!(!control.scheduler_allowed());
    assert!(control.has_active_user_control());
    let summary = control.summary(Some(1));
    assert_eq!(summary.connected_sessions, 2);
    assert_eq!(summary.released_sessions, 0);
    assert!(!summary.current_session_released);
    let summary = control.set_released(2, true);
    assert_eq!(summary.connected_sessions, 2);
    assert_eq!(summary.released_sessions, 1);
    assert!(!summary.all_released);
    assert!(summary.current_session_released);
    assert!(!control.scheduler_allowed());
    // Every user has to release it.
    assert!(control.set_released(1, true).all_released);
    assert!(control.scheduler_allowed());
    assert!(!control.has_active_user_control());
    assert!(!control.set_released(1, false).all_released);
    assert!(!control.scheduler_allowed());
    // Leaving gives control back.
    control.unregister_session(1);
    assert!(control.scheduler_allowed());
    let (summary, replay) = control.update(SchedulerControlUpdate {
        session_id: 2,
        released: true,
        remote: Some("hf".to_string()),
    });
    assert!(summary.all_released);
    assert_eq!(replay, Some("hf".to_string()));
}
