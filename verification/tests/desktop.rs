use trx_client::commands::RigCommand;
use trx_client::desktop::{
    handle_action, labels, mode_label, parse_mode, vfo_label, ButtonAction, ButtonTable, Inputs,
    RigMode, RigReading, RigStateModel, VfoEntry, Vfos,
};

fn reading() -> RigReading {
    RigReading {
        freq_hz: 14_074_000,
        freq_text: "14.074 MHz".to_string(),
        mode: RigMode::USB,
        band: Some("20m".to_string()),
        tx_enabled: false,
        locked: Some(true),
        powered: None,
        rx_sig: Some(-73),
        tx_power: None,
        tx_limit: Some(50),
        tx_swr_bits: 1.5f64.to_bits(),
        tx_swr_differs: true,
        tx_alc: None,
        vfos: None,
    }
}

#[test]
fn modes_are_read_in_any_case() {
    assert!(matches!(parse_mode(" usb "), RigMode::USB));
    assert!(matches!(parse_mode("digi"), RigMode::DIG));
    assert!(matches!(parse_mode("Packet"), RigMode::PKT));
    assert!(matches!(parse_mode("sam"), RigMode::Other(m) if m == "SAM"));
    for name in ["LSB", "USB", "CW", "CWR", "AM", "WFM", "FM", "DIG", "PKT", "SAM"] {
        assert_eq!(mode_label(&parse_mode(name)), name);
    }
}

#[test]
fn frequencies_are_listed_with_the_one_in_use() {
    assert_eq!(vfo_label(&None), "--");
    let vfos = Vfos {
        entries: vec![
            VfoEntry {
                name: "A".to_string(),
                freq_text: "7.1 kHz".to_string(),
                mode: Some(RigMode::LSB),
            },
            VfoEntry {
                name: "B".to_string(),
                freq_text: "9 Hz".to_string(),
                mode: None,
            },
        ],
        active: Some(1),
    };
    assert_eq!(vfo_label(&Some(vfos)), "  A: 7.1 kHz LSB\n* B: 9 Hz --");
}

#[test]
fn the_window_follows_the_rig() {
    let mut model = RigStateModel::default();
    assert_eq!(model.freq_text, "-- Hz");
    let mut r = reading();
    assert!(model.update(&r));
    assert_eq!(model.freq_text, "14.074 MHz");
    assert_eq!(model.mode, "USB");
    assert!(model.locked && !model.powered);
    assert_eq!((model.rx_sig, model.tx_limit, model.tx_alc), (-73, 50, 0));
    assert_eq!(f64::from_bits(model.tx_swr_bits), 1.5);
    r.tx_swr_differs = false;
    assert!(!model.update(&r));
    r.tx_swr_bits = 2.0f64.to_bits();
    r.tx_swr_differs = true;
    assert!(model.update(&r));
    assert_eq!(f64::from_bits(model.tx_swr_bits), 2.0);
    r.tx_swr_differs = false;
    r.band = None;
    assert!(model.update(&r));
    assert_eq!(model.band, "--");
    let texts = labels(&model, "1.5");
    assert_eq!(texts.mode, "Mode: USB");
    assert_eq!(texts.ptt, "PTT: RX");
    assert_eq!(texts.lock, "Lock: ON");
    assert_eq!(texts.power, "Power: OFF");
    assert_eq!(texts.rx_sig, "RX Sig: -73");
    assert_eq!(texts.tx_swr, "SWR: 1.5");
    assert_eq!(texts.vfo, "VFO: --");
}

#[test]
fn the_same_reading_changes_nothing_again() {
    let differs = |a: u64, b: u64| (f64::from_bits(a) - f64::from_bits(b)).abs() > f64::EPSILON;
    for swr in [0.0, 1.0, 1.0 + f64::EPSILON, 1.5, f64::INFINITY, f64::NAN] {
        let mut model = RigStateModel::default();
        let mut r = reading();
        r.tx_swr_bits = swr.to_bits();
        r.tx_swr_differs = differs(model.tx_swr_bits, r.tx_swr_bits);
        assert!(model.update(&r));
        assert!(!differs(model.tx_swr_bits, r.tx_swr_bits));
        r.tx_swr_differs = differs(model.tx_swr_bits, r.tx_swr_bits);
        assert!(!model.update(&r));
    }
}

#[test]
fn buttons_are_found_by_number() {
    let mut table: ButtonTable<u8> = ButtonTable::new();
    assert_eq!(table.register_button_action(ButtonAction::TogglePtt, 5), 0);
    assert_eq!(table.register_button_action(ButtonAction::SetFreq, 6), 1);
    assert_eq!(table.invoke_button_action(0), Some((ButtonAction::TogglePtt, &5)));
    assert_eq!(table.invoke_button_action(1), Some((ButtonAction::SetFreq, &6)));
    assert_eq!(table.invoke_button_action(2), None);
    assert_eq!(table.invoke_button_action(-1), None);
}

#[test]
fn buttons_give_commands() {
    let model = RigStateModel::default();
    let inputs = Inputs {
        freq: " 7074000 ".to_string(),
        mode: "digi".to_string(),
        tx_limit: "256".to_string(),
    };
    let give = |action: ButtonAction| handle_action(action, &model, &inputs);
    assert!(matches!(give(ButtonAction::TogglePtt), Some(RigCommand::SetPtt(true))));
    assert!(matches!(give(ButtonAction::TogglePower), Some(RigCommand::PowerOn)));
    assert!(matches!(give(ButtonAction::ToggleVfo), Some(RigCommand::ToggleVfo)));
    assert!(matches!(give(ButtonAction::ToggleLock), Some(RigCommand::Lock)));
    assert!(matches!(give(ButtonAction::SetFreq), Some(RigCommand::SetFreq(7_074_000))));
    assert!(matches!(give(ButtonAction::SetMode), Some(RigCommand::SetMode(m)) if m == "DIG"));
    assert!(give(ButtonAction::SetTxLimit).is_none());
    let zero = Inputs {
        freq: "0".to_string(),
        mode: String::new(),
        tx_limit: "12".to_string(),
    };
    assert!(handle_action(ButtonAction::SetFreq, &model, &zero).is_none());
    assert!(matches!(
        handle_action(ButtonAction::SetTxLimit, &model, &zero),
        Some(RigCommand::SetTxLimit(12))
    ));
}
