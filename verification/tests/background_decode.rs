use trx_client::background_decode::{evaluate_bookmark, ChannelAction};

fn empty_scheduled() -> Vec<String> {
    Vec::new()
}

#[test]
fn active_when_all_conditions_met() {
    let action = evaluate_bookmark(
        false, // decoder_kinds_empty
        true,  // enabled
        true,  // users_connected
        false, // scheduler_has_control
        &empty_scheduled(),
        "bm1",
        false,                      // vchan_covers_bookmark
        Some((14_074_000, 96_000)), // spectrum_span (center, half)
        14_074_000,                 // freq_hz
    );
    assert_eq!(action, ChannelAction::Active);
}

#[test]
fn skip_no_supported_decoders() {
    let action = evaluate_bookmark(
        true,
        true,
        true,
        false,
        &empty_scheduled(),
        "bm1",
        false,
        Some((14_074_000, 96_000)),
        14_074_000,
    );
    assert_eq!(
        action,
        ChannelAction::Skip {
            reason: "no_supported_decoders"
        }
    );
}

#[test]
fn skip_disabled() {
    let action = evaluate_bookmark(
        false,
        false,
        true,
        false,
        &empty_scheduled(),
        "bm1",
        false,
        Some((14_074_000, 96_000)),
        14_074_000,
    );
    assert_eq!(action, ChannelAction::Skip { reason: "disabled" });
}

#[test]
fn skip_waiting_for_user() {
    let action = evaluate_bookmark(
        false,
        true,
        false,
        false,
        &empty_scheduled(),
        "bm1",
        false,
        Some((14_074_000, 96_000)),
        14_074_000,
    );
    assert_eq!(
        action,
        ChannelAction::Skip {
            reason: "waiting_for_user"
        }
    );
}

#[test]
fn skip_scheduler_has_control() {
    let action = evaluate_bookmark(
        false,
        true,
        true,
        true,
        &empty_scheduled(),
        "bm1",
        false,
        Some((14_074_000, 96_000)),
        14_074_000,
    );
    assert_eq!(
        action,
        ChannelAction::Skip {
            reason: "scheduler_has_control"
        }
    );
}

#[test]
fn skip_handled_by_scheduler() {
    let mut scheduled = Vec::new();
    scheduled.push("bm1".to_string());
    let action = evaluate_bookmark(
        false,
        true,
        true,
        false,
        &scheduled,
        "bm1",
        false,
        Some((14_074_000, 96_000)),
        14_074_000,
    );
    assert_eq!(
        action,
        ChannelAction::Skip {
            reason: "handled_by_scheduler"
        }
    );
}

#[test]
fn skip_handled_by_virtual_channel() {
    let action = evaluate_bookmark(
        false,
        true,
        true,
        false,
        &empty_scheduled(),
        "bm1",
        true,
        Some((14_074_000, 96_000)),
        14_074_000,
    );
    assert_eq!(
        action,
        ChannelAction::Skip {
            reason: "handled_by_virtual_channel"
        }
    );
}

#[test]
fn skip_waiting_for_spectrum() {
    let action = evaluate_bookmark(
        false,
        true,
        true,
        false,
        &empty_scheduled(),
        "bm1",
        false,
        None,
        14_074_000,
    );
    assert_eq!(
        action,
        ChannelAction::Skip {
            reason: "waiting_for_spectrum"
        }
    );
}

#[test]
fn skip_out_of_span() {
    let action = evaluate_bookmark(
        false,
        true,
        true,
        false,
        &empty_scheduled(),
        "bm1",
        false,
        Some((14_074_000, 96_000)), // center 14.074 MHz, half span 96 kHz
        7_074_000,                  // way outside the span
    );
    assert_eq!(
        action,
        ChannelAction::Skip {
            reason: "out_of_span"
        }
    );
}

#[test]
fn active_at_edge_of_span() {
    let action = evaluate_bookmark(
        false,
        true,
        true,
        false,
        &empty_scheduled(),
        "bm1",
        false,
        Some((14_074_000, 96_000)),
        14_074_000 + 96_000, // exactly at the edge
    );
    assert_eq!(action, ChannelAction::Active);
}

#[test]
fn priority_no_decoders_over_disabled() {
    // Even if disabled, "no_supported_decoders" should take precedence
    let action = evaluate_bookmark(
        true,
        false,
        true,
        false,
        &empty_scheduled(),
        "bm1",
        false,
        Some((14_074_000, 96_000)),
        14_074_000,
    );
    assert_eq!(
        action,
        ChannelAction::Skip {
            reason: "no_supported_decoders"
        }
    );
}
