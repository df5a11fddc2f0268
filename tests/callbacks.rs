use repomons::callbacks::{progress, progress_at, sideband, CallbackOutput, CloneState, TransferProgress};

fn report(received: usize, total: usize, bytes: usize, indexed: usize, deltas: usize) -> TransferProgress {
    TransferProgress {
        received_objects: received,
        total_objects: total,
        received_bytes: bytes,
        indexed_deltas: indexed,
        total_deltas: deltas,
    }
}

#[test]
fn sideband_keeps_the_decoded_message() {
    let mut out = CallbackOutput::default();
    assert!(sideband(&mut out, b"Counting objects: 10"));
    assert_eq!(out.sideband(), "Counting objects: 10");
    assert!(sideband(&mut out, &[b'h', b'i', 0xff]));
    assert_eq!(out.sideband(), "hi\u{FFFD}");
    assert_eq!(out.progress(), "");
}

#[test]
fn receiving_line() {
    let mut out = CallbackOutput::default();
    assert!(progress_at(&mut out, &report(1, 4, 2048, 0, 0), 1_000_000_000));
    assert_eq!(out.progress(), "Receiving Objects: 25% (1/4), 2.00 KiB | 2.00 KiB/s");
    assert_eq!(out.state(), CloneState::Receiving);
}

#[test]
fn last_object_moves_to_resolving() {
    let mut out = CallbackOutput::default();
    progress_at(&mut out, &report(4, 4, 512, 0, 3), 2_000_000_000);
    assert_eq!(out.progress(), "Receiving Objects: 100% (4/4), 512 B | 256 B/s, done.\n");
    assert_eq!(out.state(), CloneState::Resolving);
    progress_at(&mut out, &report(4, 4, 512, 1, 3), 3_000_000_000);
    assert_eq!(out.progress(), "Resolving Deltas: 33% (1/3)");
    progress_at(&mut out, &report(4, 4, 512, 3, 3), 3_000_000_000);
    assert_eq!(out.progress(), "Resolving Deltas: 100% (3/3), done.\n");
    progress_at(&mut out, &report(4, 4, 512, 0, 0), 3_000_000_000);
    assert_eq!(out.progress(), "Resolving Deltas: 0% (0/0)");
}

#[test]
fn reports_without_a_rate_omit_it() {
    let mut out = CallbackOutput::default();
    progress_at(&mut out, &report(1, 4, 10, 0, 0), 0);
    assert_eq!(out.progress(), "Receiving Objects: 25% (1/4), 10 B");
    let too_long: u128 = (u32::MAX as u128 + 1) * 1_000_000_000;
    progress_at(&mut out, &report(2, 4, 10, 0, 0), too_long);
    assert_eq!(out.progress(), "Receiving Objects: 50% (2/4), 10 B");
    assert_eq!(out.state(), CloneState::Receiving);
}

#[test]
fn zero_objects_in_all_resolve_at_once() {
    let mut out = CallbackOutput::default();
    assert!(progress_at(&mut out, &report(0, 0, 0, 0, 0), 1_000_000_000));
    assert_eq!(out.progress(), "Receiving Objects: 0% (0/0), 0 B | 0 B/s, done.\n");
    assert_eq!(out.state(), CloneState::Resolving);
}

#[test]
fn more_objects_than_in_all_change_nothing() {
    let mut out = CallbackOutput::default();
    progress_at(&mut out, &report(5, 4, 0, 0, 0), 1_000_000_000);
    assert_eq!(out.progress(), "");
    assert_eq!(out.state(), CloneState::Receiving);
}

#[test]
fn progress_against_the_clock() {
    let mut out = CallbackOutput::default();
    for _ in 0..1000 {
        assert!(progress(&mut out, &report(2, 4, 100, 0, 0)));
        if !out.progress().is_empty() {
            break;
        }
    }
    assert!(out.progress().starts_with("Receiving Objects: 50% (2/4), 100 B | "));
    assert!(out.progress().ends_with("/s"));
}

#[test]
fn last_object_resolves_even_without_elapsed_time() {
    let mut out = CallbackOutput::default();
    progress_at(&mut out, &report(2, 4, 100, 0, 0), 1_000_000_000);
    progress_at(&mut out, &report(4, 4, 200, 0, 2), 0);
    assert_eq!(out.state(), CloneState::Resolving);
    assert_eq!(out.progress(), "Receiving Objects: 100% (4/4), 200 B, done.\n");
    progress_at(&mut out, &report(4, 4, 200, 1, 2), 0);
    assert_eq!(out.progress(), "Resolving Deltas: 50% (1/2)");
}
