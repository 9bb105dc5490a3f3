//! Tests for the runtime contract: the listener chain's first-consumer-wins
//! dispatch, command and output queues, and status terminality.

use navm::cmd::Cmd;
use navm::output::Output;
use navm::vm::{CountListener, RelayLauncher, RelayVm, VmLauncher, VmRuntime, VmStatus};

fn event(text: &str) -> Output {
    Output::OTHER { content: text.into() }
}

#[test]
fn test_listener_first_consumer_wins() {
    let launcher = RelayLauncher {
        listeners: vec![
            CountListener { consume: false, seen: 0 },
            CountListener { consume: true, seen: 0 },
            CountListener { consume: true, seen: 0 },
        ],
    };
    let mut vm = launcher.launch().unwrap();
    vm.on_output(event("e"));
    let listeners = vm.listeners();
    assert_eq!(listeners[0].seen, 1);
    assert_eq!(listeners[1].seen, 1);
    assert_eq!(listeners[2].seen, 0, "the listener after the consumer is never invoked");
    assert_eq!(vm.try_fetch_output().unwrap(), None, "a consumed event is not stored");
}

#[test]
fn test_listener_fall_through() {
    let mut vm: RelayVm<CountListener> = RelayVm::new();
    vm.add_listener(CountListener { consume: false, seen: 0 });
    vm.add_listener(CountListener { consume: false, seen: 0 });
    vm.on_output(event("kept"));
    assert_eq!(vm.listeners()[0].seen, 1);
    assert_eq!(vm.listeners()[1].seen, 1);
    let fetched = vm.fetch_output().unwrap();
    assert_eq!(fetched, event("kept"));
    assert!(vm.fetch_output().is_err(), "the buffer is drained");
}

#[test]
fn test_output_order_oldest_first() {
    let mut vm: RelayVm<CountListener> = RelayVm::new();
    vm.on_output(event("first"));
    vm.on_output(event("second"));
    assert_eq!(vm.fetch_output().unwrap(), event("first"));
    assert_eq!(vm.try_fetch_output().unwrap(), Some(event("second")));
    assert_eq!(vm.try_fetch_output().unwrap(), None);
}

#[test]
fn test_command_queue() {
    let mut vm: RelayVm<CountListener> = RelayVm::new();
    vm.input_cmd(Cmd::CYC(1)).unwrap();
    vm.input_cmd(Cmd::VOL(2)).unwrap();
    assert_eq!(vm.take_cmd(), Some(Cmd::CYC(1)));
    assert_eq!(vm.take_cmd(), Some(Cmd::VOL(2)));
    assert_eq!(vm.take_cmd(), None);
}

#[test]
fn test_status_terminality() {
    let mut vm: RelayVm<CountListener> = RelayVm::new();
    assert!(!vm.is_terminated());
    assert!(matches!(vm.status(), VmStatus::Running));
    vm.terminate().unwrap();
    assert!(vm.is_terminated());
    assert!(matches!(vm.status(), VmStatus::Terminated(Ok(()))));
    // No later operation brings the runtime back to running.
    assert!(vm.input_cmd(Cmd::CYC(1)).is_err());
    assert!(vm.is_terminated());
    let _ = vm.try_fetch_output();
    assert!(vm.is_terminated());
    vm.terminate().unwrap();
    assert!(vm.is_terminated());
}

#[test]
fn test_launch_starts_running() {
    let launcher: RelayLauncher<CountListener> = RelayLauncher::new();
    let vm = launcher.launch().unwrap();
    assert!(!vm.is_terminated());
}
