use native_lbb::session::{
    next_stop_action, start_args, stop_args, stop_result, PollEvent, SessionError, SessionRegistry,
    SignalOutcome, StopAction, STOP_TIMEOUT_MS,
};

#[test]
fn second_start_is_refused() {
    let mut reg: SessionRegistry<u32> = SessionRegistry::new();
    assert!(reg.check_start("deviceA").is_ok());
    reg.register("deviceA".to_string(), 7);
    assert!(matches!(reg.check_start("deviceA"), Err(SessionError::AlreadyRecording)));
    assert!(reg.is_recording("deviceA"));
    assert!(reg.check_start("deviceB").is_ok());
    assert_eq!(reg.take("deviceA"), Some(7));
    assert_eq!(SessionError::AlreadyRecording.message(), "Device is already recording");
}

#[test]
fn take_of_unknown_device() {
    let mut reg: SessionRegistry<u32> = SessionRegistry::new();
    reg.register("a".to_string(), 1);
    reg.register("b".to_string(), 2);
    assert_eq!(reg.take("c"), None);
    assert_eq!(reg.take("a"), Some(1));
    assert_eq!(reg.take("a"), None);
    assert!(reg.is_recording("b"));
}

#[test]
fn bridge_arguments() {
    assert_eq!(
        start_args("deviceA", "/sdcard/x.mp4"),
        vec!["-s", "deviceA", "shell", "screenrecord", "/sdcard/x.mp4"]
    );
    assert_eq!(
        stop_args("deviceA"),
        vec!["-s", "deviceA", "shell", "pkill", "-SIGINT", "screenrecord"]
    );
}

#[test]
fn stop_polls_until_the_deadline() {
    let sig = SignalOutcome::Delivered;
    assert!(matches!(next_stop_action(&sig, PollEvent::Running, 0), StopAction::PollAgain));
    assert!(matches!(next_stop_action(&sig, PollEvent::Running, 4999), StopAction::PollAgain));
    assert!(matches!(next_stop_action(&sig, PollEvent::Running, STOP_TIMEOUT_MS), StopAction::ForceKill));
    assert!(matches!(next_stop_action(&sig, PollEvent::Exited, 300), StopAction::Finish(Ok(()))));
}

#[test]
fn stop_reports_signal_failure_after_exit() {
    let sig = SignalOutcome::Refused { stderr: " no process \n".to_string() };
    match next_stop_action(&sig, PollEvent::Exited, 100) {
        StopAction::Finish(Err(e)) => {
            assert_eq!(e.message(), "Failed to stop screenrecord cleanly: no process")
        }
        _ => panic!("expected a failed finish"),
    }
    let sig = SignalOutcome::NotSent { reason: "not found".to_string() };
    match stop_result(&sig) {
        Err(e) => assert_eq!(e.message(), "Failed to invoke stop command: not found"),
        Ok(()) => panic!("expected a failure"),
    }
}

#[test]
fn stop_fails_on_poll_error() {
    let sig = SignalOutcome::Delivered;
    match next_stop_action(&sig, PollEvent::PollFailed { reason: "EIO".to_string() }, 0) {
        StopAction::Finish(Err(e)) => {
            assert_eq!(e.message(), "Failed to poll screenrecord process: EIO")
        }
        _ => panic!("expected a failed finish"),
    }
}

#[test]
fn stop_of_stubborn_recorder_times_out() {
    let mut reg: SessionRegistry<u32> = SessionRegistry::new();
    reg.register("deviceA".to_string(), 9);
    let handle = reg.take("deviceA");
    assert_eq!(handle, Some(9));
    assert!(!reg.is_recording("deviceA"));
    let sig = SignalOutcome::Delivered;
    let mut elapsed: u64 = 0;
    let outcome = loop {
        match next_stop_action(&sig, PollEvent::Running, elapsed) {
            StopAction::PollAgain => elapsed += 100,
            StopAction::ForceKill => break Err(SessionError::Timeout),
            StopAction::Finish(r) => break r,
        }
    };
    assert_eq!(elapsed, 5000);
    match outcome {
        Err(e) => assert_eq!(e.message(), "Timeout waiting for screenrecord process to exit"),
        Ok(()) => panic!("a stubborn recorder must not stop silently"),
    }
}

#[test]
fn stop_without_session_follows_signal() {
    assert!(stop_result(&SignalOutcome::Delivered).is_ok());
}
