use std::cell::RefCell;
use std::rc::Rc;

use gpuflo::terminal::{TerminalGuard, TerminalOps};

#[derive(Default)]
struct FakeState {
    calls: Vec<&'static str>,
    fail_on: Option<&'static str>,
}

#[derive(Clone)]
struct FakeOps(Rc<RefCell<FakeState>>);

impl FakeOps {
    fn new(fail_on: Option<&'static str>) -> Self {
        Self(Rc::new(RefCell::new(FakeState {
            calls: Vec::new(),
            fail_on,
        })))
    }

    fn record(&self, name: &'static str) -> std::io::Result<()> {
        let mut state = self.0.borrow_mut();
        state.calls.push(name);
        if state.fail_on == Some(name) {
            return Err(std::io::Error::other(name));
        }
        Ok(())
    }

    fn calls(&self) -> Vec<&'static str> {
        self.0.borrow().calls.clone()
    }
}

impl TerminalOps for FakeOps {
    fn enable_raw(&mut self) -> std::io::Result<()> {
        self.record("enable_raw")
    }

    fn disable_raw(&mut self) -> std::io::Result<()> {
        self.record("disable_raw")
    }

    fn enter_alternate_screen(&mut self) -> std::io::Result<()> {
        self.record("enter_alt")
    }

    fn leave_alternate_screen(&mut self) -> std::io::Result<()> {
        self.record("leave_alt")
    }

    fn hide_cursor(&mut self) -> std::io::Result<()> {
        self.record("hide_cursor")
    }

    fn show_cursor(&mut self) -> std::io::Result<()> {
        self.record("show_cursor")
    }
}

#[test]
fn full_lifecycle_restores_in_cursor_raw_screen_order() {
    let ops = FakeOps::new(None);
    let mut guard = TerminalGuard::acquire(ops.clone()).unwrap();
    guard.restore().unwrap();
    drop(guard);
    assert_eq!(
        ops.calls(),
        vec![
            "enable_raw",
            "enter_alt",
            "hide_cursor",
            "show_cursor",
            "disable_raw",
            "leave_alt",
        ]
    );
}

#[test]
fn failed_first_stage_unwinds_nothing() {
    let ops = FakeOps::new(Some("enable_raw"));
    assert!(TerminalGuard::acquire(ops.clone()).is_err());
    assert_eq!(ops.calls(), vec!["enable_raw"]);
}

#[test]
fn failed_second_stage_unwinds_only_raw_mode() {
    let ops = FakeOps::new(Some("enter_alt"));
    assert!(TerminalGuard::acquire(ops.clone()).is_err());
    assert_eq!(ops.calls(), vec!["enable_raw", "enter_alt", "disable_raw"]);
}

#[test]
fn failed_third_stage_unwinds_screen_then_raw() {
    let ops = FakeOps::new(Some("hide_cursor"));
    assert!(TerminalGuard::acquire(ops.clone()).is_err());
    assert_eq!(
        ops.calls(),
        vec![
            "enable_raw",
            "enter_alt",
            "hide_cursor",
            "leave_alt",
            "disable_raw",
        ]
    );
}

#[test]
fn restore_attempts_every_step_even_when_one_fails() {
    let ops = FakeOps::new(Some("disable_raw"));
    let mut guard = TerminalGuard::acquire(ops.clone()).unwrap();
    assert!(guard.restore().is_err());
    assert_eq!(
        ops.calls(),
        vec![
            "enable_raw",
            "enter_alt",
            "hide_cursor",
            "show_cursor",
            "disable_raw",
            "leave_alt",
        ]
    );
    // Idempotent: restoring again after an explicit restore adds nothing.
    assert!(guard.restore().is_ok());
    drop(guard);
    assert_eq!(ops.calls().len(), 6);
}
