//! Staged terminal ownership for the interactive surface.
//!
//! Acquisition enables raw mode, enters the alternate screen, and hides the
//! cursor, recording each completed stage so a partial acquisition unwinds
//! exactly what it enabled. Restoration shows the cursor, disables raw mode,
//! then leaves the alternate screen, attempting every remaining step even when
//! one fails.
//!
//! The terminal operations themselves are performed by an implementation of
//! [`TerminalOps`] and promise nothing; what is stated here is the sequence
//! of operations the guard performs and how their outcomes decide its own.
use vstd::prelude::*;

verus! {

/// `std::io::Error`, carried opaquely from a terminal operation to the caller.
#[verifier::external_type_specification]
#[verifier::external_body]
pub struct ExIoError(std::io::Error);

/// One terminal mode operation.
#[derive(Debug, Clone, Copy, PartialEq, Eq)]
pub enum TerminalStep {
    EnableRaw,
    DisableRaw,
    EnterAlternateScreen,
    LeaveAlternateScreen,
    HideCursor,
    ShowCursor,
}

/// The injectable terminal operation seam. Each operation reports failure
/// through its result.
pub trait TerminalOps {
    fn enable_raw(&mut self) -> std::io::Result<()>;

    fn disable_raw(&mut self) -> std::io::Result<()>;

    fn enter_alternate_screen(&mut self) -> std::io::Result<()>;

    fn leave_alternate_screen(&mut self) -> std::io::Result<()>;

    fn hide_cursor(&mut self) -> std::io::Result<()>;

    fn show_cursor(&mut self) -> std::io::Result<()>;
}

/// One operation the guard performed, and whether it succeeded.
pub type Call = (TerminalStep, bool);

/// The operations of a record of calls, in order.
pub open spec fn steps_of(calls: Seq<Call>) -> Seq<TerminalStep> {
    calls.map_values(|c: Call| c.0)
}

/// Every call of a record succeeded.
pub open spec fn all_ok(calls: Seq<Call>) -> bool {
    forall|i: int| 0 <= i < calls.len() ==> (#[trigger] calls[i]).1
}

/// `after` is `before` followed by more calls.
pub open spec fn extends(before: Seq<Call>, after: Seq<Call>) -> bool {
    after.len() >= before.len() && after.take(before.len() as int) == before
}

/// The calls `after` holds beyond `before`.
pub open spec fn appended(before: Seq<Call>, after: Seq<Call>) -> Seq<Call> {
    after.skip(before.len() as int)
}

/// The complete acquisition order.
pub open spec fn acquired_steps() -> Seq<TerminalStep> {
    seq![TerminalStep::EnableRaw, TerminalStep::EnterAlternateScreen, TerminalStep::HideCursor]
}

/// The operations of an acquisition that failed: the failed stage itself,
/// then the unwinding of every earlier completed stage, newest first.
pub open spec fn failed_acquisition_steps(failed_stage: int) -> Seq<TerminalStep> {
    if failed_stage == 0 {
        seq![TerminalStep::EnableRaw]
    } else if failed_stage == 1 {
        seq![
            TerminalStep::EnableRaw,
            TerminalStep::EnterAlternateScreen,
            TerminalStep::DisableRaw,
        ]
    } else {
        seq![
            TerminalStep::EnableRaw,
            TerminalStep::EnterAlternateScreen,
            TerminalStep::HideCursor,
            TerminalStep::LeaveAlternateScreen,
            TerminalStep::DisableRaw,
        ]
    }
}

/// The record of an acquisition: all three stages succeeded and the result
/// is `Ok`; or stage `k` was the first to fail, the completed stages before
/// it were unwound newest first, and the result is the error.
pub open spec fn acquisition(calls: Seq<Call>, ok: bool) -> bool {
    if ok {
        steps_of(calls) == acquired_steps() && all_ok(calls)
    } else {
        exists|k: int|
            0 <= k < 3 && steps_of(calls) == failed_acquisition_steps(k) && (forall|i: int|
                0 <= i < k ==> (#[trigger] calls[i]).1) && !calls[k].1
    }
}

/// The restoration operations still owed by a guard in the given stage
/// state: cursor, then raw mode, then the alternate screen.
pub open spec fn restoration_steps(cursor_hidden: bool, raw: bool, alternate: bool) -> Seq<
    TerminalStep,
> {
    (if cursor_hidden {
        seq![TerminalStep::ShowCursor]
    } else {
        Seq::empty()
    }) + (if raw {
        seq![TerminalStep::DisableRaw]
    } else {
        Seq::empty()
    }) + (if alternate {
        seq![TerminalStep::LeaveAlternateScreen]
    } else {
        Seq::empty()
    })
}

/// Performs one operation and records it with its outcome.
fn perform<O: TerminalOps>(ops: &mut O, step: TerminalStep, calls: Ghost<Seq<Call>>) -> (r: (
    std::io::Result<()>,
    Ghost<Seq<Call>>,
))
    ensures
        r.1@ == calls@.push((step, r.0 is Ok)),
{
    let result = match step {
        TerminalStep::EnableRaw => ops.enable_raw(),
        TerminalStep::DisableRaw => ops.disable_raw(),
        TerminalStep::EnterAlternateScreen => ops.enter_alternate_screen(),
        TerminalStep::LeaveAlternateScreen => ops.leave_alternate_screen(),
        TerminalStep::HideCursor => ops.hide_cursor(),
        TerminalStep::ShowCursor => ops.show_cursor(),
    };
    let ok = match &result {
        Ok(_) => true,
        Err(_) => false,
    };
    (result, Ghost(calls@.push((step, ok))))
}

proof fn lemma_steps_push(calls: Seq<Call>, c: Call)
    ensures
        steps_of(calls.push(c)) == steps_of(calls).push(c.0),
{
    assert(steps_of(calls.push(c)) =~= steps_of(calls).push(c.0));
}

proof fn lemma_all_ok_push(calls: Seq<Call>, c: Call)
    ensures
        all_ok(calls.push(c)) == (all_ok(calls) && c.1),
{
    if all_ok(calls.push(c)) {
        assert forall|i: int| 0 <= i < calls.len() implies (#[trigger] calls[i]).1 by {
            assert(calls.push(c)[i] == calls[i]);
        }
        assert(calls.push(c)[calls.len() as int] == c);
    }
}

/// Performs the three acquisition stages in order. A failed stage unwinds
/// exactly the stages that completed before it, newest first. Returns the
/// record of the operations performed, with their outcomes.
pub fn acquire_stages<O: TerminalOps>(ops: &mut O) -> (r: (std::io::Result<()>, Ghost<Seq<Call>>))
    ensures
        acquisition(r.1@, r.0 is Ok),
{
    let (first, calls) = perform(ops, TerminalStep::EnableRaw, Ghost(Seq::empty()));
    proof {
        lemma_steps_push(Seq::empty(), calls@[0]);
        assert(steps_of(Seq::<Call>::empty()) =~= Seq::<TerminalStep>::empty());
    }
    if let Err(error) = first {
        assert(steps_of(calls@) =~= failed_acquisition_steps(0));
        return (Err(error), calls);
    }
    let (second, calls) = perform(ops, TerminalStep::EnterAlternateScreen, calls);
    if let Err(error) = second {
        let (_, calls) = perform(ops, TerminalStep::DisableRaw, calls);
        assert(steps_of(calls@) =~= failed_acquisition_steps(1));
        assert(calls@[0].1);
        return (Err(error), calls);
    }
    let (third, calls) = perform(ops, TerminalStep::HideCursor, calls);
    if let Err(error) = third {
        let (_, calls) = perform(ops, TerminalStep::LeaveAlternateScreen, calls);
        let (_, calls) = perform(ops, TerminalStep::DisableRaw, calls);
        assert(steps_of(calls@) =~= failed_acquisition_steps(2));
        assert(calls@[0].1 && calls@[1].1);
        return (Err(error), calls);
    }
    assert(steps_of(calls@) =~= acquired_steps());
    (Ok(()), calls)
}

/// Staged guard over enabled terminal modes. Its owner restores the
/// terminal with [`TerminalGuard::restore`] before giving it up.
pub struct TerminalGuard<O: TerminalOps> {
    ops: O,
    raw: bool,
    alternate: bool,
    cursor_hidden: bool,
    restored: bool,
    calls: Ghost<Seq<Call>>,
}

impl<O: TerminalOps> TerminalGuard<O> {
    /// Every operation the guard performed, oldest first, with its outcome.
    pub closed spec fn calls(&self) -> Seq<Call> {
        self.calls@
    }

    /// Whether restoration already ran.
    pub closed spec fn is_restored(&self) -> bool {
        self.restored
    }

    /// The restoration operations this guard still owes.
    pub closed spec fn owed(&self) -> Seq<TerminalStep> {
        if self.restored {
            Seq::empty()
        } else {
            restoration_steps(self.cursor_hidden, self.raw, self.alternate)
        }
    }

    /// Acquires raw mode, the alternate screen, and cursor hiding in order.
    /// A failure unwinds only the stages that actually completed (stated of
    /// [`acquire_stages`], whose record the error consumes).
    pub fn acquire(ops: O) -> (r: std::io::Result<Self>)
        ensures
            r is Ok ==> {
                &&& acquisition(r->Ok_0.calls(), true)
                &&& !r->Ok_0.is_restored()
                &&& r->Ok_0.owed() == seq![
                    TerminalStep::ShowCursor,
                    TerminalStep::DisableRaw,
                    TerminalStep::LeaveAlternateScreen,
                ]
            },
    {
        let mut ops = ops;
        let (result, calls) = acquire_stages(&mut ops);
        result?;
        let guard = Self {
            ops,
            raw: true,
            alternate: true,
            cursor_hidden: true,
            restored: false,
            calls,
        };
        assert(guard.owed() =~= seq![
            TerminalStep::ShowCursor,
            TerminalStep::DisableRaw,
            TerminalStep::LeaveAlternateScreen,
        ]);
        Ok(guard)
    }

    /// Best-effort restoration: cursor, raw mode, then alternate screen.
    /// Every remaining step is attempted even when one fails; the first
    /// failure is reported, and the result is `Ok` exactly when every step
    /// succeeded. Idempotent.
    pub fn restore(&mut self) -> (r: std::io::Result<()>)
        ensures
            extends(old(self).calls(), final(self).calls()),
            steps_of(appended(old(self).calls(), final(self).calls())) == old(self).owed(),
            (r is Ok) == all_ok(appended(old(self).calls(), final(self).calls())),
            final(self).is_restored(),
            final(self).owed() == Seq::<TerminalStep>::empty(),
    {
        let ghost start = self.calls@;
        if self.restored {
            assert(appended(start, start) =~= Seq::<Call>::empty());
            assert(start.take(start.len() as int) =~= start);
            assert(steps_of(Seq::<Call>::empty()) =~= Seq::<TerminalStep>::empty());
            return Ok(());
        }
        let ghost owed = restoration_steps(self.cursor_hidden, self.raw, self.alternate);
        self.restored = true;
        let mut first_error: Option<std::io::Error> = None;
        if self.cursor_hidden {
            self.cursor_hidden = false;
            let (result, calls) = perform(&mut self.ops, TerminalStep::ShowCursor, self.calls);
            self.calls = calls;
            assert(self.calls@.skip(start.len() as int) =~= Seq::<Call>::empty().push(
                (TerminalStep::ShowCursor, result is Ok),
            ));
            proof {
                lemma_all_ok_push(Seq::<Call>::empty(), (TerminalStep::ShowCursor, result is Ok));
            }
            if let Err(error) = result {
                first_error = Some(error);
            }
        } else {
            assert(self.calls@.skip(start.len() as int) =~= Seq::<Call>::empty());
        }
        let ghost mid1 = self.calls@;
        assert(first_error is None <==> all_ok(mid1.skip(start.len() as int)));
        if self.raw {
            self.raw = false;
            let (result, calls) = perform(&mut self.ops, TerminalStep::DisableRaw, self.calls);
            self.calls = calls;
            assert(self.calls@.skip(start.len() as int) =~= mid1.skip(start.len() as int).push(
                (TerminalStep::DisableRaw, result is Ok),
            ));
            proof {
                lemma_all_ok_push(mid1.skip(start.len() as int), (TerminalStep::DisableRaw, result is Ok));
            }
            if let Err(error) = result {
                if first_error.is_none() {
                    first_error = Some(error);
                }
            }
        }
        let ghost mid2 = self.calls@;
        assert(first_error is None <==> all_ok(mid2.skip(start.len() as int)));
        if self.alternate {
            self.alternate = false;
            let (result, calls) = perform(
                &mut self.ops,
                TerminalStep::LeaveAlternateScreen,
                self.calls,
            );
            self.calls = calls;
            assert(self.calls@.skip(start.len() as int) =~= mid2.skip(start.len() as int).push(
                (TerminalStep::LeaveAlternateScreen, result is Ok),
            ));
            proof {
                lemma_all_ok_push(
                    mid2.skip(start.len() as int),
                    (TerminalStep::LeaveAlternateScreen, result is Ok),
                );
            }
            if let Err(error) = result {
                if first_error.is_none() {
                    first_error = Some(error);
                }
            }
        }
        let ghost fin = self.calls@;
        assert(first_error is None <==> all_ok(fin.skip(start.len() as int)));
        assert(fin.take(start.len() as int) =~= start);
        assert(steps_of(fin.skip(start.len() as int)) =~= owed);
        match first_error {
            None => Ok(()),
            Some(error) => Err(error),
        }
    }
}

} // verus!
