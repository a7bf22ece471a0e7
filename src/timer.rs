//! Periodic timer: the tick counter and the table of callbacks run on each
//! tick, plus the scheduler callback run last.
use crate::error::Error;
use vstd::prelude::*;

verus! {

/// Number of periodic callback slots.
pub const MAX_CALLBACKS: usize = 30;
/// The tick counter starts over after reaching this value.
pub const TIMER_WRAP: u64 = 0x1_0000_0000;
/// Channel 0 data port of the interval timer.
pub const TIMER_C0_DATA: u16 = 0x40;
/// Mode/command port of the interval timer.
pub const TIMER_MODE_CTRL: u16 = 0x43;
/// Channel 0, low/high byte access, mode 3 (square wave), binary.
pub const TIMER_MODE_SQUARE: u8 = 0x36;
/// Interrupt vector of the timer after the PIC remap.
pub const TIMER_VECTOR: usize = 32;

/// The timer's state; `H` is the type of a callback.
pub struct Timer<H> {
    pub handlers: Vec<Option<H>>,
    pub tick: u64,
    pub scheduler: Option<H>,
}

/// Port writes that program channel 0 in mode 3 with divisor 0 (about
/// 18.2 Hz).
pub fn init_writes() -> (r: Vec<(u16, u8)>)
    ensures
        r@ == seq![(TIMER_MODE_CTRL, TIMER_MODE_SQUARE), (TIMER_C0_DATA, 0u8), (TIMER_C0_DATA, 0u8)],
{
    let r = vec![(TIMER_MODE_CTRL, TIMER_MODE_SQUARE), (TIMER_C0_DATA, 0u8), (TIMER_C0_DATA, 0u8)];
    assert(r@ =~= seq![(TIMER_MODE_CTRL, TIMER_MODE_SQUARE), (TIMER_C0_DATA, 0u8), (TIMER_C0_DATA, 0u8)]);
    r
}

impl<H: Copy> Timer<H> {
    pub open spec fn wf(&self) -> bool {
        &&& self.handlers@.len() == MAX_CALLBACKS
        &&& self.tick <= TIMER_WRAP
    }

    /// A timer with no callbacks and tick 0.
    pub fn new() -> (r: Self)
        ensures
            r.wf(),
            r.tick == 0,
            r.scheduler is None,
            forall|i: int| 0 <= i < MAX_CALLBACKS ==> r.handlers@[i] is None,
    {
        let mut handlers: Vec<Option<H>> = Vec::new();
        let mut i: usize = 0;
        while i < MAX_CALLBACKS
            invariant
                i <= MAX_CALLBACKS,
                handlers@.len() == i,
                forall|j: int| 0 <= j < i ==> handlers@[j] is None,
            decreases MAX_CALLBACKS - i,
        {
            handlers.push(None);
            i += 1;
        }
        Timer { handlers, tick: 0, scheduler: None }
    }

    /// Puts `func` in the first free slot and returns the slot; fails with
    /// `EFULL` when every slot is taken.
    pub fn register_timer(&mut self, func: H) -> (r: Result<usize, Error>)
        requires
            old(self).wf(),
        ensures
            final(self).wf(),
            final(self).tick == old(self).tick,
            final(self).scheduler == old(self).scheduler,
            match r {
                Ok(i) => i < MAX_CALLBACKS && old(self).handlers@[i as int] is None && (forall|j: int|
                    0 <= j < i ==> old(self).handlers@[j] is Some) && final(self).handlers@ == old(
                    self,
                ).handlers@.update(i as int, Some(func)),
                Err(e) => e == Error::EFULL && (forall|j: int|
                    0 <= j < MAX_CALLBACKS ==> old(self).handlers@[j] is Some) && final(self).handlers@
                    == old(self).handlers@,
            },
    {
        let mut i: usize = 0;
        while i < MAX_CALLBACKS
            invariant
                i <= MAX_CALLBACKS,
                *self == *old(self),
                self.wf(),
                forall|j: int| 0 <= j < i ==> self.handlers@[j] is Some,
            decreases MAX_CALLBACKS - i,
        {
            if self.handlers[i].is_none() {
                self.handlers.set(i, Some(func));
                return Ok(i);
            }
            i += 1;
        }
        Err(Error::EFULL)
    }

    /// Empties slot `idx`; fails with `ENOENT` when it holds no callback.
    pub fn unregister_timer(&mut self, idx: usize) -> (r: Result<(), Error>)
        requires
            old(self).wf(),
        ensures
            final(self).wf(),
            final(self).tick == old(self).tick,
            final(self).scheduler == old(self).scheduler,
            idx < MAX_CALLBACKS && old(self).handlers@[idx as int] is Some ==> r == Ok::<(), Error>(())
                && final(self).handlers@ == old(self).handlers@.update(idx as int, None),
            !(idx < MAX_CALLBACKS && old(self).handlers@[idx as int] is Some) ==> r == Err::<(), Error>(
                Error::ENOENT,
            ) && final(self).handlers@ == old(self).handlers@,
    {
        if idx >= MAX_CALLBACKS || self.handlers[idx].is_none() {
            return Err(Error::ENOENT);
        }
        self.handlers.set(idx, None);
        Ok(())
    }

    /// Installs the scheduler callback; fails with `EAGAIN` when one is
    /// installed already.
    pub fn register_scheduler(&mut self, func: H) -> (r: Result<(), Error>)
        ensures
            final(self).handlers == old(self).handlers,
            final(self).tick == old(self).tick,
            old(self).scheduler is Some ==> r == Err::<(), Error>(Error::EAGAIN) && final(self).scheduler
                == old(self).scheduler,
            old(self).scheduler is None ==> r == Ok::<(), Error>(()) && final(self).scheduler == Some(
                func,
            ),
    {
        if self.scheduler.is_some() {
            return Err(Error::EAGAIN);
        }
        self.scheduler = Some(func);
        Ok(())
    }

    /// Counts one tick and returns the new count; the count starts over
    /// from 1 after `TIMER_WRAP`.
    pub fn advance(&mut self) -> (r: u64)
        requires
            old(self).wf(),
        ensures
            final(self).wf(),
            r == final(self).tick,
            r == if old(self).tick >= TIMER_WRAP { 1 } else { old(self).tick + 1 },
            final(self).handlers == old(self).handlers,
            final(self).scheduler == old(self).scheduler,
    {
        if self.tick >= TIMER_WRAP {
            self.tick = 0;
        }
        self.tick = self.tick + 1;
        self.tick
    }

    /// The registered callbacks, in slot order.
    pub fn callbacks(&self) -> (r: Vec<H>)
        requires
            self.wf(),
        ensures
            r@ == registered(self.handlers@, MAX_CALLBACKS as int),
    {
        let mut r: Vec<H> = Vec::new();
        let mut i: usize = 0;
        while i < MAX_CALLBACKS
            invariant
                i <= MAX_CALLBACKS,
                self.wf(),
                r@ == registered(self.handlers@, i as int),
            decreases MAX_CALLBACKS - i,
        {
            match self.handlers[i] {
                Some(h) => {
                    r.push(h);
                },
                None => {},
            }
            i += 1;
        }
        r
    }
}

/// The callbacks held by the first `n` slots, in slot order.
pub open spec fn registered<H>(slots: Seq<Option<H>>, n: int) -> Seq<H>
    decreases n,
{
    if n <= 0 {
        Seq::empty()
    } else {
        match slots[n - 1] {
            Some(h) => registered(slots, n - 1).push(h),
            None => registered(slots, n - 1),
        }
    }
}

/// Registers a periodic timer callback (see `Timer::register_timer`).
pub fn register_timer<H: Copy>(timer: &mut Timer<H>, func: H) -> (r: Result<usize, Error>)
    requires
        old(timer).wf(),
    ensures
        final(timer).wf(),
        match r {
            Ok(i) => i < MAX_CALLBACKS && old(timer).handlers@[i as int] is None && (forall|j: int|
                0 <= j < i ==> old(timer).handlers@[j] is Some) && final(timer).handlers@ == old(
                timer,
            ).handlers@.update(i as int, Some(func)),
            Err(e) => e == Error::EFULL && final(timer).handlers@ == old(timer).handlers@,
        },
{
    timer.register_timer(func)
}

/// Unregisters the periodic timer callback in slot `idx`.
pub fn unregister_timer<H: Copy>(timer: &mut Timer<H>, idx: usize) -> (r: Result<(), Error>)
    requires
        old(timer).wf(),
    ensures
        final(timer).wf(),
        idx < MAX_CALLBACKS && old(timer).handlers@[idx as int] is Some ==> r == Ok::<(), Error>(())
            && final(timer).handlers@ == old(timer).handlers@.update(idx as int, None),
        !(idx < MAX_CALLBACKS && old(timer).handlers@[idx as int] is Some) ==> r == Err::<(), Error>(
            Error::ENOENT,
        ) && final(timer).handlers@ == old(timer).handlers@,
{
    timer.unregister_timer(idx)
}

/// Installs the scheduler callback (see `Timer::register_scheduler`).
pub fn register_scheduler<H: Copy>(timer: &mut Timer<H>, func: H) -> (r: Result<(), Error>)
    ensures
        old(timer).scheduler is Some ==> r == Err::<(), Error>(Error::EAGAIN) && final(timer).scheduler
            == old(timer).scheduler,
        old(timer).scheduler is None ==> r == Ok::<(), Error>(()) && final(timer).scheduler == Some(
            func,
        ),
        final(timer).handlers == old(timer).handlers,
{
    timer.register_scheduler(func)
}

} // verus!
