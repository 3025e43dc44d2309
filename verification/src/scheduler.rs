//! The dual-clock scheduler's decision logic.
//!
//! A run multiplexes two periodic clocks: a 60 Hz timer clock and an
//! instruction clock (700 Hz by default). The embedder blocks on whichever
//! clock is due next and hands the event here; this module decides what one
//! event does to the machine. An instruction-clock event performs one
//! fetch-decode-execute cycle, but only while the delay timer is zero —
//! while it is nonzero, CPU execution is paused and only timer decrements
//! occur.

use vstd::prelude::*;

use crate::instruction::Instruction;
use crate::instruction::spec_decode;
use crate::machine::Chip8Error;
use crate::machine::Chip8Interpreter;
use crate::machine::MachineModel;
use crate::machine::StepResult;
use crate::machine::spec_cycle;
use crate::machine::spec_fetch_word;

verus! {

/// The two periodic event sources the run loop multiplexes.
#[derive(Debug, Clone, Copy, PartialEq, Eq, Structural)]
pub enum ClockEvent {
    /// The 60 Hz timer clock fired.
    TimerTick,
    /// The instruction clock fired.
    CpuTick,
}

/// Timers after one timer-clock event: each decrements toward zero
/// independently, clamped at zero, never wrapping negative.
pub open spec fn spec_timer_tick(m: MachineModel) -> MachineModel {
    MachineModel {
        delay: if m.delay > 0 {
            (m.delay - 1) as u8
        } else {
            0
        },
        sound: if m.sound > 0 {
            (m.sound - 1) as u8
        } else {
            0
        },
        ..m
    }
}

/// What one clock event does: a timer tick decrements the timers; an
/// instruction tick runs one cycle, but only if the delay timer is zero.
pub open spec fn spec_on_event(m: MachineModel, event: ClockEvent, rnd: u8) -> (MachineModel, Result<
    StepResult,
    Chip8Error,
>) {
    match event {
        ClockEvent::TimerTick => (spec_timer_tick(m), Ok(StepResult::Running)),
        ClockEvent::CpuTick => if m.delay == 0 {
            spec_cycle(m, rnd)
        } else {
            (m, Ok(StepResult::Running))
        },
    }
}

/// The machine after a run of instruction-clock events, one per drawn random
/// byte, with no timer-clock event in between.
pub open spec fn spec_run_instruction_clock(m: MachineModel, rnds: Seq<u8>) -> MachineModel
    decreases rnds.len(),
{
    if rnds.len() == 0 {
        m
    } else {
        spec_run_instruction_clock(
            spec_on_event(m, ClockEvent::CpuTick, rnds[0]).0,
            rnds.drop_first(),
        )
    }
}

/// Scheduler gating law: while the delay timer is nonzero, repeated
/// instruction-clock events leave the machine — the program counter among
/// the rest — entirely unchanged; only timer-clock events make progress.
pub proof fn lemma_gating_repeated(m: MachineModel, rnds: Seq<u8>)
    requires
        m.delay != 0,
    ensures
        spec_run_instruction_clock(m, rnds) == m,
    decreases rnds.len(),
{
    if rnds.len() > 0 {
        lemma_gating_repeated(m, rnds.drop_first());
    }
}

/// The period, in whole milliseconds, of a periodic clock with the given
/// rate (the 60 Hz timer clock waits 16 ms; the default 700 Hz instruction
/// clock waits 1 ms).
pub fn tick_period_ms(rate_hz: u64) -> (r: u64)
    requires
        rate_hz > 0,
    ensures
        r == 1000 as int / rate_hz as int,
{
    1000 / rate_hz
}

impl Chip8Interpreter {
    /// Dispatch one clock event with the random source's draw handed in.
    /// Deterministic: the machine afterwards is exactly what `spec_on_event`
    /// says. While the delay timer is nonzero an instruction-clock event
    /// changes nothing.
    pub fn on_event_with(&mut self, event: ClockEvent, rnd: u8) -> (r: Result<
        StepResult,
        Chip8Error,
    >)
        requires
            old(self)@.wf(),
            event is CpuTick && old(self)@.delay == 0 ==> old(self)@.pc + 1 < 4096 && (spec_decode(
                spec_fetch_word(old(self)@),
            ) matches Some(Instruction::IDXYN(op)) ==> old(self)@.i + op.n <= 4096),
        ensures
            final(self)@ == spec_on_event(old(self)@, event, rnd).0,
            r == spec_on_event(old(self)@, event, rnd).1,
            final(self)@.wf(),
            event is CpuTick && old(self)@.delay != 0 ==> final(self)@ == old(self)@ && r == Ok::<
                StepResult,
                Chip8Error,
            >(StepResult::Running),
    {
        match event {
            ClockEvent::TimerTick => {
                if self.delay_timer() != 0 {
                    let d = self.delay_timer();
                    self.set_delay_timer(d - 1);
                }
                if self.sound_timer() != 0 {
                    let s = self.sound_timer();
                    self.set_sound_timer(s - 1);
                }
                Ok(StepResult::Running)
            },
            ClockEvent::CpuTick => {
                if self.delay_timer() == 0 {
                    self.exec_with(rnd)
                } else {
                    Ok(StepResult::Running)
                }
            },
        }
    }

    /// Dispatch one clock event, drawing from the random source. Only an
    /// ungated instruction-clock event that fetches the random-AND
    /// instruction consumes the draw.
    pub fn on_event(&mut self, event: ClockEvent) -> (r: Result<StepResult, Chip8Error>)
        requires
            old(self)@.wf(),
            event is CpuTick && old(self)@.delay == 0 ==> old(self)@.pc + 1 < 4096 && (spec_decode(
                spec_fetch_word(old(self)@),
            ) matches Some(Instruction::IDXYN(op)) ==> old(self)@.i + op.n <= 4096),
        ensures
            exists|rnd: u8|
                final(self)@ == #[trigger] spec_on_event(old(self)@, event, rnd).0 && r
                    == spec_on_event(old(self)@, event, rnd).1,
            final(self)@.wf(),
            event is CpuTick && old(self)@.delay != 0 ==> final(self)@ == old(self)@ && r == Ok::<
                StepResult,
                Chip8Error,
            >(StepResult::Running),
    {
        let rnd = crate::machine::random_byte();
        let r = self.on_event_with(event, rnd);
        proof {
            assert(self@ == spec_on_event(old(self)@, event, rnd).0 && r == spec_on_event(
                old(self)@,
                event,
                rnd,
            ).1);
        }
        r
    }
}

} // verus!
