use chip8::machine::Chip8Interpreter;
use chip8::machine::StepResult;
use chip8::scheduler::tick_period_ms;
use chip8::scheduler::ClockEvent;

#[test]
fn timer_ticks_decrement_both_timers_toward_zero() {
    let mut cpu = Chip8Interpreter::new(false);
    cpu.set_delay_timer(2);
    cpu.set_sound_timer(1);
    assert_eq!(cpu.on_event(ClockEvent::TimerTick), Ok(StepResult::Running));
    assert_eq!(cpu.delay_timer(), 1);
    assert_eq!(cpu.sound_timer(), 0);
    assert_eq!(cpu.on_event(ClockEvent::TimerTick), Ok(StepResult::Running));
    assert_eq!(cpu.delay_timer(), 0);
    assert_eq!(cpu.sound_timer(), 0);
    // Clamped at zero: a further tick never wraps negative.
    assert_eq!(cpu.on_event(ClockEvent::TimerTick), Ok(StepResult::Running));
    assert_eq!(cpu.delay_timer(), 0);
    assert_eq!(cpu.sound_timer(), 0);
}

#[test]
fn cpu_ticks_are_gated_while_the_delay_timer_runs() {
    let mut cpu = Chip8Interpreter::new(false);
    // A program that would visibly advance: v[1] = 0x12.
    let rom: Vec<u8> = vec![0x61, 0x12];
    cpu.load_rom(&rom).unwrap();
    cpu.set_delay_timer(2);
    // Repeated instruction-clock events change nothing while the delay timer
    // is nonzero.
    for _ in 0..5 {
        assert_eq!(cpu.on_event(ClockEvent::CpuTick), Ok(StepResult::Running));
        assert_eq!(cpu.pc(), 0x200);
        assert_eq!(cpu.reg_v(1), 0);
    }
    // Two timer ticks drain the delay timer; only then does a CPU tick
    // perform a cycle.
    cpu.on_event(ClockEvent::TimerTick).unwrap();
    assert_eq!(cpu.on_event(ClockEvent::CpuTick), Ok(StepResult::Running));
    assert_eq!(cpu.pc(), 0x200);
    cpu.on_event(ClockEvent::TimerTick).unwrap();
    assert_eq!(cpu.on_event(ClockEvent::CpuTick), Ok(StepResult::Running));
    assert_eq!(cpu.pc(), 0x202);
    assert_eq!(cpu.reg_v(1), 0x12);
}

#[test]
fn clock_periods_match_the_reference_rates() {
    // The 60 Hz timer clock and the default 700 Hz instruction clock.
    assert_eq!(tick_period_ms(60), 16);
    assert_eq!(tick_period_ms(700), 1);
    assert_eq!(tick_period_ms(1000), 1);
}
