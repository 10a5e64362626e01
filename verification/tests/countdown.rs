use timers::Countdown;
use timers::TickStep;

#[test]
fn test_zero_duration_notifies_once_without_render() {
    let mut countdown = Countdown::new(0);
    assert!(!countdown.is_complete());
    assert_eq!(countdown.step(), TickStep::Finished);
    assert!(countdown.is_complete());
}

#[test]
fn test_five_ticks_count_down_then_finish() {
    let mut countdown = Countdown::new(5);
    let mut renders: Vec<(usize, usize)> = Vec::new();
    loop {
        if countdown.is_complete() {
            break;
        }
        match countdown.step() {
            TickStep::Render {
                remaining,
                deadline_offset,
            } => renders.push((remaining, deadline_offset)),
            TickStep::Finished => break,
        }
    }
    // one render per second, counting down, each deadline one second after
    // the one before, measured from the fixed start instant
    assert_eq!(renders, vec![(5, 1), (4, 2), (3, 3), (2, 4), (1, 5)]);
    assert!(countdown.is_complete());
}

#[test]
fn test_remaining_decreases_by_one_per_tick() {
    let mut countdown = Countdown::new(3);
    assert_eq!(countdown.remaining(), 3);
    countdown.step();
    assert_eq!(countdown.remaining(), 2);
    countdown.step();
    assert_eq!(countdown.remaining(), 1);
    countdown.step();
    assert_eq!(countdown.remaining(), 0);
    assert!(!countdown.is_complete());
    assert_eq!(countdown.step(), TickStep::Finished);
    assert!(countdown.is_complete());
}

#[test]
fn test_single_second() {
    let mut countdown = Countdown::new(1);
    assert_eq!(
        countdown.step(),
        TickStep::Render {
            remaining: 1,
            deadline_offset: 1
        }
    );
    assert_eq!(countdown.step(), TickStep::Finished);
}
