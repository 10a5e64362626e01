use std::time::Duration;

use timers::Countdown;
use timers::TickStep;

#[test]
fn test_absolute_schedule_prevents_drift() {
    let runtime = tokio::runtime::Builder::new_current_thread()
        .enable_time()
        .build()
        .unwrap();
    runtime.block_on(async {
        let start = tokio::time::Instant::now();
        let mut countdown = Countdown::new(5);
        let mut wakeups: Vec<Duration> = Vec::new();
        loop {
            if countdown.is_complete() {
                break;
            }
            match countdown.step() {
                TickStep::Render {
                    remaining: _,
                    deadline_offset,
                } => {
                    // artificially slow rendering; chained relative sleeps
                    // would accumulate this as drift, the absolute schedule
                    // must not
                    tokio::time::sleep(Duration::from_millis(400)).await;
                    tokio::time::sleep_until(start + Duration::from_secs(deadline_offset as u64))
                        .await;
                    wakeups.push(start.elapsed());
                }
                TickStep::Finished => break,
            }
        }
        assert_eq!(wakeups.len(), 5);
        for (i, elapsed) in wakeups.iter().enumerate() {
            let target = Duration::from_secs((i + 1) as u64);
            let drift = if *elapsed > target {
                *elapsed - target
            } else {
                target - *elapsed
            };
            assert!(
                drift < Duration::from_millis(300),
                "tick {} drifted {:?}",
                i,
                drift
            );
        }
    });
}
