use reticulum_node::lora::config::Region;
use reticulum_node::lora::config::BANDWIDTH_HZ;
use reticulum_node::lora::config::CODING_RATE;
use reticulum_node::lora::config::DUTY_CYCLE_WINDOW_US;
use reticulum_node::lora::config::LORA_MTU;
use reticulum_node::lora::config::SPREADING_FACTOR;
use reticulum_node::lora::config::SYNC_WORD;
use reticulum_node::lora::duty_cycle::DutyCycleLimiter;

const HOUR: u64 = 3_600_000_000;

#[test]
fn test_new_limiter_has_full_budget() {
    let limiter = DutyCycleLimiter::new(1, HOUR);
    assert_eq!(limiter.budget(), 36_000_000);
}

#[test]
fn test_consume_reduces_budget() {
    let mut limiter = DutyCycleLimiter::new(1, HOUR);
    let initial = limiter.remaining_at(0);
    assert!(limiter.try_consume_at(1_000_000, 0));
    assert_eq!(limiter.remaining_at(0), initial - 1_000_000);
}

#[test]
fn test_consume_fails_when_exceeded() {
    let mut limiter = DutyCycleLimiter::new(1, HOUR);
    let budget = limiter.budget();
    assert!(limiter.try_consume_at(budget, 0));
    assert!(!limiter.try_consume_at(1, 0));
    assert_eq!(limiter.remaining_at(0), 0);
}

#[test]
fn test_partial_consume_when_not_enough() {
    let mut limiter = DutyCycleLimiter::new(1, HOUR);
    let budget = limiter.budget();
    assert!(limiter.try_consume_at(budget - 100, 0));
    assert!(!limiter.try_consume_at(200, 0));
    assert_eq!(limiter.remaining_at(0), 100);
}

#[test]
fn test_duty_cycle_exhaustion() {
    let mut limiter = DutyCycleLimiter::new(1, HOUR);
    assert_eq!(limiter.budget(), 36_000_000);
    for _ in 0..10 {
        assert!(limiter.try_consume_at(3_600_000, 0));
    }
    let before = limiter.remaining_at(0);
    assert!(!limiter.try_consume_at(3_600_000, 0));
    assert_eq!(limiter.remaining_at(0), before);
    assert_eq!(before, 0);
}

#[test]
fn test_budget_flows_back_with_time() {
    let mut limiter = DutyCycleLimiter::with_budget(1_000, 10_000);
    let start = 1_000_000;
    // the refill time of a new limiter is the reading of its own clock,
    // which has just started; the first call moves it to `start`
    assert!(limiter.try_consume_at(1_000, start));
    assert_eq!(limiter.remaining_at(start), 0);
    // 9 microseconds bring back 0.9 of a unit: nothing yet, the time is kept
    assert_eq!(limiter.remaining_at(start + 9), 0);
    assert_eq!(limiter.remaining_at(start + 10), 1);
    // half a window brings back half the budget
    assert_eq!(limiter.remaining_at(start + 10 + 5_000), 501);
    // the bucket never holds more than the budget
    assert_eq!(limiter.remaining_at(start + 1_000_000), 1_000);
    assert!(limiter.try_consume_at(400, start + 1_000_000));
    assert_eq!(limiter.remaining_at(start + 1_000_000), 600);
}

#[test]
fn test_real_clock_limiter() {
    let mut limiter = DutyCycleLimiter::new(1, HOUR);
    assert!(limiter.try_consume(1_000_000));
    assert!(limiter.remaining() >= 35_000_000 - 1);
    assert!(limiter.remaining() <= 36_000_000);
    limiter.refill();
    assert!(!limiter.try_consume(36_000_000));
}

#[test]
fn test_different_duty_cycles() {
    let limiter = DutyCycleLimiter::new(10, HOUR);
    assert_eq!(limiter.budget(), 360_000_000);
    let limiter = DutyCycleLimiter::with_budget(3_600_000, HOUR);
    assert_eq!(limiter.budget(), 3_600_000);
    let limiter = DutyCycleLimiter::new(u32::MAX, u64::MAX);
    assert_eq!(limiter.budget(), u64::MAX);
}

#[test]
fn test_zero_budget_is_safe() {
    let mut limiter = DutyCycleLimiter::new(0, HOUR);
    assert_eq!(limiter.budget(), 0);
    assert!(!limiter.try_consume_at(1, 0));
    assert!(limiter.try_consume_at(0, 0));
    assert_eq!(limiter.remaining_basis_points(), 0);
}

#[test]
fn test_zero_window_never_refills() {
    let mut limiter = DutyCycleLimiter::with_budget(100, 0);
    assert!(limiter.try_consume_at(60, 5));
    assert_eq!(limiter.remaining_at(u64::MAX), 40);
}

#[test]
fn test_remaining_percent() {
    let mut limiter = DutyCycleLimiter::new(1, HOUR);
    assert_eq!(limiter.remaining_basis_points(), 10_000);
    let half = limiter.budget() / 2;
    assert!(limiter.try_consume_at(half, 0));
    assert_eq!(limiter.remaining_basis_points(), 5_000);
}

#[test]
fn test_multiple_small_consumptions() {
    let mut limiter = DutyCycleLimiter::new(1, HOUR);
    let budget = limiter.budget();
    let chunk = budget / 1000;
    for _ in 0..1000 {
        assert!(limiter.try_consume_at(chunk, 0));
    }
    assert!(limiter.remaining_at(0) < chunk);
}

#[test]
fn test_region_frequencies() {
    assert_eq!(Region::Eu868.frequency(), 868_100_000);
    assert_eq!(Region::Us915.frequency(), 915_000_000);
    assert_eq!(Region::Au915.frequency(), 915_000_000);
    assert_eq!(Region::As923.frequency(), 923_200_000);
}

#[test]
fn test_region_duty_cycle() {
    assert_eq!(Region::Eu868.duty_cycle_percent(), 1);
    assert_eq!(Region::Us915.duty_cycle_percent(), 10);
    assert_eq!(Region::Au915.duty_cycle_percent(), 10);
    assert_eq!(Region::As923.duty_cycle_percent(), 1);
}

#[test]
fn test_region_duty_cycle_limiter() {
    let limiter = Region::Eu868.duty_cycle_limiter();
    assert_eq!(limiter.budget(), 36_000_000);
    let limiter = Region::Us915.duty_cycle_limiter();
    assert_eq!(limiter.budget(), 360_000_000);
    for region in [Region::Eu868, Region::Us915, Region::Au915, Region::As923] {
        let mut limiter = region.duty_cycle_limiter();
        assert_eq!(limiter.budget(), DUTY_CYCLE_WINDOW_US * region.duty_cycle_percent() as u64 / 100);
        assert_eq!(limiter.remaining_at(0), limiter.budget());
    }
}

#[test]
fn test_default_region() {
    assert_eq!(Region::default(), Region::Eu868);
}

#[test]
fn test_standard_parameters() {
    assert_eq!(SPREADING_FACTOR, 7);
    assert_eq!(BANDWIDTH_HZ, 125_000);
    assert_eq!(CODING_RATE, 5);
    assert_eq!(SYNC_WORD, 0x12);
    assert_eq!(LORA_MTU, 500);
}
