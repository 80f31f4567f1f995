use gridworld::direction::{all_directions, Direction};
use gridworld::learner::{estimate_gt, Agent, ZERO_ESTIMATE};

fn bits(x: f32) -> u32 {
    x.to_bits()
}

fn sarsa(alpha: f32, gamma: f32, r: f32) -> impl Fn(u32, u32) -> u32 {
    move |now: u32, next: u32| {
        let now = f32::from_bits(now);
        let next = f32::from_bits(next);
        (now * (1.0 - alpha) + (next * gamma + r) * alpha).to_bits()
    }
}

#[test]
fn directions_in_fixed_order() {
    assert_eq!(
        all_directions(),
        [Direction::Left, Direction::Right, Direction::Up, Direction::Down]
    );
}

#[test]
fn unvisited_pair_reads_zero_twice() {
    let mut a = Agent::new();
    assert_eq!(a.get_q((2, 1), Direction::Up), ZERO_ESTIMATE);
    assert_eq!(f32::from_bits(ZERO_ESTIMATE), 0.0);
    assert_eq!(a.q.len(), 1);
    assert_eq!(a.get_q((2, 1), Direction::Up), ZERO_ESTIMATE);
    assert_eq!(a.q.len(), 1);
}

#[test]
fn set_then_get() {
    let mut a = Agent::new();
    a.set_q((0, 0), Direction::Down, bits(0.25));
    assert_eq!(f32::from_bits(a.get_q((0, 0), Direction::Down)), 0.25);
    a.set_q((0, 0), Direction::Down, bits(-0.5));
    assert_eq!(f32::from_bits(a.get_q((0, 0), Direction::Down)), -0.5);
    assert_eq!(a.q.len(), 1);
}

#[test]
fn greedy_ties_pick_left() {
    let mut a = Agent::new();
    assert_eq!(a.greedy((1, 1)), Direction::Left);
    assert_eq!(a.q.len(), 4);
    for d in all_directions() {
        a.set_q((3, 2), d, bits(-0.7));
    }
    assert_eq!(a.greedy((3, 2)), Direction::Left);
}

#[test]
fn greedy_picks_strict_maximum() {
    let mut a = Agent::new();
    a.set_q((1, 1), Direction::Up, bits(0.3));
    assert_eq!(a.greedy((1, 1)), Direction::Up);
    a.set_q((1, 1), Direction::Down, bits(0.9));
    assert_eq!(a.greedy((1, 1)), Direction::Down);
}

#[test]
fn greedy_earlier_wins_on_equal_values() {
    let mut a = Agent::new();
    a.set_q((0, 1), Direction::Right, bits(0.5));
    a.set_q((0, 1), Direction::Down, bits(0.5));
    assert_eq!(a.greedy((0, 1)), Direction::Right);
}

#[test]
fn greedy_with_all_negative_values() {
    let mut a = Agent::new();
    a.set_q((2, 0), Direction::Left, bits(-3.0));
    a.set_q((2, 0), Direction::Right, bits(-2.0));
    a.set_q((2, 0), Direction::Up, bits(-0.001));
    a.set_q((2, 0), Direction::Down, bits(-1.0));
    assert_eq!(a.greedy((2, 0)), Direction::Up);
}

#[test]
fn greedy_treats_both_zeros_as_equal() {
    let mut a = Agent::new();
    a.set_q((0, 0), Direction::Left, bits(-0.0));
    a.set_q((0, 0), Direction::Right, bits(0.0));
    a.set_q((0, 0), Direction::Up, bits(-1.0));
    a.set_q((0, 0), Direction::Down, bits(-1.0));
    assert_eq!(a.greedy((0, 0)), Direction::Left);
}

#[test]
fn estimate_comparison() {
    assert!(estimate_gt(bits(1.0), bits(-1.0)));
    assert!(!estimate_gt(bits(-1.0), bits(1.0)));
    assert!(estimate_gt(bits(-0.5), bits(-2.0)));
    assert!(estimate_gt(bits(2.5), bits(2.25)));
    assert!(!estimate_gt(bits(0.0), bits(-0.0)));
    assert!(!estimate_gt(bits(-0.0), bits(0.0)));
    assert!(!estimate_gt(bits(f32::NAN), bits(0.0)));
    assert!(!estimate_gt(bits(0.0), bits(f32::NAN)));
    assert!(estimate_gt(bits(f32::INFINITY), bits(f32::MAX)));
    assert!(estimate_gt(bits(f32::MIN), bits(f32::NEG_INFINITY)));
}

#[test]
fn first_update_from_empty_table() {
    let mut a = Agent::new();
    a.update_q((1, 1), Direction::Left, (1, 1), Direction::Left, sarsa(0.1, 0.99, -0.001));
    let v = f32::from_bits(a.get_q((1, 1), Direction::Left));
    let expected: f32 = 0.0 * 0.9 + (0.0 * 0.99 + (-0.001)) * 0.1;
    assert_eq!(v, expected);
    assert!((v - (-0.0001)).abs() < 1e-9);
    assert_eq!(a.q.len(), 1);
}

#[test]
fn update_keys_by_first_state() {
    let mut a = Agent::new();
    a.set_q((2, 0), Direction::Right, bits(1.0));
    a.set_q((1, 0), Direction::Right, bits(0.5));
    a.update_q((1, 0), Direction::Right, (2, 0), Direction::Right, sarsa(0.5, 1.0, 0.0));
    assert_eq!(f32::from_bits(a.get_q((1, 0), Direction::Right)), 0.75);
    assert_eq!(f32::from_bits(a.get_q((2, 0), Direction::Right)), 1.0);
    assert_eq!(f32::from_bits(a.get_q((1, 2), Direction::Right)), 0.0);
}

#[test]
fn update_stores_default_for_unvisited_next_pair() {
    let mut a = Agent::new();
    a.update_q((0, 2), Direction::Up, (0, 1), Direction::Down, sarsa(0.1, 0.99, 0.999));
    assert_eq!(a.q.len(), 2);
    assert_eq!(a.get_q((0, 1), Direction::Down), ZERO_ESTIMATE);
    let v = f32::from_bits(a.get_q((0, 2), Direction::Up));
    assert!((v - 0.0999).abs() < 1e-6);
}

#[test]
fn default_agent_is_empty() {
    let mut a = Agent::default();
    assert!(a.q.is_empty());
    assert_eq!(a.greedy((0, 0)), Direction::Left);
}
