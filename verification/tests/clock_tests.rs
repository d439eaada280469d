use radicle_node::clock::Clock;

#[test]
fn the_clock_advances_and_never_runs_backwards() {
    let mut c = Clock::new(100);
    assert_eq!(c.now(), 100);
    c.advance(50);
    assert_eq!(c.now(), 150);
    c.set(120);
    assert_eq!(c.now(), 150);
    c.set(200);
    assert_eq!(c.now(), 200);
}
