use game_of_life::random::SeededSource;

#[test]
fn seeded_sources_repeat_their_draws() {
    let mut a = SeededSource::new(2024);
    let mut b = SeededSource::new(2024);
    for n in 1..200u32 {
        let x = a.next_below(n);
        let y = b.next_below(n);
        assert_eq!(x, y);
        assert!(x < n);
    }
}

#[test]
fn draws_below_large_bound_vary() {
    let mut a = SeededSource::new(5);
    let draws: Vec<u32> = (0..50).map(|_| a.next_below(1000)).collect();
    assert!(draws.iter().all(|&d| d < 1000));
    assert!(draws.iter().any(|&d| d != draws[0]));
    assert!(draws.iter().any(|&d| d != 1000 - 1));
}
