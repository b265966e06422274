use clipsync::received::{select_over_cap, MAX_RECEIVED_OFFERS};

#[test]
fn global_cap_keeps_newest_three_across_both_lists() {
    // Two older ones of the local network and two newer ones from beyond: the oldest goes.
    let pending = vec![("p-old".to_string(), 100), ("p-new".to_string(), 400)];
    let cross = vec![(0usize, 200), (1usize, 300)];
    let (drop_p, drop_c) = select_over_cap(&pending, &cross, MAX_RECEIVED_OFFERS);
    assert_eq!(drop_p, vec!["p-old".to_string()]);
    assert!(drop_c.is_empty());

    // The older ones are from beyond: their positions come last first.
    let pending = vec![("p1".to_string(), 900), ("p2".to_string(), 800)];
    let cross = vec![(0usize, 100), (1usize, 200), (2usize, 150)];
    let (drop_p, drop_c) = select_over_cap(&pending, &cross, MAX_RECEIVED_OFFERS);
    assert!(drop_p.is_empty());
    assert_eq!(drop_c, vec![2usize, 0usize]);

    // Not too many: nothing is dropped.
    let (drop_p, drop_c) =
        select_over_cap(&[("a".to_string(), 1)], &[(0usize, 2)], MAX_RECEIVED_OFFERS);
    assert!(drop_p.is_empty() && drop_c.is_empty());

    // All from one source.
    let many: Vec<(String, u64)> = (0..5u64).map(|i| (format!("p{i}"), i)).collect();
    let (drop_p, _) = select_over_cap(&many, &[], MAX_RECEIVED_OFFERS);
    assert_eq!(drop_p.len(), 2, "5 条只留 3 条，丢 2 条");
    let mut dropped = drop_p;
    dropped.sort();
    assert_eq!(dropped, vec!["p0".to_string(), "p1".to_string()]);
}
