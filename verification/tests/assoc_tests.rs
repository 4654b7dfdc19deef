use arithmetics::assoc::group_by_key;

#[test]
fn groups_values_by_name_in_order() {
    let items = vec![
        ("f64".to_string(), 1u32),
        ("rust_decimal".to_string(), 2),
        ("f64".to_string(), 3),
        ("bigdecimal".to_string(), 4),
        ("rust_decimal".to_string(), 5),
    ];
    let groups = group_by_key(&items);
    assert_eq!(
        groups,
        vec![
            ("f64".to_string(), vec![1, 3]),
            ("rust_decimal".to_string(), vec![2, 5]),
            ("bigdecimal".to_string(), vec![4]),
        ]
    );
}

#[test]
fn grouping_nothing_gives_nothing() {
    let items: Vec<(String, f64)> = Vec::new();
    assert!(group_by_key(&items).is_empty());
}

#[test]
fn grouping_floats_keeps_every_value() {
    let items = vec![("a".to_string(), 0.5f64), ("a".to_string(), 0.25), ("b".to_string(), 2.0)];
    let groups = group_by_key(&items);
    let sums: Vec<(String, f64)> = groups.iter().map(|(k, v)| (k.clone(), v.iter().sum())).collect();
    assert_eq!(sums, vec![("a".to_string(), 0.75), ("b".to_string(), 2.0)]);
}
