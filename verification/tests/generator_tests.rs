use arithmetics::{collect_parsed, decimal_strings, parse_all, Lcg};

#[test]
fn lcg_first_values() {
    let mut g = Lcg::new(0);
    // state 1442695040888963407 -> high 32 bits
    assert_eq!(g.next(), 1442695040888963407u64 >> 32);
    let s1 = 1442695040888963407u64;
    let s2 = s1.wrapping_mul(6364136223846793005).wrapping_add(1442695040888963407);
    assert_eq!(g.next(), s2 >> 32);
}

#[test]
fn lcg_is_deterministic() {
    let mut a = Lcg::new(42);
    let mut b = Lcg::new(42);
    for _ in 0..100 {
        let x = a.next();
        assert_eq!(x, b.next());
        assert!(x < (1u64 << 32));
    }
}

#[test]
fn decimal_strings_doc_example() {
    let s = decimal_strings(1, 3, 2, 100, 10_000);
    assert_eq!(s.len(), 3);
    assert!(s.iter().all(|x| x.contains('.')));
}

#[test]
fn decimal_strings_match_generator() {
    let s = decimal_strings(7, 50, 3, 500, 2000);
    let mut g = Lcg::new(7);
    for x in &s {
        let units = 500 + g.next() % 1501;
        assert_eq!(*x, format!("{}.{:03}", units / 1000, units % 1000));
        let (int_part, frac) = x.split_once('.').unwrap();
        assert_eq!(frac.len(), 3);
        let back: u64 = int_part.parse::<u64>().unwrap() * 1000 + frac.parse::<u64>().unwrap();
        assert!((500..=2000).contains(&back));
    }
}

#[test]
fn decimal_strings_edge_cases() {
    // A single value, no fractional digits: the integer alone.
    assert_eq!(decimal_strings(3, 2, 0, 5, 5), vec!["5".to_string(), "5".to_string()]);
    assert_eq!(decimal_strings(3, 1, 0, 0, 0), vec!["0".to_string()]);
    for s in decimal_strings(8, 50, 0, 0, 1_000_000) {
        assert!(!s.contains('.'));
        assert!(s.parse::<u64>().unwrap() <= 1_000_000);
    }
    // Leading zeros of the fraction are kept.
    assert_eq!(decimal_strings(9, 1, 4, 7, 7), vec!["0.0007".to_string()]);
    assert!(decimal_strings(1, 0, 2, 0, 10).is_empty());
    // Nineteen fractional digits.
    let s = decimal_strings(5, 1, 19, 1, 1);
    assert_eq!(s, vec!["0.0000000000000000001".to_string()]);
}

#[test]
fn parse_all_parses_in_order() {
    let strings = decimal_strings(11, 20, 2, 100, 10_000);
    let values: Vec<f64> = parse_all(&strings).unwrap();
    assert_eq!(values.len(), 20);
    for (s, v) in strings.iter().zip(values.iter()) {
        assert_eq!(s.parse::<f64>().unwrap(), *v);
    }
    let bad = vec!["1.5".to_string(), "x".to_string(), "2".to_string()];
    assert_eq!(parse_all::<f64>(&bad).unwrap_err(), 1);
    let ints: Result<Vec<u32>, usize> = parse_all(&vec!["1".to_string(), "2.5".to_string()]);
    assert_eq!(ints.unwrap_err(), 1);
}

#[test]
fn collect_parsed_reports_first_refusal() {
    assert_eq!(collect_parsed(vec![Some(1), Some(2)]), Ok(vec![1, 2]));
    assert_eq!(collect_parsed(vec![Some(1), None, None]), Err(1));
    assert_eq!(collect_parsed::<u8>(vec![]), Ok(vec![]));
}

fn units(s: &str) -> u64 {
    s.replace('.', "").parse::<u64>().unwrap()
}

#[test]
fn bench_ranges_stay_in_bounds() {
    let a = decimal_strings(0xA11CE, 1000, 2, 100, 10_000);
    let b = decimal_strings(0xB0B, 1000, 2, 100, 10_000);
    for (x, y) in a.iter().zip(b.iter()) {
        let (x, y) = (units(x), units(y));
        assert!(x >= 100 && y >= 100);
        assert!(x + y <= 20_000);
        assert!(x * y <= 100_000_000);
    }
    let a = decimal_strings(0xD07, 1000, 3, 500, 2_000);
    let b = decimal_strings(0x5EED, 1000, 3, 500, 2_000);
    let sum: u64 = a.iter().map(|x| units(x)).sum();
    let dot: u64 = a.iter().zip(b.iter()).map(|(x, y)| units(x) * units(y)).sum();
    assert!(sum <= 2_000_000);
    assert!(dot <= 4_000_000_000);
}
