use benchmark_engine::ranking::sort;
use benchmark_engine::registry::Registry;

fn text(value: &str) -> String {
    String::from(value)
}

#[test]
fn registry_starts_empty() {
    let registry: Registry<u32> = Registry::new();
    assert_eq!(registry.len(), 0);
    assert_eq!(registry.get(&text("a")), None);
    assert!(!registry.contains(&text("a")));
    assert_eq!(registry.find(&text("a")), None);
}

#[test]
fn registry_keeps_records_in_order_of_arrival() {
    let mut registry: Registry<u32> = Registry::new();
    registry.insert(text("b"), 2);
    registry.insert(text("a"), 1);
    registry.insert(text("c"), 3);
    assert_eq!(registry.len(), 3);
    assert_eq!(registry.key_at(0), &text("b"));
    assert_eq!(registry.key_at(1), &text("a"));
    assert_eq!(registry.key_at(2), &text("c"));
    assert_eq!(registry.value_at(1), &1);
    assert_eq!(registry.find(&text("c")), Some(2));
    assert_eq!(registry.get(&text("a")), Some(&1));
    assert!(registry.contains(&text("b")));
    assert!(!registry.contains(&text("d")));
}

#[test]
fn registry_replaces_the_record_under_a_key_in_its_place() {
    let mut registry: Registry<u32> = Registry::new();
    registry.insert(text("b"), 2);
    registry.insert(text("a"), 1);
    registry.insert(text("b"), 20);
    assert_eq!(registry.len(), 2);
    assert_eq!(registry.key_at(0), &text("b"));
    assert_eq!(registry.get(&text("b")), Some(&20));
    assert_eq!(registry.get(&text("a")), Some(&1));
}

#[test]
fn sort_orders_numbers_upwards() {
    assert_eq!(sort(&vec![3, -1, 2, 3, 0]), vec![-1, 0, 2, 3, 3]);
    assert_eq!(sort(&Vec::<i32>::new()), Vec::<i32>::new());
    assert_eq!(sort(&vec![i32::MAX, i32::MIN]), vec![i32::MIN, i32::MAX]);
}

#[test]
fn sort_agrees_with_the_standard_sort() {
    let mut state: u32 = 12345;
    let mut numbers: Vec<i32> = Vec::new();
    for _ in 0..1000 {
        state = state.wrapping_mul(1664525).wrapping_add(1013904223);
        numbers.push((state >> 16) as i32 % 100 - 50);
    }
    let mut expected = numbers.clone();
    expected.sort();
    assert_eq!(sort(&numbers), expected);
}
