use agenda_generator::issue::keep_unseen;
use agenda_generator::{Collector, Generator, Issue};

fn issue(number: u32, url: &str) -> Issue {
    Issue { number, html_url: url.to_string(), title: format!("issue {}", number), labels: Vec::new() }
}

fn numbers(issues: &[Issue]) -> Vec<u32> {
    issues.iter().map(|i| i.number).collect()
}

#[test]
fn insert_is_true_exactly_once_for_each_url() {
    let mut seen = Collector::new();
    assert!(seen.insert("https://example.org/1".to_string()));
    assert!(!seen.insert("https://example.org/1".to_string()));
    assert!(seen.insert("https://example.org/2".to_string()));
    assert!(!seen.insert("https://example.org/1".to_string()));
    assert!(!seen.insert("https://example.org/2".to_string()));
    assert!(!seen.insert("https://example.org/1".to_string()));
}

#[test]
fn insert_counts_distinct_urls_in_a_long_run() {
    let mut seen = Collector::new();
    let mut firsts = 0;
    for round in 0..5 {
        for n in 0..20 {
            if seen.insert(format!("https://example.org/{}", n)) {
                firsts += 1;
                assert_eq!(round, 0);
            }
        }
    }
    assert_eq!(firsts, 20);
}

#[test]
fn contains_tells_what_was_inserted() {
    let mut seen = Collector::new();
    assert!(!seen.contains("a"));
    seen.insert("a".to_string());
    assert!(seen.contains("a"));
    assert!(!seen.contains("b"));
    assert!(!seen.contains(""));
    seen.insert(String::new());
    assert!(seen.contains(""));
}

#[test]
fn a_new_collector_has_seen_nothing() {
    let mut first = Collector::new();
    assert!(first.insert("u".to_string()));
    let mut second = Collector::new();
    assert!(second.insert("u".to_string()));
}

#[test]
fn keep_unseen_drops_what_was_seen_and_repeats() {
    let mut seen = Collector::new();
    seen.insert("u2".to_string());
    let kept = keep_unseen(
        &mut seen,
        vec![issue(1, "u1"), issue(2, "u2"), issue(3, "u3"), issue(4, "u1"), issue(5, "u3")],
    );
    assert_eq!(numbers(&kept), vec![1, 3]);
    assert!(seen.contains("u1"));
    assert!(seen.contains("u2"));
    assert!(seen.contains("u3"));
    let again = keep_unseen(&mut seen, vec![issue(6, "u1"), issue(7, "u4")]);
    assert_eq!(numbers(&again), vec![7]);
}

#[test]
fn dedup_remembers_across_calls() {
    let mut generator = Generator::default();
    let first = generator.dedup(vec![issue(1, "a"), issue(2, "b")]);
    assert_eq!(numbers(&first), vec![1, 2]);
    let second = generator.dedup(vec![issue(3, "b"), issue(4, "c"), issue(5, "a")]);
    assert_eq!(numbers(&second), vec![4]);
    let third = generator.dedup(vec![issue(6, "a"), issue(7, "b"), issue(8, "c")]);
    assert_eq!(numbers(&third), Vec::<u32>::new());
    assert_eq!(generator.agenda(), "");
}

#[test]
fn dedup_is_per_generator() {
    let mut one = Generator::default();
    let mut two = Generator::default();
    assert_eq!(numbers(&one.dedup(vec![issue(1, "a")])), vec![1]);
    assert_eq!(numbers(&two.dedup(vec![issue(1, "a")])), vec![1]);
}
