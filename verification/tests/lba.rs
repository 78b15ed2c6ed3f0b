use crossgate::lba::{parse_lba, LoadBalancerAlgorithm, RoundRobinCounter};

fn addresses(list: &[&str]) -> Vec<String> {
    list.iter().map(|s| s.to_string()).collect()
}

#[test]
fn nothing_is_selected_out_of_no_addresses() {
    let mut counter = RoundRobinCounter::new();
    let none: Vec<String> = vec![];
    assert_eq!(LoadBalancerAlgorithm::RoundRobin.select_address(&none, &mut counter), None);
    assert_eq!(LoadBalancerAlgorithm::Random.select_address(&none, &mut counter), None);
    assert_eq!(
        LoadBalancerAlgorithm::Strict("10.0.0.1:80".to_string()).select_address(&none, &mut counter),
        None
    );
    // no ticket was drawn
    assert_eq!(counter.take(), 0);
}

#[test]
fn round_robin_takes_each_address_in_turn() {
    let list = addresses(&["10.0.0.1:80", "10.0.0.2:80", "10.0.0.3:80"]);
    let mut counter = RoundRobinCounter::new();
    let lba = LoadBalancerAlgorithm::RoundRobin;
    let mut seen = vec![];
    for _ in 0..7 {
        seen.push(lba.select_address(&list, &mut counter).unwrap());
    }
    assert_eq!(
        seen,
        addresses(&[
            "10.0.0.1:80",
            "10.0.0.2:80",
            "10.0.0.3:80",
            "10.0.0.1:80",
            "10.0.0.2:80",
            "10.0.0.3:80",
            "10.0.0.1:80"
        ])
    );
}

#[test]
fn round_robin_visits_every_address_in_any_window() {
    let list = addresses(&["a", "b", "c", "d", "e"]);
    let lba = LoadBalancerAlgorithm::RoundRobin;
    for start in [0usize, 1, 3, 4, 7, 1000, 12345] {
        let mut seen: Vec<String> = (0..list.len())
            .map(|k| lba.pick(&list, start + k, 0).unwrap())
            .collect();
        seen.sort();
        assert_eq!(seen, list);
    }
}

#[test]
fn pick_indexes_by_ticket_and_by_roll() {
    let list = addresses(&["a", "b", "c"]);
    assert_eq!(LoadBalancerAlgorithm::RoundRobin.pick(&list, 4, 99), Some("b".to_string()));
    assert_eq!(LoadBalancerAlgorithm::Random.pick(&list, 99, 2), Some("c".to_string()));
    assert_eq!(LoadBalancerAlgorithm::Random.pick(&list, 99, 3), Some("a".to_string()));
    assert_eq!(
        LoadBalancerAlgorithm::RoundRobin.pick(&list, usize::MAX, 0),
        Some(list[usize::MAX % 3].clone())
    );
}

#[test]
fn the_counter_starts_again_after_its_largest_value() {
    let mut counter = RoundRobinCounter::new();
    assert_eq!(counter.take(), 0);
    assert_eq!(counter.take(), 1);
    assert_eq!(counter.take(), 2);
}

#[test]
fn random_selects_one_of_the_addresses() {
    let list = addresses(&["10.0.0.1:80", "10.0.0.2:80", "10.0.0.3:80"]);
    let mut counter = RoundRobinCounter::new();
    for _ in 0..200 {
        let chosen = LoadBalancerAlgorithm::Random.select_address(&list, &mut counter).unwrap();
        assert!(list.contains(&chosen));
    }
    // random draws no ticket
    assert_eq!(counter.take(), 0);
}

#[test]
fn random_reaches_more_than_one_address() {
    let list = addresses(&["a", "b", "c", "d"]);
    let mut counter = RoundRobinCounter::new();
    let mut seen = std::collections::BTreeSet::new();
    for _ in 0..400 {
        seen.insert(LoadBalancerAlgorithm::Random.select_address(&list, &mut counter).unwrap());
    }
    assert!(seen.len() > 1);
}

#[test]
fn strict_selects_the_pin_if_and_only_if_it_is_registered() {
    let list = addresses(&["10.0.0.1:80", "10.0.0.2:80"]);
    let mut counter = RoundRobinCounter::new();
    assert_eq!(
        LoadBalancerAlgorithm::Strict("10.0.0.2:80".to_string()).select_address(&list, &mut counter),
        Some("10.0.0.2:80".to_string())
    );
    assert_eq!(
        LoadBalancerAlgorithm::Strict("10.0.0.3:80".to_string()).select_address(&list, &mut counter),
        None
    );
    assert_eq!(
        LoadBalancerAlgorithm::Strict(String::new()).select_address(&list, &mut counter),
        None
    );
    assert_eq!(counter.take(), 0);
}

#[test]
fn tags_are_written_without_the_pin() {
    assert_eq!(LoadBalancerAlgorithm::RoundRobin.to_string(), "RoundRobin");
    assert_eq!(LoadBalancerAlgorithm::Random.to_string(), "Random");
    assert_eq!(LoadBalancerAlgorithm::Strict("10.0.0.1:80".to_string()).to_string(), "Strict");
}

#[test]
fn tags_read_back() {
    for lba in [LoadBalancerAlgorithm::RoundRobin, LoadBalancerAlgorithm::Random] {
        assert_eq!(parse_lba(&lba.to_string()), lba);
    }
    assert_eq!(
        parse_lba(&LoadBalancerAlgorithm::Strict("10.0.0.1:80".to_string()).to_string()),
        LoadBalancerAlgorithm::Strict(String::new())
    );
}

#[test]
fn tags_are_read_without_regard_to_case() {
    assert_eq!(parse_lba("roundrobin"), LoadBalancerAlgorithm::RoundRobin);
    assert_eq!(parse_lba("RANDOM"), LoadBalancerAlgorithm::Random);
    assert_eq!(parse_lba("rAnDoM"), LoadBalancerAlgorithm::Random);
    assert_eq!(parse_lba("STRICT"), LoadBalancerAlgorithm::Strict(String::new()));
}

#[test]
fn unknown_tags_fall_back_to_round_robin() {
    assert_eq!(parse_lba(""), LoadBalancerAlgorithm::RoundRobin);
    assert_eq!(parse_lba("round_robin"), LoadBalancerAlgorithm::RoundRobin);
    assert_eq!(parse_lba("random "), LoadBalancerAlgorithm::RoundRobin);
    assert_eq!(parse_lba("weighted"), LoadBalancerAlgorithm::RoundRobin);
}

#[test]
fn the_strict_setting_pins_an_address() {
    assert_eq!(
        LoadBalancerAlgorithm::from_strict_address(Some("10.9.8.7:80".to_string())),
        LoadBalancerAlgorithm::Strict("10.9.8.7:80".to_string())
    );
    assert_eq!(
        LoadBalancerAlgorithm::from_strict_address(Some(String::new())),
        LoadBalancerAlgorithm::RoundRobin
    );
    assert_eq!(LoadBalancerAlgorithm::from_strict_address(None), LoadBalancerAlgorithm::RoundRobin);
}
