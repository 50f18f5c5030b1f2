use ssh_fleet::ledger::Ledger;

fn text(s: &str) -> String {
    s.to_string()
}

#[test]
fn a_poll_without_results_gives_the_empty_text() {
    let mut ledger = Ledger::new();
    assert_eq!(ledger.drain(&text("alpha")), "");
}

#[test]
fn one_result_is_handed_out_as_it_came() {
    let mut ledger = Ledger::new();
    ledger.append(text("alpha"), text("up 3 days"));
    assert_eq!(ledger.drain(&text("alpha")), "up 3 days");
}

#[test]
fn results_are_joined_by_line_feeds_in_the_order_of_their_coming() {
    let mut ledger = Ledger::new();
    ledger.append(text("alpha"), text("first"));
    ledger.append(text("alpha"), text("second"));
    ledger.append(text("alpha"), text("third"));
    assert_eq!(ledger.drain(&text("alpha")), "first\nsecond\nthird");
}

#[test]
fn a_second_poll_gives_the_empty_text() {
    let mut ledger = Ledger::new();
    ledger.append(text("alpha"), text("done"));
    assert_eq!(ledger.drain(&text("alpha")), "done");
    assert_eq!(ledger.drain(&text("alpha")), "");
}

#[test]
fn results_come_again_after_a_poll() {
    let mut ledger = Ledger::new();
    ledger.append(text("alpha"), text("one"));
    assert_eq!(ledger.drain(&text("alpha")), "one");
    ledger.append(text("alpha"), text("two"));
    assert_eq!(ledger.drain(&text("alpha")), "two");
}

#[test]
fn each_server_keeps_its_own_results() {
    let names = ["alpha", "beta", "gamma", "delta"];
    let mut ledger = Ledger::new();
    // The results come in in another order than the servers were named.
    for i in [2usize, 0, 3, 1] {
        ledger.append(text(names[i]), format!("result of {}", names[i]));
    }
    for name in names {
        assert_eq!(ledger.drain(&text(name)), format!("result of {}", name));
    }
}

#[test]
fn a_poll_for_one_server_leaves_the_others() {
    let mut ledger = Ledger::new();
    ledger.append(text("alpha"), text("a1"));
    ledger.append(text("beta"), text("b1"));
    ledger.append(text("alpha"), text("a2"));
    assert_eq!(ledger.drain(&text("alpha")), "a1\na2");
    assert_eq!(ledger.drain(&text("beta")), "b1");
}

#[test]
fn names_are_told_apart_by_case() {
    let mut ledger = Ledger::new();
    ledger.append(text("Alpha"), text("upper"));
    ledger.append(text("alpha"), text("lower"));
    assert_eq!(ledger.drain(&text("alpha")), "lower");
    assert_eq!(ledger.drain(&text("Alpha")), "upper");
}

#[test]
fn an_empty_result_counts_as_a_result() {
    let mut ledger = Ledger::new();
    ledger.append(text("alpha"), text(""));
    ledger.append(text("alpha"), text("x"));
    assert_eq!(ledger.drain(&text("alpha")), "\nx");
}
