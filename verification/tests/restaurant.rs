//! Tests of the dependency-injection demo: the chef's dish reaches the
//! table unchanged through every layer of wiring.

use tlv::chef::{Chef, JackState};
use tlv::restaurant::Restaurant;
use tlv::waiter::{Tom, Waiter};

#[test]
fn jack_cooks_his_skill() {
    let jack = JackState::new("dumplings".to_string());
    assert_eq!(jack.cook(), "dumplings");
}

#[test]
fn tom_serves_what_the_chef_cooks() {
    let tom = Tom { deps: JackState::new("noodles".to_string()) };
    assert_eq!(tom.serve(), "noodles");
}

#[test]
fn restaurant_serves_its_dish() {
    let restaurant = Restaurant::new();
    assert_eq!(restaurant.cook(), "\u{9ebb}\u{5a46}\u{8c46}\u{8150}");
    assert_eq!(restaurant.serve(), "\u{9ebb}\u{5a46}\u{8c46}\u{8150}");
    assert_eq!(Restaurant::default().serve(), "\u{9ebb}\u{5a46}\u{8c46}\u{8150}");
}
