use rusty_peg::silly_grammar::{should_parse_prefix, Hi, HiHo, HiOrHo, Rep, Sum};

#[test]
fn parse_hi_from_hi() {
    assert_eq!(1, should_parse_prefix(&Hi, "Hi"));
}

#[test]
#[should_panic]
fn parse_hi_from_ho() {
    assert_eq!(2, should_parse_prefix(&Hi, "Ho"));
}

#[test]
fn parse_hiorho_from_hi() {
    assert_eq!(1, should_parse_prefix(&HiOrHo, "Hi"));
}

#[test]
fn parse_hiorho_from_ho() {
    assert_eq!(2, should_parse_prefix(&HiOrHo, "Ho"));
}

#[test]
fn parse_hiho_from_ho() {
    assert_eq!((), should_parse_prefix(&HiHo, "Hi Ho"));
}

#[test]
fn parse_sum_from_ho() {
    assert_eq!(1221, should_parse_prefix(&Sum, "Hi + Ho + Ho + Hi"));
}

#[test]
fn parse_repeat() {
    assert_eq!(vec![1, 2, 2, 1, 2], should_parse_prefix(&Rep, "Hi Ho Ho Hi Ho"));
}
