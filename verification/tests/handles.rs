use guile_rs::interp::Guile;
use guile_rs::scm::{Scm, UnspecifiedSpec};

#[test]
pub fn scope_test() {
}

#[test]
fn raw_round_trip() {
    let h: Scm<UnspecifiedSpec> = Scm::<UnspecifiedSpec>::from_raw(0xdead);
    assert_eq!(h.as_bits(), 0xdead);
}

#[test]
fn retagging_keeps_the_raw_value() {
    let h: Scm<UnspecifiedSpec> = Scm::<UnspecifiedSpec>::from_raw(41);
    let u = h.into_unspecified();
    assert_eq!(u.as_bits(), 41);
}

#[test]
fn clone_keeps_the_raw_value() {
    let h: Scm<UnspecifiedSpec> = Scm::<UnspecifiedSpec>::from_raw(7);
    let c = h.clone();
    assert_eq!(c.as_bits(), 7);
}

#[test]
fn catch_all_returns_the_body_result() {
    let r = Guile::call_with_catch_all(|n: u64| Scm::<UnspecifiedSpec>::from_raw(n), 99);
    assert_eq!(r.unwrap().as_bits(), 99);
}
