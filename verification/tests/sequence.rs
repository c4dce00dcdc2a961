use crust::{between_wrapping, wrapping_lt};

#[test]
fn wrapping_lt_orders_near_numbers() {
    assert!(wrapping_lt(1, 2));
    assert!(!wrapping_lt(2, 1));
    assert!(!wrapping_lt(5, 5));
    assert!(wrapping_lt(0, 0x7fff_ffff));
    assert!(!wrapping_lt(0x7fff_ffff, 0));
}

#[test]
fn wrapping_lt_crosses_the_wrap() {
    assert!(wrapping_lt(0xffff_ff00, 0x0000_0100));
    assert!(!wrapping_lt(0x0000_0100, 0xffff_ff00));
    assert!(wrapping_lt(0xffff_ffff, 0));
    assert!(!wrapping_lt(0, 0xffff_ffff));
    assert!(wrapping_lt(0xffff_fff0, 0x0000_000c));
}

#[test]
fn wrapping_lt_at_half_the_ring() {
    // Exactly 2^31 apart: neither is before the other.
    assert!(!wrapping_lt(0, 0x8000_0000));
    assert!(!wrapping_lt(0x8000_0000, 0));
    // One more step, and the order turns round.
    assert!(wrapping_lt(0x8000_0001, 0));
    assert!(!wrapping_lt(0, 0x8000_0001));
}

#[test]
fn between_wrapping_is_an_open_interval() {
    assert!(between_wrapping(10, 11, 12));
    assert!(!between_wrapping(10, 10, 12));
    assert!(!between_wrapping(10, 12, 12));
    assert!(!between_wrapping(10, 11, 11));
    assert!(between_wrapping(0xffff_fffe, 0xffff_ffff, 0));
    assert!(between_wrapping(0xffff_fffe, 0, 1));
    assert!(!between_wrapping(0xffff_fffe, 1, 1));
    assert!(between_wrapping(0xffff_ff00, 0x10, 0x100));
}
