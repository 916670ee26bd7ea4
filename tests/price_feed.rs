use substrate_kitties::price_feed::{
    offchain_task, parse_u128, u128_from_price, Error, Event, Module, Task, NUM_VEC_LEN,
};

#[test]
fn price_with_short_fraction() {
    assert_eq!(u128_from_price("5.36"), Some(5_360_000));
    assert_eq!(u128_from_price("0.5"), Some(500_000));
    assert_eq!(u128_from_price("1.5"), Some(1_500_000));
}

#[test]
fn price_with_long_fraction_keeps_six_digits() {
    assert_eq!(u128_from_price("12.3456789"), Some(12_345_678));
    assert_eq!(u128_from_price("1.000001"), Some(1_000_001));
    assert_eq!(u128_from_price("1.999999"), Some(1_999_999));
    assert_eq!(u128_from_price("2"), Some(2_000_000));
}

#[test]
fn price_without_fraction() {
    assert_eq!(u128_from_price("7"), Some(7_000_000));
    assert_eq!(u128_from_price(""), Some(0));
    assert_eq!(u128_from_price("abc"), Some(0));
}

#[test]
fn price_with_several_dots_keeps_whole_part() {
    assert_eq!(u128_from_price("1.2.3"), Some(1_000_000));
}

#[test]
fn price_parts_that_write_no_number_count_zero() {
    assert_eq!(u128_from_price("x.25"), Some(250_000));
    assert_eq!(u128_from_price("3."), Some(3_000_000));
    assert_eq!(u128_from_price("3.1a"), Some(3_000_000));
    assert_eq!(u128_from_price("+3.+5"), Some(3_000_000 + 50_000));
}

#[test]
fn price_too_large_is_none() {
    let max = u128::MAX.to_string();
    assert_eq!(u128_from_price(&max), None);
    let big = (u128::MAX / 1_000_000).to_string();
    assert_eq!(u128_from_price(&big), Some((u128::MAX / 1_000_000) * 1_000_000));
    let over = format!("{}.999999", u128::MAX / 1_000_000);
    assert_eq!(u128_from_price(&over), None);
}

#[test]
fn parse_u128_follows_from_str() {
    let cases = ["0", "42", "+7", "-7", "+", "", "12a", "340282366920938463463374607431768211455",
        "340282366920938463463374607431768211456", "007"];
    for c in cases.iter() {
        let b = c.as_bytes();
        assert_eq!(parse_u128(b, 0, b.len()), c.parse::<u128>().ok(), "{}", c);
    }
    assert_eq!(parse_u128(b"x123y", 1, 4), Some(123));
}

#[test]
fn history_drops_oldest_when_full() {
    let mut m = Module::new();
    for p in 0..NUM_VEC_LEN as u128 {
        m.append_or_replace_prince(p);
    }
    assert_eq!(m.princes(), (0..10).collect::<Vec<u128>>());
    m.append_or_replace_prince(10);
    assert_eq!(m.princes(), (1..11).collect::<Vec<u128>>());
    assert_eq!(m.submit_number_unsigned(11), Event::NewPrice(None, 11));
    assert_eq!(m.princes(), (2..12).collect::<Vec<u128>>());
}

#[test]
fn history_grows_until_full() {
    let mut m = Module::new();
    assert!(m.princes().is_empty());
    m.append_or_replace_prince(5);
    m.append_or_replace_prince(6);
    assert_eq!(m.princes(), vec![5, 6]);
}

#[test]
fn worker_submits_one_block_in_four() {
    assert_eq!(offchain_task(1), Ok(Task::SubmitPriceUnsigned));
    assert_eq!(offchain_task(5), Ok(Task::SubmitPriceUnsigned));
    assert_eq!(offchain_task(0), Err(Error::UnknownOffchainMux));
    assert_eq!(offchain_task(2), Err(Error::UnknownOffchainMux));
    assert_eq!(offchain_task(u32::MAX as u64), Err(Error::UnknownOffchainMux));
    assert_eq!(offchain_task((1u64 << 32) + 1), Err(Error::UnknownOffchainMux));
}
