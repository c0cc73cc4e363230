use d7engine::seed::{Roll, Seed};

#[test]
fn seed_first_bytes_of_the_digest() {
    let mut seed = Seed::from_str("abc");
    assert_eq!(seed.next_u8(), 187);
    assert_eq!(seed.next_u8(), 245);
    assert_eq!(seed.next_u8(), 172);
    assert_eq!(seed.next_u8(), 133);
}

#[test]
fn seed_goes_on_past_the_64_bytes() {
    let mut seed = Seed::from_str("abc");
    let mut numbers = vec![];
    for _ in 0..70 {
        numbers.push(seed.next_u8());
    }
    assert_eq!(numbers[62..70].to_vec(), vec![37, 249, 3, 96, 30, 225, 247, 182]);
}

#[test]
fn seed_bits_come_lowest_first() {
    let mut seed = Seed::from_str("d7engine");
    let mut bits = vec![];
    for _ in 0..10 {
        bits.push(seed.next_bool());
    }
    assert_eq!(
        bits,
        vec![false, false, true, true, false, false, false, false, true, false]
    );
}

#[test]
fn seed_same_string_same_stream() {
    let mut a = Seed::from_str("twin");
    let mut b = Seed::from_str("twin");
    for _ in 0..200 {
        assert_eq!(a.next_bool(), b.next_bool());
    }
}

#[test]
fn seed_from_seconds_is_the_seed_of_the_digits() {
    let mut a = Seed::from_secs(1700000000);
    let mut b = Seed::from_str("1700000000");
    assert_eq!(a.next_u8(), 50);
    assert_eq!(a.next_u8(), 245);
    assert_eq!(a.next_u8(), 148);
    assert_eq!(b.next_u8(), 50);
    let mut zero = Seed::from_secs(0);
    let mut text = Seed::from_str("0");
    assert_eq!(zero.next_u8(), text.next_u8());
}

#[test]
fn seed_from_time_reads_the_clock() {
    let seed = Seed::from_time();
    assert!(seed.is_ok());
    let mut seed = seed.unwrap();
    let _ = seed.next_bool();
}

#[test]
fn seed_roll_hits_below_max() {
    let mut seed = Seed::from_str("abc");
    assert_eq!(seed.roll(188), Roll::HIT(187));
    assert_eq!(seed.roll(245), Roll::MISS(245));
    assert_eq!(seed.roll(0), Roll::MISS(172));
    assert_eq!(seed.roll(255), Roll::HIT(133));
}
