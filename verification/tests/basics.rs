use assured_fusion::clock::{timestamp_from_epoch_millis, Clock, ManualClock, SystemClock};
use assured_fusion::ids::{next_id, ObservationId, SourceId, TrackId};
use assured_fusion::model::Signature;
use assured_fusion::rng::DeterministicRng;
use assured_fusion::text::{push_decimal, push_padded_decimal, push_signed_decimal, str_lt};
use assured_fusion::time::Timestamp;

#[test]
fn sequential_ids_are_zero_padded() {
    assert_eq!(ObservationId::seq(7).as_str(), "obs-000007");
    assert_eq!(TrackId::seq(1234567).as_str(), "trk-1234567");
    assert_eq!(SourceId::seq(0).as_str(), "src-000000");
}

#[test]
fn next_id_numbers_observations_under_their_source() {
    let id = next_id(&SourceId::new("radar-a"), 42);
    assert_eq!(id.as_str(), "radar-a-000042");
    assert_ne!(next_id(&SourceId::new("radar-a"), 1), next_id(&SourceId::new("radar-a"), 2));
}

#[test]
fn timestamp_arithmetic() {
    let t = Timestamp::from_millis(1_000);
    assert_eq!(t.millis(), 1_000);
    assert_eq!(t.age_ms(Timestamp(1_250)), 250);
    assert_eq!(t.plus_ms(-400), Timestamp(600));
    assert_eq!(Timestamp(5).age_ms(Timestamp(2)), -3);
}

#[test]
fn signature_placeholder_verifies_and_others_fail_closed() {
    let s = Signature::unsigned();
    assert_eq!(s.algorithm, "none-v0");
    assert_eq!(s.key_id, "unsigned");
    assert!(s.value.is_empty());
    assert!(s.verify(b"payload"));
    let forged = Signature { algorithm: "hmac".to_string(), key_id: "k".to_string(), value: "00".to_string() };
    assert!(!forged.verify(&[]));
    assert!(Signature::default().verify(&[]));
}

#[test]
fn manual_clock_reads_what_was_set() {
    let mut c = ManualClock::new(Timestamp(10));
    assert_eq!(c.now(), Timestamp(10));
    c.set(Timestamp(99));
    assert_eq!(c.now(), Timestamp(99));
}

#[test]
fn system_clock_readings_convert_from_epoch_millis() {
    assert_eq!(timestamp_from_epoch_millis(Some(1_700_000_000_123)), Timestamp(1_700_000_000_123));
    assert_eq!(timestamp_from_epoch_millis(None), Timestamp(0));
    // the wall clock is past 2020-01-01
    assert!(SystemClock.now().millis() > 1_577_836_800_000);
}

#[test]
fn rng_is_splitmix64_and_deterministic() {
    let mut a = DeterministicRng::new(0);
    let mut b = DeterministicRng::new(0);
    let first = a.next_u64();
    assert_eq!(first, 0x6E78_9E6A_A1B9_65F4);
    assert_eq!(first, b.next_u64());
    assert_eq!(a.next_u64(), b.next_u64());
    let mut c = DeterministicRng::new(1);
    assert_ne!(c.next_u64(), DeterministicRng::new(0).next_u64());
}

#[test]
fn decimal_rendering() {
    let mut s = String::from("n=");
    push_decimal(&mut s, 0);
    s.push(',');
    push_decimal(&mut s, 18_446_744_073_709_551_615);
    s.push(',');
    push_padded_decimal(&mut s, 42, 5);
    s.push(',');
    push_signed_decimal(&mut s, -9_223_372_036_854_775_808);
    s.push(',');
    push_signed_decimal(&mut s, 17);
    assert_eq!(s, "n=0,18446744073709551615,00042,-9223372036854775808,17");
}

#[test]
fn string_order_is_by_code_point() {
    assert!(str_lt("abc", "abd"));
    assert!(str_lt("ab", "abc"));
    assert!(!str_lt("abc", "abc"));
    assert!(!str_lt("b", "a"));
    assert!(str_lt("Z", "a"));
}
