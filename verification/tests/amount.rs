use chainwatch_indexer::amount::{Amount, SignedAmount};

fn dec(a: &Amount) -> String {
    a.to_decimal()
}

#[test]
fn amount_from_bytes_and_text() {
    assert_eq!(dec(&Amount::from_be_bytes(&[0x01, 0xe8, 0x48, 0x00])), "32000000");
    assert_eq!(dec(&Amount::from_be_bytes(&[0, 0, 0x1e, 0x84, 0x80])), "2000000");
    assert_eq!(dec(&Amount::from_be_bytes(&[])), "0");
    assert_eq!(dec(&Amount::zero()), "0");
    assert_eq!(dec(&Amount::from_u64(u64::MAX)), "18446744073709551615");
    assert_eq!(
        dec(&Amount::from_be_bytes(&[0xff; 32])),
        "115792089237316195423570985008687907853269984665640564039457584007913129639935"
    );
}

#[test]
fn amount_arithmetic_is_exact() {
    let a = Amount::from_u64(u64::MAX);
    let b = Amount::from_u64(2);
    assert_eq!(dec(&a.plus(&b)), "18446744073709551617");
    assert_eq!(dec(&a.times(&a)), "340282366920938463426481119284349108225");
    assert_eq!(dec(&Amount::pow10(0)), "1");
    assert_eq!(dec(&Amount::pow10(30)), "1000000000000000000000000000000");
    assert_eq!(dec(&Amount::from_u64(17).div_floor(&Amount::from_u64(5)).unwrap()), "3");
    assert_eq!(dec(&Amount::from_u64(17).rem(&Amount::from_u64(5)).unwrap()), "2");
    assert!(Amount::from_u64(17).div_floor(&Amount::zero()).is_none());
    assert!(Amount::from_u64(17).rem(&Amount::zero()).is_none());
}

#[test]
fn amount_order_goes_by_value() {
    let five = Amount::from_u64(5);
    let padded_five = Amount::from_be_bytes(&[0, 0, 0, 5]);
    let six = Amount::from_u64(6);
    assert!(five.same(&padded_five));
    assert!(!five.same(&six));
    assert!(five.le(&six) && five.le(&padded_five) && !six.le(&five));
    assert!(six.ge(&five) && five.ge(&padded_five) && !five.ge(&six));
    assert!(five.lt(&six) && !five.lt(&padded_five) && !six.lt(&five));
    assert!(Amount::from_be_bytes(&[0, 0]).is_zero());
    assert!(!five.is_zero());
    assert_eq!(five.clone().be, five.be);
}

#[test]
fn signed_amount_reads_twos_complement() {
    assert_eq!(SignedAmount::from_twos_complement(&[0xff; 32]).to_decimal(), "-1");
    assert_eq!(SignedAmount::from_twos_complement(&[0xff, 0xff, 0x38]).to_decimal(), "-200");
    assert_eq!(SignedAmount::from_twos_complement(&[0x00, 0x00, 0xc8]).to_decimal(), "200");
    assert_eq!(SignedAmount::from_twos_complement(&[0x80]).to_decimal(), "-128");
    assert_eq!(SignedAmount::from_twos_complement(&[0x7f]).to_decimal(), "127");
    assert_eq!(SignedAmount::from_twos_complement(&[]).to_decimal(), "0");
    let mut min = vec![0u8; 32];
    min[0] = 0x80;
    assert_eq!(
        SignedAmount::from_twos_complement(&min).negated().to_decimal(),
        "57896044618658097711785492504343953926634992332820282019728792003956564819968"
    );
}

#[test]
fn signed_amount_sign_and_negation() {
    let plus = SignedAmount::from_amount(Amount::from_u64(7));
    assert!(plus.is_positive());
    assert_eq!(plus.negated().to_decimal(), "-7");
    assert!(!plus.negated().is_positive());
    assert_eq!(plus.negated().negated().to_decimal(), "7");
    let zero = SignedAmount::from_amount(Amount::zero());
    assert!(!zero.is_positive());
    assert_eq!(zero.negated().to_decimal(), "0");
    assert_eq!(plus.clone().to_decimal(), "7");
}
