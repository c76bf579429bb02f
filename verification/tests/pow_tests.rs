use r_blockchain::Block;
use r_blockchain::Pow;
use r_blockchain::PowOutcome;

fn fixed_block() -> Block {
    Block::new(
        7,
        r_blockchain::string_to_arr::<25>("miner"),
        1234,
        vec!["pay alice".to_string(), "pay bob".to_string()],
        0,
        Vec::new(),
    )
}

#[test]
fn zero_difficulty_returns_nonce_one() {
    let pow = Pow::new(fixed_block(), 0);
    match pow.solve_proof(10) {
        PowOutcome::Found { nonce, .. } => assert_eq!(nonce, 1),
        PowOutcome::Exhausted => panic!("difficulty zero must match the first nonce"),
    }
}

#[test]
fn one_zero_byte_difficulty_zeroes_first_digest_byte() {
    let pow = Pow::new(fixed_block(), 8);
    match pow.solve_proof(1_000_000) {
        PowOutcome::Found { nonce, digest } => {
            assert!(nonce >= 1);
            assert_eq!(digest[0], 0x00);
            let input = Pow::serialize_input(&pow.block, nonce);
            assert_eq!(pow.hash(input), digest);
        }
        PowOutcome::Exhausted => panic!("an eight-bit target must be reachable well within the ceiling"),
    }
}

#[test]
fn solve_is_deterministic() {
    let first = Pow::new(fixed_block(), 8).solve_proof(1_000_000);
    let second = Pow::new(fixed_block(), 8).solve_proof(1_000_000);
    match (first, second) {
        (
            PowOutcome::Found { nonce: n1, digest: d1 },
            PowOutcome::Found { nonce: n2, digest: d2 },
        ) => {
            assert_eq!(n1, n2);
            assert_eq!(d1, d2);
        }
        _ => panic!("both searches must find the same nonce"),
    }
}

#[test]
fn unreachable_difficulty_reports_exhausted() {
    let pow = Pow::new(fixed_block(), 257);
    match pow.solve_proof(50) {
        PowOutcome::Found { .. } => panic!("more zero bits than the digest has cannot be met"),
        PowOutcome::Exhausted => {}
    }
}

#[test]
fn serialize_input_known_value() {
    let block = Block::new(
        1,
        r_blockchain::string_to_arr::<25>("me"),
        2,
        vec!["a".to_string(), "b".to_string()],
        0,
        Vec::new(),
    );
    let mut expected = String::from("1me");
    for _ in 0..23 {
        expected.push('\0');
    }
    expected.push_str("2a,b7");
    assert_eq!(Pow::serialize_input(&block, 7), expected);
}

#[test]
fn serialize_input_negative_fields() {
    let block = Block::new(
        -5,
        r_blockchain::string_to_arr::<25>(""),
        -17,
        Vec::new(),
        0,
        Vec::new(),
    );
    let mut expected = String::from("-5");
    for _ in 0..25 {
        expected.push('\0');
    }
    expected.push_str("-1712");
    assert_eq!(Pow::serialize_input(&block, 12), expected);
}
