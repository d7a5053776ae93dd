use sputnikvm::vectors::{decode_hex, decode_hex_number, Env, Exec, Test};

fn s(x: &str) -> String {
    x.to_string()
}

fn sample(code: &str, gas: &str, out: Option<&str>) -> Test {
    Test {
        env: Env {
            current_coinbase: s("0x2adc25665018aa1fe0e6bc666dac8fc2697ff9ba"),
            current_difficulty: s("0x0100"),
            current_gas_limit: s("0x0f4240"),
            current_number: s("0x00"),
            current_timestamp: s("0x01"),
        },
        execution: Exec {
            address: s("0x0f572e5295c57f15886f9b263e2f6d2d6c7b5ec6"),
            caller: s("0xcd1722f3947def4cf144679da39c4c32bdc35681"),
            code: s(code),
            data: s("0x0102"),
            gas: s(gas),
            gas_price: s("0x5af3107a4000"),
            origin: s("0xcd1722f3947def4cf144679da39c4c32bdc35681"),
            value: s("0x0de0b6b3a7640000"),
        },
        pre: Vec::new(),
        gas: Some(s("0x013874")),
        out: out.map(s),
        post: None,
    }
}

#[test]
fn hex_strings_decode_to_bytes() {
    assert_eq!(decode_hex("0x6001600055"), Some(vec![0x60, 0x01, 0x60, 0x00, 0x55]));
    assert_eq!(decode_hex("0X0a0B"), Some(vec![0x0a, 0x0b]));
    assert_eq!(decode_hex("0x"), Some(vec![]));
    assert_eq!(decode_hex("0x123"), None);
    assert_eq!(decode_hex("0xzz"), None);
}

#[test]
fn hex_numbers_decode_to_words() {
    assert_eq!(decode_hex_number("0x0186a0").unwrap().low_u64(), 100_000);
    assert_eq!(decode_hex_number("0x1").unwrap().low_u64(), 1);
    assert!(decode_hex_number("0x").unwrap().is_zero());
    assert!(decode_hex_number("0xg1").is_none());
    let max = format!("0x{}", "f".repeat(64));
    assert!(!decode_hex_number(&max).unwrap().fits_u64());
    let too_long = format!("0x{}", "1".repeat(65));
    assert!(decode_hex_number(&too_long).is_none());
}

#[test]
fn a_test_vector_unwraps_its_fields() {
    let t = sample("0x60016000f3", "0x0186a0", Some("0x"));
    assert_eq!(t.unwrap_to_code(), Some(vec![0x60, 0x01, 0x60, 0x00, 0xf3]));
    assert_eq!(t.unwrap_to_data(), Some(vec![0x01, 0x02]));
    assert_eq!(t.unwrap_to_gas_limit(), Some(100_000));
    assert_eq!(t.unwrap_to_post_gas(), Some(0x013874));
    assert_eq!(t.unwrap_to_return_value(), Some(vec![]));
    let bad = sample("0x6", "0xq", None);
    assert_eq!(bad.unwrap_to_code(), None);
    assert_eq!(bad.unwrap_to_gas_limit(), None);
    assert_eq!(bad.unwrap_to_return_value(), None);
}
