use arbitrage_encoder::arbitrage_request::ArbitrageRequest;
use arbitrage_encoder::encoder::{encode_arbitrage_request, encode_route, EncodeError};

fn hop(
    pool_type: &str,
    pool_address: &str,
    amount_in: &str,
    amount_out: &str,
    token_in: &str,
    token_out: &str,
) -> ArbitrageRequest {
    ArbitrageRequest {
        pool_type: pool_type.to_string(),
        pool_address: pool_address.to_string(),
        amount_in: amount_in.to_string(),
        amount_out: amount_out.to_string(),
        token_in: token_in.to_string(),
        token_out: token_out.to_string(),
    }
}

fn address_of(byte: &str) -> String {
    format!("0x{}", byte.repeat(20))
}

const ZEROS_14: &str = "0000000000000000000000000000";

#[test]
fn single_v3_hop_with_no_profit() {
    let route = vec![hop("uniswap_v3", &address_of("11"), "1000", "1000", "A", "B")];
    let expected = format!(
        "{}03e8{}0000c0{}",
        ZEROS_14,
        ZEROS_14,
        "11".repeat(20)
    );
    assert_eq!(expected.len(), 2 * (32 + 21));
    assert_eq!(encode_arbitrage_request(route), Ok(expected));
}

#[test]
fn single_v3_hop_as_bytes() {
    let route = vec![hop("uniswap_v3", &address_of("11"), "1000", "1000", "A", "B")];
    let mut expected: Vec<u8> = vec![0u8; 14];
    expected.push(0x03);
    expected.push(0xe8);
    expected.extend_from_slice(&[0u8; 16]);
    expected.push(0xc0);
    expected.extend_from_slice(&[0x11u8; 20]);
    assert_eq!(encode_route(&route), Ok(expected));
}

#[test]
fn header_holds_amount_in_and_profit() {
    let route = vec![hop(
        "uniswap_v2",
        &address_of("ab"),
        "1000000000000000000",
        "1000000000000000123",
        "B",
        "A",
    )];
    let bytes = encode_route(&route).unwrap();
    assert_eq!(&bytes[0..16], &1000000000000000000u128.to_be_bytes());
    assert_eq!(&bytes[16..32], &123u128.to_be_bytes());
    assert_eq!(bytes[32], 0x00);
    assert_eq!(&bytes[33..53], &[0xabu8; 20]);
    assert_eq!(bytes.len(), 53);
}

#[test]
fn largest_amounts_fill_the_header() {
    let route = vec![hop(
        "uniswap_v3",
        &address_of("00"),
        "0",
        "340282366920938463463374607431768211455",
        "x",
        "y",
    )];
    let text = encode_arbitrage_request(route).unwrap();
    assert_eq!(&text[0..32], "0".repeat(32));
    assert_eq!(&text[32..64], "f".repeat(32));
    assert_eq!(&text[64..66], "c0");
}

#[test]
fn records_come_out_last_hop_first() {
    let route = vec![
        hop("uniswap_v3", &address_of("01"), "5", "0", "A", "B"),
        hop("uniswap_v2", &address_of("02"), "0", "0", "B", "C"),
        hop("sushiswap", &address_of("03"), "0", "7", "C", "A"),
    ];
    let bytes = encode_route(&route).unwrap();
    assert_eq!(bytes.len(), 32 + 21 * 3);
    assert_eq!(&bytes[0..16], &5u128.to_be_bytes());
    assert_eq!(&bytes[16..32], &2u128.to_be_bytes());
    assert_eq!(bytes[32], 0x00);
    assert_eq!(&bytes[33..53], &[0x03u8; 20]);
    assert_eq!(bytes[53], 0x40);
    assert_eq!(&bytes[54..74], &[0x02u8; 20]);
    assert_eq!(bytes[74], 0xc0);
    assert_eq!(&bytes[75..95], &[0x01u8; 20]);
}

#[test]
fn text_is_the_lower_case_hex_of_the_bytes() {
    let make = || {
        vec![
            hop("uniswap_v3", "0xDEADBEEFdeadbeef00112233445566778899AaBb", "17", "3", "a", "b"),
            hop("other", "deadbeefdeadbeef00112233445566778899aabb", "9", "255", "b", "a"),
        ]
    };
    let bytes = encode_route(&make()).unwrap();
    let text = encode_arbitrage_request(make()).unwrap();
    assert_eq!(text, hex::encode(&bytes));
    assert_eq!(text.len(), 2 * (32 + 21 * 2));
    assert_eq!(
        text,
        format!(
            "{}0011{}00ee00deadbeefdeadbeef00112233445566778899aabbc0deadbeefdeadbeef00112233445566778899aabb",
            ZEROS_14, ZEROS_14
        )
    );
}

#[test]
fn length_grows_by_twenty_one_bytes_for_each_hop() {
    let mut hops: usize = 1;
    while hops <= 6 {
        let mut route: Vec<ArbitrageRequest> = Vec::new();
        let mut k: usize = 0;
        while k < hops {
            route.push(hop("uniswap_v3", &address_of("7f"), "10", "10", "A", "B"));
            k += 1;
        }
        assert_eq!(encode_route(&route).unwrap().len(), 32 + 21 * hops);
        assert_eq!(encode_arbitrage_request(route).unwrap().len(), 2 * (32 + 21 * hops));
        hops += 1;
    }
}

#[test]
fn header_byte_has_one_bit_for_each_flag() {
    let cases: [(&str, &str, &str, u8); 6] = [
        ("uniswap_v3", "A", "B", 0xc0),
        ("uniswap_v3", "B", "A", 0x80),
        ("uniswap_v2", "A", "B", 0x40),
        ("uniswap_v2", "B", "A", 0x00),
        ("uniswap_v3", "A", "A", 0x80),
        ("Uniswap_V3", "A", "B", 0x40),
    ];
    for (pool_type, token_in, token_out, expected) in cases {
        let request = hop(pool_type, &address_of("11"), "1", "1", token_in, token_out);
        assert_eq!(request.header_byte(), expected);
        assert_eq!(request.header_byte() & 0x3f, 0);
        let bytes = encode_route(&vec![request]).unwrap();
        assert_eq!(bytes[32], expected);
    }
}

#[test]
fn only_the_outer_amounts_are_read() {
    let route = vec![
        hop("uniswap_v3", &address_of("01"), "100", "not a number", "A", "B"),
        hop("uniswap_v3", &address_of("02"), "nothing", "", "A", "B"),
        hop("uniswap_v3", &address_of("03"), "-5", "150", "A", "B"),
    ];
    let bytes = encode_route(&route).unwrap();
    assert_eq!(&bytes[0..16], &100u128.to_be_bytes());
    assert_eq!(&bytes[16..32], &50u128.to_be_bytes());
}

#[test]
fn more_in_than_out_is_unprofitable() {
    let route = vec![hop("uniswap_v3", &address_of("11"), "1001", "1000", "A", "B")];
    assert_eq!(encode_route(&route), Err(EncodeError::UnprofitableRoute));
    assert_eq!(
        encode_arbitrage_request(route),
        Err("Arbitrage request does not generate a profit".to_string())
    );
}

#[test]
fn unreadable_amount_in_is_reported() {
    for bad in ["", "abc", "-1", "1.5", " 1", "1 ", "0x10", "+", "1_000",
        "340282366920938463463374607431768211456"]
    {
        let route = vec![hop("uniswap_v3", &address_of("11"), bad, "1000", "A", "B")];
        assert_eq!(encode_route(&route), Err(EncodeError::InvalidAmountIn));
        assert_eq!(encode_arbitrage_request(route), Err("Invalid amount_in".to_string()));
    }
}

#[test]
fn unreadable_amount_out_is_reported() {
    for bad in ["", "ten", "-1", "99999999999999999999999999999999999999999"] {
        let route = vec![
            hop("uniswap_v3", &address_of("11"), "1", "5", "A", "B"),
            hop("uniswap_v3", &address_of("22"), "5", bad, "B", "A"),
        ];
        assert_eq!(encode_route(&route), Err(EncodeError::InvalidAmountOut));
        assert_eq!(encode_arbitrage_request(route), Err("Invalid amount_out".to_string()));
    }
}

#[test]
fn malformed_pool_address_is_reported() {
    let nineteen = format!("0x{}", "11".repeat(19));
    let twenty_one = "11".repeat(21);
    let odd = format!("0x{}1", "11".repeat(19));
    let not_hex = format!("0x{}zz", "11".repeat(19));
    let twice_prefixed = format!("0x0x{}", "11".repeat(20));
    let upper_prefix = format!("0X{}", "11".repeat(20));
    let not_ascii = format!("0x{}\u{e9}", "11".repeat(19));
    let bad_ones: [&str; 9] = [
        "",
        "0x",
        &nineteen,
        &twenty_one,
        &odd,
        &not_hex,
        &twice_prefixed,
        &upper_prefix,
        &not_ascii,
    ];
    for bad in bad_ones {
        let route = vec![
            hop("uniswap_v3", &address_of("11"), "1", "5", "A", "B"),
            hop("uniswap_v3", bad, "5", "9", "B", "A"),
            hop("uniswap_v3", &address_of("33"), "5", "9", "B", "A"),
        ];
        assert_eq!(encode_route(&route), Err(EncodeError::InvalidPoolAddress));
        assert_eq!(encode_arbitrage_request(route), Err("Invalid pool address".to_string()));
    }
}

#[test]
fn the_first_failing_step_decides_the_error() {
    let all_bad = vec![hop("uniswap_v3", "zz", "x", "y", "A", "B")];
    assert_eq!(encode_route(&all_bad), Err(EncodeError::InvalidAmountIn));
    let out_and_pool_bad = vec![hop("uniswap_v3", "zz", "1", "y", "A", "B")];
    assert_eq!(encode_route(&out_and_pool_bad), Err(EncodeError::InvalidAmountOut));
    let loss_and_pool_bad = vec![hop("uniswap_v3", "zz", "2", "1", "A", "B")];
    assert_eq!(encode_route(&loss_and_pool_bad), Err(EncodeError::UnprofitableRoute));
    let pool_bad = vec![hop("uniswap_v3", "zz", "1", "2", "A", "B")];
    assert_eq!(encode_route(&pool_bad), Err(EncodeError::InvalidPoolAddress));
}

#[test]
fn messages_name_the_error() {
    assert_eq!(EncodeError::InvalidAmountIn.message(), "Invalid amount_in");
    assert_eq!(EncodeError::InvalidAmountOut.message(), "Invalid amount_out");
    assert_eq!(
        EncodeError::UnprofitableRoute.message(),
        "Arbitrage request does not generate a profit"
    );
    assert_eq!(EncodeError::InvalidPoolAddress.message(), "Invalid pool address");
}

#[test]
fn push_record_leaves_the_output_alone_on_a_bad_address() {
    let mut out: Vec<u8> = vec![1, 2, 3];
    let bad = hop("uniswap_v3", "0x1234", "1", "1", "A", "B");
    assert!(!bad.push_record(&mut out));
    assert_eq!(out, vec![1, 2, 3]);
    let good = hop("uniswap_v3", &address_of("ff"), "1", "1", "B", "A");
    assert!(good.push_record(&mut out));
    let mut expected: Vec<u8> = vec![1, 2, 3, 0x80];
    expected.extend_from_slice(&[0xffu8; 20]);
    assert_eq!(out, expected);
}
