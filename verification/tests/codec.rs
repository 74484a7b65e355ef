use ledger_storage::codec::{decode_str, decode_u64, encode_str, encode_u64, DecodeError, Storable};
use ledger_storage::gov::GovParams;
use ledger_storage::token::Amount;

#[test]
fn u64_encodes_fixed_width_little_endian() {
    let bytes = encode_u64(0x0102_0304_0506_0708);
    assert_eq!(bytes, vec![8, 7, 6, 5, 4, 3, 2, 1]);
    let zero = encode_u64(0);
    assert_eq!(zero, vec![0; 8]);
}

#[test]
fn u64_round_trip() {
    for v in [0u64, 1, 255, 256, u64::MAX, 0xdead_beef_0bad_cafe] {
        let bytes = v.encode();
        assert_eq!(decode_u64(&bytes), Ok(v));
        assert_eq!(<u64 as Storable>::decode(&bytes), Ok(v));
    }
}

#[test]
fn u64_decode_truncated_and_malformed() {
    assert_eq!(decode_u64(&[1, 2, 3, 4]), Err(DecodeError::Truncated));
    assert_eq!(decode_u64(&[]), Err(DecodeError::Truncated));
    assert_eq!(decode_u64(&[0; 9]), Err(DecodeError::Malformed));
}

#[test]
fn encoding_is_deterministic() {
    let a = 77_u64.encode();
    let b = 77_u64.encode();
    assert_eq!(a, b);
    let p = GovParams::default();
    assert_eq!(p.encode(), p.encode());
}

#[test]
fn amount_whole_scales() {
    let a = Amount::whole(500);
    assert_eq!(a.micro, 500_000_000);
    let b = Amount::micro(42);
    assert_eq!(b.micro, 42);
}

#[test]
fn amount_round_trip() {
    let a = Amount::whole(3);
    let bytes = a.encode();
    assert_eq!(bytes.len(), 8);
    assert_eq!(<Amount as Storable>::decode(&bytes), Ok(a));
}

#[test]
fn gov_params_round_trip() {
    let p = GovParams {
        min_proposal_fund: 1,
        max_proposal_code_size: 2,
        min_proposal_period: 3,
        max_proposal_period: 4,
        max_proposal_content_size: 5,
        min_proposal_grace_epochs: 6,
    };
    let bytes = p.encode();
    assert_eq!(bytes.len(), 48);
    assert_eq!(<GovParams as Storable>::decode(&bytes), Ok(p));
}

#[test]
fn gov_params_decode_errors() {
    assert_eq!(
        <GovParams as Storable>::decode(&[0; 47]),
        Err(DecodeError::Truncated)
    );
    assert_eq!(
        <GovParams as Storable>::decode(&[0; 49]),
        Err(DecodeError::Malformed)
    );
}

#[test]
fn gov_params_default_values() {
    let p = GovParams::default();
    assert_eq!(p.min_proposal_fund, 500);
    assert_eq!(p.max_proposal_code_size, 300_000);
    assert_eq!(p.min_proposal_period, 3);
    assert_eq!(p.max_proposal_period, 27);
    assert_eq!(p.max_proposal_content_size, 10_000);
    assert_eq!(p.min_proposal_grace_epochs, 6);
}

#[test]
fn str_encodes_length_prefix_then_bytes() {
    let bytes = encode_str("abc");
    assert_eq!(bytes, vec![3, 0, 0, 0, b'a', b'b', b'c']);
    assert_eq!(encode_str(""), vec![0, 0, 0, 0]);
}

#[test]
fn str_round_trip() {
    for s in ["", "a", "gov/min-proposal-fund", "hello world"] {
        let bytes = encode_str(s);
        assert_eq!(decode_str(&bytes).unwrap(), s);
    }
}

#[test]
fn str_decode_errors() {
    assert_eq!(decode_str(&[1, 0]), Err(DecodeError::Truncated));
    assert_eq!(decode_str(&[5, 0, 0, 0, b'a']), Err(DecodeError::Truncated));
    assert_eq!(decode_str(&[1, 0, 0, 0, b'a', b'b']), Err(DecodeError::Malformed));
    assert_eq!(decode_str(&[1, 0, 0, 0, 0xC3]), Err(DecodeError::Malformed));
}
