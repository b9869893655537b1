use msg_interpreter::codec::{bytes_to_hex, hex_to_bytes, parse_u128, strip_backslashes, unescape_quotes};
use msg_interpreter::engine::{decode_action, dispatch, load_rules, Action, Dispatch, ExecError};
use msg_interpreter::scan::{field, find, split, split_once, unquote};
use msg_interpreter::state::{advance_nonce, execute, nonce_hex, setup};

const RULES: &str = "{\"|kP|contracts\":\"alice.near,bob.near|kS|\",\"|kP|methods\":\"ft_transfer|kS|\",\"|kP|amounts\":\"1,1000000000000000000000000|kS|\"}";

fn run(msg: &str) -> Dispatch {
    dispatch(msg.as_bytes(), Some(RULES.as_bytes()))
}

#[test]
fn single_transfer_to_listed_receiver() {
    let d = run("\"|kR|\":\"alice.near\",\"|kA|\":\"Transfer\",\"|kP|deposit\":\"500|kS|\"");
    assert_eq!(d.error, None);
    assert_eq!(d.batches.len(), 1);
    assert_eq!(d.batches[0].receiver, b"alice.near".to_vec());
    assert_eq!(d.batches[0].actions, vec![Action::Transfer { deposit: 500 }]);
}

#[test]
fn single_transfer_to_unlisted_receiver_aborts() {
    let d = run("\"|kR|\":\"carol.near\",\"|kA|\":\"Transfer\",\"|kP|deposit\":\"500|kS|\"");
    assert_eq!(d.error, Some(ExecError::PolicyViolation));
    assert_eq!(d.batches.len(), 0);
}

#[test]
fn unlisted_receiver_stops_later_transactions() {
    let d = run("pre\"|kR|\":\"alice.near\",\"|kA|\":\"Transfer\",\"|kP|deposit\":\"1|kS|\"\"|kR|\":\"eve.near\",\"|kA|\":\"Transfer\",\"|kP|deposit\":\"2|kS|\"\"|kR|\":\"bob.near\",\"|kA|\":\"Transfer\",\"|kP|deposit\":\"3|kS|\"");
    assert_eq!(d.error, Some(ExecError::PolicyViolation));
    assert_eq!(d.batches.len(), 1);
    assert_eq!(d.batches[0].actions, vec![Action::Transfer { deposit: 1 }]);
}

#[test]
fn chain_of_two_receivers_in_order() {
    let d = run("\"|kR|\":\"bob.near\",\"|kA|\":\"Transfer\",\"|kP|deposit\":\"7|kS|\",\"|kA|\":\"Transfer\",\"|kP|deposit\":\"8|kS|\"\"|kR|\":\"alice.near\",\"|kA|\":\"Transfer\",\"|kP|deposit\":\"9|kS|\"");
    assert_eq!(d.error, None);
    assert_eq!(d.batches.len(), 2);
    assert_eq!(d.batches[0].receiver, b"bob.near".to_vec());
    assert_eq!(d.batches[0].actions, vec![Action::Transfer { deposit: 7 }, Action::Transfer { deposit: 8 }]);
    assert_eq!(d.batches[1].receiver, b"alice.near".to_vec());
    assert_eq!(d.batches[1].actions, vec![Action::Transfer { deposit: 9 }]);
}

#[test]
fn function_call_args_lose_backslashes() {
    let d = run("\"|kR|\":\"alice.near\",\"|kA|\":\"FunctionCall\",\"|kP|methodName\":\"ft_transfer|kS|\",\"|kP|args\":\"{\\\"receiver_id\\\":\\\"bob.near\\\"}|kS|\",\"|kP|gas\":\"30000000000000|kS|\",\"|kP|deposit\":\"1|kS|\"");
    assert_eq!(d.error, None);
    assert_eq!(
        d.batches[0].actions,
        vec![Action::FunctionCall {
            method_name: b"ft_transfer".to_vec(),
            args: b"{\"receiver_id\":\"bob.near\"}".to_vec(),
            deposit: 1,
            gas: 30000000000000,
        }]
    );
}

#[test]
fn add_key_prepends_curve_tag() {
    let d = run("\"|kR|\":\"alice.near\",\"|kA|\":\"AddKey\",\"|MTXP|publicKey\":\"0aFf10|kS|\"");
    assert_eq!(d.error, None);
    assert_eq!(d.batches[0].actions, vec![Action::AddFullAccessKey { public_key: vec![0, 0x0a, 0xff, 0x10] }]);
}

#[test]
fn add_key_with_bad_hex_fails() {
    let d = run("\"|kR|\":\"alice.near\",\"|kA|\":\"AddKey\",\"|MTXP|publicKey\":\"0g|kS|\"");
    assert_eq!(d.error, Some(ExecError::InvalidHex));
    assert_eq!(d.batches.len(), 1);
    assert_eq!(d.batches[0].actions.len(), 0);
}

#[test]
fn unknown_kind_is_skipped() {
    let d = run("\"|kR|\":\"alice.near\",\"|kA|\":\"DeleteAccount\",\"|kP|x\":\"y|kS|\",\"|kA|\":\"Transfer\",\"|kP|deposit\":\"4|kS|\"");
    assert_eq!(d.error, None);
    assert_eq!(d.batches[0].actions, vec![Action::Transfer { deposit: 4 }]);
}

#[test]
fn missing_deposit_field() {
    let d = run("\"|kR|\":\"alice.near\",\"|kA|\":\"Transfer\",\"|kP|amount\":\"4|kS|\"");
    assert_eq!(d.error, Some(ExecError::MissingField));
    assert_eq!(d.batches.len(), 1);
}

#[test]
fn invalid_deposit_numeral() {
    let d = run("\"|kR|\":\"alice.near\",\"|kA|\":\"Transfer\",\"|kP|deposit\":\"4x|kS|\"");
    assert_eq!(d.error, Some(ExecError::InvalidNumeral));
}

#[test]
fn receiver_without_comma() {
    let d = run("\"|kR|\":\"alice.near\"");
    assert_eq!(d.error, Some(ExecError::MissingSeparator));
    assert_eq!(d.batches.len(), 0);
}

#[test]
fn receiver_too_short_for_quotes() {
    let d = run("\"|kR|\":x,\"|kA|\":\"Transfer\",\"|kP|deposit\":\"4|kS|\"");
    assert_eq!(d.error, Some(ExecError::MissingQuotes));
}

#[test]
fn message_without_receivers_does_nothing() {
    let d = run("just a preamble");
    assert_eq!(d.error, None);
    assert_eq!(d.batches.len(), 0);
}

#[test]
fn invalid_utf8_message() {
    let d = dispatch(&[0xff, 0xfe], Some(RULES.as_bytes()));
    assert_eq!(d.error, Some(ExecError::InvalidUtf8));
}

#[test]
fn rules_missing_from_storage() {
    let d = dispatch(b"\"|kR|\":\"alice.near\",", None);
    assert_eq!(d.error, Some(ExecError::StorageMissing));
}

#[test]
fn rules_with_bad_amount() {
    let rules = "\"|kP|contracts\":\"a|kS|\",\"|kP|methods\":\"m|kS|\",\"|kP|amounts\":\"1,z|kS|\"";
    let d = dispatch(b"", Some(rules.as_bytes()));
    assert_eq!(d.error, Some(ExecError::InvalidNumeral));
    assert!(matches!(load_rules(rules.as_bytes()), Err(ExecError::InvalidNumeral)));
}

#[test]
fn rules_without_methods() {
    let rules = "\"|kP|contracts\":\"a|kS|\",\"|kP|amounts\":\"1|kS|\"";
    assert!(matches!(load_rules(rules.as_bytes()), Err(ExecError::MissingField)));
}

#[test]
fn rules_are_loaded() {
    let r = load_rules(RULES.as_bytes()).ok().unwrap();
    assert_eq!(r.contracts, vec![b"alice.near".to_vec(), b"bob.near".to_vec()]);
    assert_eq!(r.methods, vec![b"ft_transfer".to_vec()]);
    assert_eq!(r.amounts, vec![1u128, 1000000000000000000000000u128]);
}

#[test]
fn transfer_round_trip_of_largest_amount() {
    let amount = u128::MAX;
    let msg = format!("\"|kR|\":\"bob.near\",\"|kA|\":\"Transfer\",\"|kP|deposit\":\"{}|kS|\"", amount);
    let d = run(&msg);
    assert_eq!(d.error, None);
    assert_eq!(d.batches[0].receiver, b"bob.near".to_vec());
    assert_eq!(d.batches[0].actions, vec![Action::Transfer { deposit: amount }]);
}

#[test]
fn resubmitting_gives_the_same_dispatch() {
    let msg = b"\"|kR|\":\"alice.near\",\"|kA|\":\"Transfer\",\"|kP|deposit\":\"500|kS|\"";
    let (n1, d1) = execute(Some(0), msg, Some(RULES.as_bytes())).ok().unwrap();
    let (n2, d2) = execute(Some(n1), msg, Some(RULES.as_bytes())).ok().unwrap();
    assert_eq!(n1, 1);
    assert_eq!(n2, 2);
    assert_eq!(d1, d2);
}

#[test]
fn setup_strips_quotes_and_resets_nonce() {
    let (rules, nonce) = setup(b"\"{\\\"|kP|contracts\\\":\\\"a|kS|\\\"}\"").ok().unwrap();
    assert_eq!(rules, b"{\"|kP|contracts\":\"a|kS|\"}".to_vec());
    assert_eq!(nonce, 0);
    assert_eq!(nonce_hex(nonce), b"0000000000000000".to_vec());
}

#[test]
fn setup_rejects_short_input() {
    assert_eq!(setup(b"\"").err(), Some(ExecError::MissingQuotes));
}

#[test]
fn setup_rejects_invalid_utf8() {
    assert_eq!(setup(&[b'"', 0xff, b'"']).err(), Some(ExecError::InvalidUtf8));
}

#[test]
fn nonce_advances_even_when_call_aborts() {
    let (next, d) = execute(Some(41), b"\"|kR|\":\"eve.near\",x", Some(RULES.as_bytes())).ok().unwrap();
    assert_eq!(next, 42);
    assert_eq!(d.error, Some(ExecError::PolicyViolation));
    assert_eq!(nonce_hex(next), b"000000000000002a".to_vec());
}

#[test]
fn nonce_missing_or_exhausted() {
    assert_eq!(execute(None, b"", None).err(), Some(ExecError::StorageMissing));
    assert_eq!(advance_nonce(Some(u64::MAX)), Err(ExecError::NonceExhausted));
    assert_eq!(advance_nonce(Some(7)), Ok(8));
}

#[test]
fn nonce_hex_is_big_endian() {
    assert_eq!(nonce_hex(0x0102030405060708), b"0102030405060708".to_vec());
    assert_eq!(nonce_hex(u64::MAX), b"ffffffffffffffff".to_vec());
}

#[test]
fn decimal_numerals() {
    assert_eq!(parse_u128(b"0"), Some(0));
    assert_eq!(parse_u128(b"+12"), Some(12));
    assert_eq!(parse_u128(b"340282366920938463463374607431768211455"), Some(u128::MAX));
    assert_eq!(parse_u128(b"340282366920938463463374607431768211456"), None);
    assert_eq!(parse_u128(b""), None);
    assert_eq!(parse_u128(b"+"), None);
    assert_eq!(parse_u128(b"-1"), None);
}

#[test]
fn hex_codec() {
    assert_eq!(hex_to_bytes(b"00ffA0"), Some(vec![0, 255, 160]));
    assert_eq!(hex_to_bytes(b"abc"), None);
    assert_eq!(hex_to_bytes(b""), Some(vec![]));
    assert_eq!(bytes_to_hex(&[0, 255, 160]), b"00ffa0".to_vec());
}

#[test]
fn escape_removal() {
    assert_eq!(unescape_quotes(b"a\\\"b\\c\\"), b"a\"b\\c\\".to_vec());
    assert_eq!(strip_backslashes(b"a\\\"b\\c\\"), b"a\"bc".to_vec());
}

#[test]
fn scanning() {
    assert_eq!(find(b"abcabc", b"ca", 0), Some(2));
    assert_eq!(find(b"abcabc", b"bc", 2), Some(4));
    assert_eq!(find(b"abc", b"d", 0), None);
    assert_eq!(split(b"a,,b", b","), vec![b"a".to_vec(), vec![], b"b".to_vec()]);
    assert_eq!(split_once(b"ab,c,d", b','), Some((b"ab".to_vec(), b"c,d".to_vec())));
    assert_eq!(unquote(b"\"x\""), Some(b"x".to_vec()));
    assert_eq!(field(b"k\":\"v|kS|\"", b"k\":\"", b"|kS|\""), Some(b"v".to_vec()));
    assert_eq!(field(b"k\":\"v", b"k\":\"", b"|kS|\""), None);
}

#[test]
fn decode_single_action() {
    assert_eq!(decode_action(b"\"Transfer\",\"|kP|deposit\":\"3|kS|\""), Ok(Some(Action::Transfer { deposit: 3 })));
    assert_eq!(decode_action(b"\"Transfer\""), Err(ExecError::MissingSeparator));
}
