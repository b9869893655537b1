//! The persisted state of the interpreter: the rules text and the nonce.
use vstd::prelude::*;
use crate::codec::{bytes_to_hex, hex_encode_spec, unescape_quotes, unescape_quotes_spec};
use crate::engine::{dispatch, dispatch_spec, is_utf8, opt_bytes, Dispatch, DispatchModel, ExecError};
use crate::scan::{unquote, unquote_spec};

verus! {

/// The rules text that `setup` stores for its input: the input without its
/// wrapping quotes, with each `\"` turned into `"`.
pub open spec fn setup_spec(input: Seq<u8>) -> Result<Seq<u8>, ExecError> {
    match unquote_spec(input) {
        None => Err(ExecError::MissingQuotes),
        Some(inner) => if is_utf8(inner) {
            Ok(unescape_quotes_spec(inner))
        } else {
            Err(ExecError::InvalidUtf8)
        },
    }
}

/// Computes the rules text to store and the initial nonce, 0.
pub fn setup(input: &[u8]) -> (r: Result<(Vec<u8>, u64), ExecError>)
    ensures
        match (r, setup_spec(input@)) {
            (Ok((rules, nonce)), Ok(s)) => rules@ == s && nonce == 0,
            (Err(e), Err(f)) => e == f,
            _ => false,
        },
{
    let inner = match unquote(input) {
        None => return Err(ExecError::MissingQuotes),
        Some(x) => x,
    };
    if !crate::engine::text_is_utf8(inner.as_slice()) {
        return Err(ExecError::InvalidUtf8);
    }
    Ok((unescape_quotes(inner.as_slice()), 0))
}

/// The nonce that follows `stored`.
pub open spec fn advance_spec(stored: Option<u64>) -> Result<u64, ExecError> {
    match stored {
        None => Err(ExecError::StorageMissing),
        Some(n) => if n < u64::MAX {
            Ok((n + 1) as u64)
        } else {
            Err(ExecError::NonceExhausted)
        },
    }
}

/// Advances the stored nonce by one.
pub fn advance_nonce(stored: Option<u64>) -> (r: Result<u64, ExecError>)
    ensures
        r == advance_spec(stored),
{
    match stored {
        None => Err(ExecError::StorageMissing),
        Some(n) => match n.checked_add(1) {
            None => Err(ExecError::NonceExhausted),
            Some(m) => Ok(m),
        },
    }
}

/// One call: the nonce is advanced first, then the message is interpreted.
/// The new nonce is returned with the dispatch whatever error the dispatch
/// carries; the dispatch does not depend on the nonce.
pub fn execute(nonce: Option<u64>, msg: &[u8], rules: Option<&[u8]>) -> (r: Result<(u64, Dispatch), ExecError>)
    ensures
        match r {
            Ok((next, d)) => advance_spec(nonce) == Ok::<u64, ExecError>(next)
                && next == nonce.unwrap() + 1
                && d@ == dispatch_spec(msg@, is_utf8(msg@), opt_bytes(rules),
                    match rules { Some(x) => is_utf8(x@), None => false }),
            Err(e) => advance_spec(nonce) == Err::<u64, ExecError>(e),
        },
{
    let next = match advance_nonce(nonce) {
        Err(e) => return Err(e),
        Ok(n) => n,
    };
    let d = dispatch(msg, rules);
    Ok((next, d))
}

/// The `k` bytes of `n` below 256 to the `k`, most significant first.
pub open spec fn be_bytes_spec(n: nat, k: nat) -> Seq<u8>
    decreases k,
{
    if k == 0 {
        Seq::empty()
    } else {
        be_bytes_spec(n / 256, (k - 1) as nat).push((n % 256) as u8)
    }
}

fn be_bytes(n: u64, k: usize) -> (r: Vec<u8>)
    ensures
        r@ == be_bytes_spec(n as nat, k as nat),
    decreases k,
{
    if k == 0 {
        Vec::new()
    } else {
        let mut r = be_bytes(n / 256, k - 1);
        r.push((n % 256) as u8);
        r
    }
}

/// The hexadecimal text of a nonce: its eight big-endian bytes.
pub open spec fn nonce_hex_spec(n: u64) -> Seq<u8> {
    hex_encode_spec(be_bytes_spec(n as nat, 8))
}

/// The nonce as hexadecimal text, as the nonce view shows it.
pub fn nonce_hex(n: u64) -> (r: Vec<u8>)
    ensures
        r@ == nonce_hex_spec(n),
{
    let b = be_bytes(n, 8);
    bytes_to_hex(b.as_slice())
}

} // verus!
