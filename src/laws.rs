//! Properties that hold across the functions of the interpreter.
use vstd::prelude::*;
use crate::codec::{
    all_digits, decimal_spec, digits_value, hex_decode_spec, hex_encode_spec, is_digit, is_hex_text,
    numeral_digits, unescape_quotes_spec, without_backslashes_prefix, without_backslashes_spec,
};
use crate::engine::{
    decode_action_spec, dispatch_spec, rules_spec, run_actions_spec, run_tx_spec, run_txs_spec, ActionModel,
    BatchModel, DispatchModel, ExecError,
};
use crate::scan::{
    field_spec, find_from, lemma_find_from_bounds, lemma_find_from_skip, occurs_at, split_once_spec, split_spec,
    unquote_spec,
};
use crate::state::{be_bytes_spec, nonce_hex_spec, setup_spec};
use crate::tokens::{action_marker, deposit_key, public_key_key, receiver_marker, stop_marker, transfer_tag};

verus! {

/// After a successful setup the stored rules are the input without its
/// wrapping quotes and with each escaped quote unescaped, and the nonce view
/// of the initial nonce reads zero: sixteen `0` digits.
pub proof fn lemma_setup_nonce_zero(input: Seq<u8>)
    requires
        setup_spec(input) is Ok,
    ensures
        setup_spec(input) == Ok::<Seq<u8>, ExecError>(unescape_quotes_spec(input.subrange(1, input.len() - 1))),
        nonce_hex_spec(0) == Seq::new(16, |i: int| 48u8),
{
    reveal_with_fuel(be_bytes_spec, 9);
    reveal_with_fuel(hex_encode_spec, 9);
    let z = be_bytes_spec(0, 8);
    assert(z =~= Seq::new(8, |i: int| 0u8));
    assert(z.drop_last() =~= Seq::new(7, |i: int| 0u8));
    assert(hex_encode_spec(z) =~= Seq::new(16, |i: int| 48u8));
}

/// A transaction whose receiver is not on the allow-list stops the call: no
/// batch is opened for it or for any transaction after it.
pub proof fn lemma_unlisted_receiver_aborts(
    frags: Seq<Seq<u8>>,
    contracts: Seq<Seq<u8>>,
    j: int,
    quoted: Seq<u8>,
    rest: Seq<u8>,
    receiver: Seq<u8>,
)
    requires
        0 <= j < frags.len(),
        split_once_spec(frags[j], 44) == Some((quoted, rest)),
        unquote_spec(quoted) == Some(receiver),
        !contracts.contains(receiver),
    ensures
        run_txs_spec(frags, contracts).0.len() <= j,
        run_txs_spec(frags, contracts).1 is Some,
    decreases j,
{
    if j == 0 {
        assert(run_tx_spec(frags[0], contracts) == (None::<crate::engine::BatchModel>, Some(ExecError::PolicyViolation)));
    } else {
        let first = run_tx_spec(frags[0], contracts);
        if first.1 is None {
            assert(frags.drop_first()[j - 1] == frags[j]);
            lemma_unlisted_receiver_aborts(frags.drop_first(), contracts, j - 1, quoted, rest, receiver);
            assert(first.0 is Some);
        }
    }
}

/// Call arguments are forwarded with no backslash left, and an escaped
/// quote `\"` between two parts becomes a plain quote between the two parts,
/// each with its own backslashes removed.
pub proof fn lemma_args_unescaped(x: Seq<u8>, y: Seq<u8>)
    ensures
        forall|i: int| 0 <= i < without_backslashes_spec(x).len()
            ==> #[trigger] without_backslashes_spec(x)[i] != 92,
        without_backslashes_spec(x + seq![92u8, 34u8] + y)
            == without_backslashes_spec(x) + seq![34u8] + without_backslashes_spec(y),
{
    lemma_prefix_no_backslash(x, x.len() as int);
    let e = seq![92u8, 34u8];
    lemma_without_backslashes_concat(x, e);
    lemma_without_backslashes_concat(x + e, y);
    reveal_with_fuel(without_backslashes_prefix, 3);
    assert(without_backslashes_spec(e) =~= seq![34u8]);
}

proof fn lemma_prefix_agree(s: Seq<u8>, t: Seq<u8>, k: int)
    requires
        0 <= k <= s.len(),
        k <= t.len(),
        forall|i: int| 0 <= i < k ==> s[i] == t[i],
    ensures
        without_backslashes_prefix(s, k) == without_backslashes_prefix(t, k),
    decreases k,
{
    if k > 0 {
        lemma_prefix_agree(s, t, k - 1);
    }
}

proof fn lemma_concat_prefix(a: Seq<u8>, b: Seq<u8>, k: int)
    requires
        0 <= k <= b.len(),
    ensures
        without_backslashes_prefix(a + b, a.len() + k)
            == without_backslashes_spec(a) + without_backslashes_prefix(b, k),
    decreases k,
{
    if k == 0 {
        lemma_prefix_agree(a + b, a, a.len() as int);
        assert(without_backslashes_spec(a) + Seq::<u8>::empty() =~= without_backslashes_spec(a));
    } else {
        lemma_concat_prefix(a, b, k - 1);
        assert((a + b)[a.len() + k - 1] == b[k - 1]);
        let p = without_backslashes_spec(a);
        let q = without_backslashes_prefix(b, k - 1);
        assert((p + q).push(b[k - 1]) =~= p + q.push(b[k - 1]));
    }
}

/// Removing backslashes from two parts one after the other is removing them
/// from the whole.
proof fn lemma_without_backslashes_concat(a: Seq<u8>, b: Seq<u8>)
    ensures
        without_backslashes_spec(a + b) == without_backslashes_spec(a) + without_backslashes_spec(b),
{
    lemma_concat_prefix(a, b, b.len() as int);
}

proof fn lemma_prefix_no_backslash(s: Seq<u8>, k: int)
    requires
        0 <= k <= s.len(),
    ensures
        forall|i: int| 0 <= i < without_backslashes_prefix(s, k).len()
            ==> #[trigger] without_backslashes_prefix(s, k)[i] != 92,
    decreases k,
{
    if k > 0 {
        lemma_prefix_no_backslash(s, k - 1);
        let p = without_backslashes_prefix(s, k - 1);
        if s[k - 1] != 92 {
            assert forall|i: int| 0 <= i < p.push(s[k - 1]).len() implies #[trigger] p.push(s[k - 1])[i] != 92 by {
                if i < p.len() {
                    assert(p.push(s[k - 1])[i] == p[i]);
                }
            }
        }
    }
}

/// A public key given as `2 * n` hex digits becomes a key of `n + 1` bytes
/// whose first byte, the curve tag, is 0.
pub proof fn lemma_public_key_length(frag: Seq<u8>, text: Seq<u8>, key: Seq<u8>)
    requires
        field_spec(frag, public_key_key(), stop_marker()) == Some(text),
        decode_action_spec(frag) == Ok::<Option<ActionModel>, ExecError>(
            Some(ActionModel::AddFullAccessKey { public_key: key })),
    ensures
        text.len() % 2 == 0,
        key.len() == text.len() / 2 + 1,
        key[0] == 0,
{
    assert(is_hex_text(text));
    assert(key == seq![0u8] + hex_decode_spec(text).unwrap());
}

/// The shortest decimal numeral of `n`.
pub open spec fn decimal_text(n: nat) -> Seq<u8>
    decreases n,
{
    if n < 10 {
        seq![(48 + n) as u8]
    } else {
        decimal_text(n / 10).push((48 + n % 10) as u8)
    }
}

proof fn lemma_decimal_text(n: nat)
    ensures
        decimal_text(n).len() > 0,
        all_digits(decimal_text(n)),
        digits_value(decimal_text(n)) == n,
    decreases n,
{
    let t = decimal_text(n);
    if n < 10 {
        assert(t.drop_last() =~= Seq::<u8>::empty());
        assert(t.last() == 48 + n);
        assert(digits_value(t) == digits_value(t.drop_last()) * 10 + (t.last() - 48) as nat);
    } else {
        lemma_decimal_text(n / 10);
        let p = decimal_text(n / 10);
        assert(t.drop_last() =~= p);
        assert forall|i: int| 0 <= i < t.len() implies is_digit(#[trigger] t[i]) by {
            if i < p.len() {
                assert(t[i] == p[i]);
            }
        }
        vstd::arithmetic::div_mod::lemma_fundamental_div_mod(n as int, 10);
        assert(t.last() == 48 + n % 10);
        assert(digits_value(t) == digits_value(p) * 10 + (t.last() - 48) as nat);
        assert(digits_value(t) == (n / 10) * 10 + n % 10);
    }
}

/// A decimal numeral reads back as the number it was written from, over the
/// whole `u128` range.
pub proof fn lemma_decimal_round_trip(a: u128)
    ensures
        decimal_spec(decimal_text(a as nat)) == Some(a),
{
    lemma_decimal_text(a as nat);
    assert(decimal_text(a as nat)[0] != 43);
    assert(numeral_digits(decimal_text(a as nat)) == decimal_text(a as nat));
}

proof fn lemma_first_at(h: Seq<u8>, m: Seq<u8>, from: int, i: int)
    requires
        0 <= from <= i,
        occurs_at(h, m, i),
        forall|k: int| from <= k < i ==> !occurs_at(h, m, k),
    ensures
        find_from(h, m, from) == Some(i),
{
    lemma_find_from_skip(h, m, from, i);
}

proof fn lemma_first_byte(h: Seq<u8>, m: Seq<u8>, k: int)
    requires
        m.len() > 0,
        occurs_at(h, m, k),
    ensures
        h[k] == m[0],
{
    assert(h.subrange(k, k + m.len())[0] == h[k]);
}

/// `c` is not a byte of `s`.
pub open spec fn lacks(s: Seq<u8>, c: u8) -> bool {
    forall|i: int| 0 <= i < s.len() ==> #[trigger] s[i] != c
}

/// The first byte `c` of `a + b`, where `a` has none and `b` starts with it,
/// is the one at `a.len()`.
proof fn lemma_split_once_at(a: Seq<u8>, b: Seq<u8>, c: u8)
    requires
        lacks(a, c),
        b.len() > 0,
        b[0] == c,
    ensures
        split_once_spec(a + b, c) == Some((a, b.drop_first())),
{
    let h = a + b;
    assert forall|k: int| 0 <= k < a.len() implies !occurs_at(h, seq![c], k) by {
        if occurs_at(h, seq![c], k) {
            lemma_first_byte(h, seq![c], k);
            assert(h[k] == a[k]);
        }
    }
    assert(h.subrange(a.len() as int, a.len() + 1 as int) =~= seq![c]);
    lemma_first_at(h, seq![c], 0, a.len() as int);
    assert(h.subrange(0, a.len() as int) =~= a);
    assert(h.subrange(a.len() + 1 as int, h.len() as int) =~= b.drop_first());
}

/// The field that `key` opens at the start of `key + v + stop` is `v`, where
/// `v` lacks the first byte of `stop`.
proof fn lemma_leading_field(pre: Seq<u8>, key: Seq<u8>, v: Seq<u8>, stop: Seq<u8>)
    requires
        key.len() > 0,
        lacks(pre, key[0]),
        stop.len() > 0,
        lacks(v, stop[0]),
    ensures
        field_spec(pre + key + v + stop, key, stop) == Some(v),
{
    let h = pre + key + v + stop;
    let p = pre.len() as int;
    assert(h.subrange(p, p + key.len()) =~= key);
    assert forall|k: int| 0 <= k < p implies !occurs_at(h, key, k) by {
        if occurs_at(h, key, k) {
            lemma_first_byte(h, key, k);
            assert(h[k] == pre[k]);
        }
    }
    lemma_first_at(h, key, 0, p);
    let s = p + key.len();
    let e = s + v.len();
    assert forall|k: int| s <= k < e implies !occurs_at(h, stop, k) by {
        if occurs_at(h, stop, k) {
            lemma_first_byte(h, stop, k);
            assert(h[k] == v[k - s]);
        }
    }
    assert(h.subrange(e, e + stop.len()) =~= stop);
    lemma_first_at(h, stop, s, e);
    assert(h.subrange(s, e) =~= v);
}

/// The text of a transfer action of `a`, after its action marker.
pub open spec fn transfer_action_text(a: u128) -> Seq<u8> {
    seq![34u8] + transfer_tag() + seq![34u8] + (seq![44u8] + (seq![34u8] + deposit_key() + decimal_text(a as nat) + stop_marker()))
}

/// A transfer action written with the numeral of `a` decodes to a transfer of `a`.
pub proof fn lemma_transfer_action_round_trip(a: u128)
    ensures
        decode_action_spec(transfer_action_text(a)) == Ok::<Option<ActionModel>, ExecError>(
            Some(ActionModel::Transfer { deposit: a })),
{
    let quoted = seq![34u8] + transfer_tag() + seq![34u8];
    let d = decimal_text(a as nat);
    let params = seq![34u8] + deposit_key() + d + stop_marker();
    assert(lacks(quoted, 44)) by {
        assert(quoted =~= seq![34u8, 84, 114, 97, 110, 115, 102, 101, 114, 34]);
    }
    lemma_split_once_at(quoted, seq![44u8] + params, 44);
    assert((seq![44u8] + params).drop_first() =~= params);
    assert(unquote_spec(quoted) == Some(transfer_tag())) by {
        assert(quoted.subrange(1, quoted.len() - 1) =~= transfer_tag());
    }
    lemma_decimal_text(a as nat);
    assert(lacks(d, stop_marker()[0]));
    lemma_leading_field(seq![34u8], deposit_key(), d, stop_marker());
    lemma_decimal_round_trip(a);
}

/// The literal head of a transfer action's text, up to its numeral.
pub open spec fn transfer_head() -> Seq<u8> {
    seq![34u8] + transfer_tag() + seq![34u8] + seq![44u8] + seq![34u8] + deposit_key()
}

/// No marker of the shape `"|k?|` with `?` other than `P` occurs in a
/// transfer action's text.
proof fn lemma_transfer_text_lacks(a: u128, m: Seq<u8>)
    requires
        m.len() >= 4,
        m[0] == 34,
        m[1] == 124,
        m[2] == 107,
        m[3] != 80,
    ensures
        forall|k: int| !occurs_at(transfer_action_text(a), m, k),
{
    let t = transfer_action_text(a);
    let head = transfer_head();
    let d = decimal_text(a as nat);
    lemma_decimal_text(a as nat);
    assert(t =~= head + d + stop_marker());
    assert(head =~= seq![34u8, 84, 114, 97, 110, 115, 102, 101, 114, 34, 44, 34, 124, 107, 80, 124, 100, 101, 112, 111, 115, 105, 116, 34, 58, 34]);
    let hl = head.len() as int;
    let dl = d.len() as int;
    assert forall|k: int| !occurs_at(t, m, k) by {
        if occurs_at(t, m, k) {
            assert(t.subrange(k, k + m.len())[0] == t[k]);
            assert(t.subrange(k, k + m.len())[1] == t[k + 1]);
            assert(t.subrange(k, k + m.len())[3] == t[k + 3]);
            if k < hl {
                assert(t[k] == head[k]);
                if k + 1 < hl {
                    assert(t[k + 1] == head[k + 1]);
                    if k + 3 < hl {
                        assert(t[k + 3] == head[k + 3]);
                    }
                } else {
                    assert(t[k + 1] == d[0]);
                }
            } else if k < hl + dl {
                assert(t[k] == d[k - hl]);
            } else {
                assert(t[k] == stop_marker()[k - hl - dl]);
                if k + 1 < t.len() {
                    assert(t[k + 1] == stop_marker()[k + 1 - hl - dl]);
                }
            }
        }
    }
}

proof fn lemma_split_leading(m: Seq<u8>, t: Seq<u8>)
    requires
        m.len() > 0,
        forall|k: int| !occurs_at(t, m, k),
    ensures
        split_spec(m + t, m) == seq![Seq::<u8>::empty(), t],
{
    let h = m + t;
    assert(h.subrange(0, m.len() as int) =~= m);
    lemma_first_at(h, m, 0, 0);
    assert(h.subrange(0, 0) =~= Seq::<u8>::empty());
    assert(h.subrange(m.len() as int, h.len() as int) =~= t);
    lemma_find_from_bounds(t, m, 0);
    assert(split_spec(t, m) == seq![t]);
    assert(seq![Seq::<u8>::empty()] + seq![t] =~= seq![Seq::<u8>::empty(), t]);
}

/// A byte that may stand in an account name: lower-case letters, digits,
/// `.`, `_` and `-`.
pub open spec fn account_byte(b: u8) -> bool {
    (97 <= b <= 122) || (48 <= b <= 57) || b == 46 || b == 95 || b == 45
}

pub open spec fn is_account_name(r: Seq<u8>) -> bool {
    forall|i: int| 0 <= i < r.len() ==> account_byte(#[trigger] r[i])
}

/// The text of a transaction to `r` with one transfer of `a`, after its receiver marker.
pub open spec fn transfer_tx_text(r: Seq<u8>, a: u128) -> Seq<u8> {
    seq![34u8] + r + seq![34u8] + (seq![44u8] + (action_marker() + transfer_action_text(a)))
}

/// The message of one transaction to `r` with one transfer of `a`.
pub open spec fn transfer_message(r: Seq<u8>, a: u128) -> Seq<u8> {
    receiver_marker() + transfer_tx_text(r, a)
}

proof fn lemma_transfer_tx(r: Seq<u8>, a: u128, contracts: Seq<Seq<u8>>)
    requires
        is_account_name(r),
        contracts.contains(r),
    ensures
        run_tx_spec(transfer_tx_text(r, a), contracts) == (
            Some(BatchModel { receiver: r, actions: seq![ActionModel::Transfer { deposit: a }] }),
            None::<ExecError>),
{
    let quoted = seq![34u8] + r + seq![34u8];
    let t = transfer_action_text(a);
    let rest = action_marker() + t;
    assert(lacks(quoted, 44)) by {
        assert forall|i: int| 0 <= i < quoted.len() implies #[trigger] quoted[i] != 44 by {
            if 0 < i < quoted.len() - 1 {
                assert(quoted[i] == r[i - 1]);
            }
        }
    }
    lemma_split_once_at(quoted, seq![44u8] + rest, 44);
    assert((seq![44u8] + rest).drop_first() =~= rest);
    assert(quoted.subrange(1, quoted.len() - 1) =~= r);
    lemma_transfer_text_lacks(a, action_marker());
    lemma_split_leading(action_marker(), t);
    assert(seq![Seq::<u8>::empty(), t].drop_first() =~= seq![t]);
    lemma_transfer_action_round_trip(a);
    assert(seq![t].drop_first() =~= Seq::<Seq<u8>>::empty());
    reveal_with_fuel(run_actions_spec, 2);
    assert(seq![t][0] == t);
    assert(run_actions_spec(seq![t]).0 =~= seq![ActionModel::Transfer { deposit: a }]);
}

proof fn lemma_tx_text_lacks_receiver_marker(r: Seq<u8>, a: u128)
    requires
        is_account_name(r),
    ensures
        forall|k: int| !occurs_at(transfer_tx_text(r, a), receiver_marker(), k),
{
    let h = transfer_tx_text(r, a);
    let m = receiver_marker();
    let t = transfer_action_text(a);
    let x = seq![34u8] + r + seq![34u8] + seq![44u8];
    let y = action_marker() + t;
    assert(h =~= x + y);
    lemma_transfer_text_lacks(a, m);
    let xl = x.len() as int;
    assert forall|k: int| !occurs_at(h, m, k) by {
        if occurs_at(h, m, k) {
            let w = h.subrange(k, k + 7);
            assert(w[0] == h[k] && w[1] == h[k + 1] && w[3] == h[k + 3] && w[6] == h[k + 6]);
            if k < xl {
                if k == 0 {
                    if r.len() > 0 {
                        assert(h[1] == r[0]);
                    } else {
                        assert(h[1] == 34);
                    }
                } else if k <= r.len() {
                    assert(h[k] == r[k - 1]);
                } else if k == r.len() + 1 {
                    assert(h[k + 1] == 44);
                } else {
                    assert(h[k] == 44);
                }
            } else if k < xl + 7 {
                let j = k - xl;
                assert(h[k] == action_marker()[j]);
                if j == 0 {
                    assert(h[k + 3] == action_marker()[3]);
                } else if j == 5 {
                    assert(h[k + 1] == action_marker()[6]);
                }
            } else {
                let j = k - xl - 7;
                assert(t.subrange(j, j + 7) =~= w);
                assert(occurs_at(t, m, j));
            }
        }
    }
}

/// Parsing the message of one transaction to an allowed account `r` with one
/// transfer of `a` gives one batch to `r` that transfers exactly `a`, for
/// every `u128` amount.
pub proof fn lemma_transfer_round_trip(r: Seq<u8>, a: u128, rules: Seq<u8>)
    requires
        is_account_name(r),
        rules_spec(rules) is Ok,
        rules_spec(rules).unwrap().contracts.contains(r),
    ensures
        dispatch_spec(transfer_message(r, a), true, Some(rules), true) == (DispatchModel {
            batches: seq![BatchModel { receiver: r, actions: seq![ActionModel::Transfer { deposit: a }] }],
            error: None,
        }),
{
    let tx = transfer_tx_text(r, a);
    lemma_tx_text_lacks_receiver_marker(r, a);
    lemma_split_leading(receiver_marker(), tx);
    assert(seq![Seq::<u8>::empty(), tx].drop_first() =~= seq![tx]);
    lemma_transfer_tx(r, a, rules_spec(rules).unwrap().contracts);
    assert(seq![tx].drop_first() =~= Seq::<Seq<u8>>::empty());
    let b = BatchModel { receiver: r, actions: seq![ActionModel::Transfer { deposit: a }] };
    reveal_with_fuel(run_txs_spec, 2);
    assert(seq![tx][0] == tx);
    assert(run_txs_spec(seq![tx], rules_spec(rules).unwrap().contracts).0 =~= seq![b]);
}

} // verus!
