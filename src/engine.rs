//! Parsing of a message into transactions and actions, validation against
//! the rules, and the ordered batches of host actions that result.
use vstd::prelude::*;
use crate::codec::{
    decimal_spec, hex_decode_spec, hex_to_bytes, parse_u128, strip_backslashes,
    without_backslashes_spec,
};
use crate::scan::{field, field_spec, split, split_once, split_once_spec, split_spec, unquote, unquote_spec, views};
use crate::tokens::{
    action_header, action_marker, add_key_name, add_key_tag, amounts_field, args_field, args_key,
    contracts_field, deposit_field, deposit_key, function_call_name, function_call_tag, gas_field,
    gas_key, method_name_field, method_name_key, methods_field, param_stop, public_key_field,
    public_key_key, receiver_header, receiver_marker, stop_marker, transfer_name, transfer_tag,
    amounts_key, contracts_key, methods_key,
};

verus! {

/// Why a call is aborted.
#[derive(Clone, Copy, Debug, PartialEq, Eq, Structural)]
pub enum ExecError {
    /// A marker or field that must be present is absent.
    MissingField,
    /// A receiver or action has no comma after its quoted name.
    MissingSeparator,
    /// A quoted name is shorter than its two quote characters.
    MissingQuotes,
    /// A numeral is not a base-10 unsigned 128-bit value.
    InvalidNumeral,
    /// A public key is not hexadecimal text.
    InvalidHex,
    /// Input or stored text is not UTF-8.
    InvalidUtf8,
    /// A receiver is not on the allow-list.
    PolicyViolation,
    /// The rules or the nonce have not been stored.
    StorageMissing,
    /// The nonce cannot be advanced any further.
    NonceExhausted,
}

/// One host action appended to a batch.
#[derive(Debug, PartialEq, Eq)]
pub enum Action {
    Transfer { deposit: u128 },
    FunctionCall { method_name: Vec<u8>, args: Vec<u8>, deposit: u128, gas: u64 },
    /// A full access key with key nonce 0; `public_key` starts with its curve tag.
    AddFullAccessKey { public_key: Vec<u8> },
}

/// The mathematical value of an `Action`.
pub ghost enum ActionModel {
    Transfer { deposit: u128 },
    FunctionCall { method_name: Seq<u8>, args: Seq<u8>, deposit: u128, gas: u64 },
    AddFullAccessKey { public_key: Seq<u8> },
}

impl View for Action {
    type V = ActionModel;

    open spec fn view(&self) -> ActionModel {
        match self {
            Action::Transfer { deposit } => ActionModel::Transfer { deposit: *deposit },
            Action::FunctionCall { method_name, args, deposit, gas } => ActionModel::FunctionCall {
                method_name: method_name@,
                args: args@,
                deposit: *deposit,
                gas: *gas,
            },
            Action::AddFullAccessKey { public_key } => ActionModel::AddFullAccessKey { public_key: public_key@ },
        }
    }
}

/// The actions addressed to one receiver, run in order.
#[derive(Debug, PartialEq, Eq)]
pub struct Batch {
    pub receiver: Vec<u8>,
    pub actions: Vec<Action>,
}

pub ghost struct BatchModel {
    pub receiver: Seq<u8>,
    pub actions: Seq<ActionModel>,
}

pub open spec fn action_views(v: Seq<Action>) -> Seq<ActionModel> {
    v.map_values(|a: Action| a@)
}

impl View for Batch {
    type V = BatchModel;

    open spec fn view(&self) -> BatchModel {
        BatchModel { receiver: self.receiver@, actions: action_views(self.actions@) }
    }
}

pub open spec fn batch_views(v: Seq<Batch>) -> Seq<BatchModel> {
    v.map_values(|b: Batch| b@)
}

/// The chain of batches to hand to the host, in order, and the error that
/// stopped the call after them, if any.
#[derive(Debug, PartialEq, Eq)]
pub struct Dispatch {
    pub batches: Vec<Batch>,
    pub error: Option<ExecError>,
}

pub ghost struct DispatchModel {
    pub batches: Seq<BatchModel>,
    pub error: Option<ExecError>,
}

impl View for Dispatch {
    type V = DispatchModel;

    open spec fn view(&self) -> DispatchModel {
        DispatchModel { batches: batch_views(self.batches@), error: self.error }
    }
}

/// A `u128` field of `h`.
pub open spec fn amount_field_spec(h: Seq<u8>, key: Seq<u8>) -> Result<u128, ExecError> {
    match field_spec(h, key, stop_marker()) {
        None => Err(ExecError::MissingField),
        Some(v) => match decimal_spec(v) {
            None => Err(ExecError::InvalidNumeral),
            Some(x) => Ok(x),
        },
    }
}

/// The action that one action fragment describes: `None` for a kind that is
/// not recognised.
pub open spec fn decode_action_spec(frag: Seq<u8>) -> Result<Option<ActionModel>, ExecError> {
    match split_once_spec(frag, 44) {
        None => Err(ExecError::MissingSeparator),
        Some((quoted, params)) => match unquote_spec(quoted) {
            None => Err(ExecError::MissingQuotes),
            Some(kind) => if kind == transfer_tag() {
                match amount_field_spec(params, deposit_key()) {
                    Err(e) => Err(e),
                    Ok(d) => Ok(Some(ActionModel::Transfer { deposit: d })),
                }
            } else if kind == function_call_tag() {
                match field_spec(params, method_name_key(), stop_marker()) {
                    None => Err(ExecError::MissingField),
                    Some(m) => match field_spec(params, args_key(), stop_marker()) {
                        None => Err(ExecError::MissingField),
                        Some(a) => match amount_field_spec(params, deposit_key()) {
                            Err(e) => Err(e),
                            Ok(d) => match amount_field_spec(params, gas_key()) {
                                Err(e) => Err(e),
                                Ok(g) => Ok(Some(ActionModel::FunctionCall {
                                    method_name: m,
                                    args: without_backslashes_spec(a),
                                    deposit: d,
                                    gas: g as u64,
                                })),
                            },
                        },
                    },
                }
            } else if kind == add_key_tag() {
                match field_spec(frag, public_key_key(), stop_marker()) {
                    None => Err(ExecError::MissingField),
                    Some(t) => match hex_decode_spec(t) {
                        None => Err(ExecError::InvalidHex),
                        Some(k) => Ok(Some(ActionModel::AddFullAccessKey { public_key: seq![0u8] + k })),
                    },
                }
            } else {
                Ok(None)
            },
        },
    }
}

pub open spec fn option_seq<A>(o: Option<A>) -> Seq<A> {
    match o {
        Some(a) => seq![a],
        None => Seq::empty(),
    }
}

/// The actions that a sequence of action fragments describes, up to the first error.
pub open spec fn run_actions_spec(frags: Seq<Seq<u8>>) -> (Seq<ActionModel>, Option<ExecError>)
    decreases frags.len(),
{
    if frags.len() == 0 {
        (Seq::empty(), None)
    } else {
        match decode_action_spec(frags[0]) {
            Err(e) => (Seq::empty(), Some(e)),
            Ok(a) => {
                let rest = run_actions_spec(frags.drop_first());
                (option_seq(a) + rest.0, rest.1)
            },
        }
    }
}

/// The batch that one transaction fragment opens, if it opens one, and the
/// error that stops the call within it, if any.
pub open spec fn run_tx_spec(frag: Seq<u8>, contracts: Seq<Seq<u8>>) -> (Option<BatchModel>, Option<ExecError>) {
    match split_once_spec(frag, 44) {
        None => (None, Some(ExecError::MissingSeparator)),
        Some((quoted, rest)) => match unquote_spec(quoted) {
            None => (None, Some(ExecError::MissingQuotes)),
            Some(receiver) => if !contracts.contains(receiver) {
                (None, Some(ExecError::PolicyViolation))
            } else {
                let acts = run_actions_spec(split_spec(rest, action_marker()).drop_first());
                (Some(BatchModel { receiver, actions: acts.0 }), acts.1)
            },
        },
    }
}

/// The batches that a sequence of transaction fragments opens, up to the first error.
pub open spec fn run_txs_spec(frags: Seq<Seq<u8>>, contracts: Seq<Seq<u8>>) -> (Seq<BatchModel>, Option<ExecError>)
    decreases frags.len(),
{
    if frags.len() == 0 {
        (Seq::empty(), None)
    } else {
        let first = run_tx_spec(frags[0], contracts);
        if first.1 is Some {
            (option_seq(first.0), first.1)
        } else {
            let rest = run_txs_spec(frags.drop_first(), contracts);
            (option_seq(first.0) + rest.0, rest.1)
        }
    }
}

fn bytes_eq(a: &[u8], b: &[u8]) -> (r: bool)
    ensures
        r == (a@ == b@),
{
    if a.len() != b.len() {
        return false;
    }
    let mut i: usize = 0;
    while i < a.len()
        invariant
            a@.len() == b@.len(),
            i <= a@.len(),
            forall|k: int| 0 <= k < i ==> a@[k] == b@[k],
        decreases a@.len() - i,
    {
        if a[i] != b[i] {
            return false;
        }
        i = i + 1;
    }
    proof { assert(a@ =~= b@); }
    true
}

/// Whether `x` is one of the byte strings of `list`.
pub fn contains_bytes(list: &Vec<Vec<u8>>, x: &[u8]) -> (r: bool)
    ensures
        r == views(list@).contains(x@),
{
    let mut i: usize = 0;
    while i < list.len()
        invariant
            i <= list@.len(),
            forall|k: int| 0 <= k < i ==> list@[k]@ != x@,
        decreases list@.len() - i,
    {
        if bytes_eq(list[i].as_slice(), x) {
            proof { assert(views(list@)[i as int] == x@); }
            return true;
        }
        i = i + 1;
    }
    proof {
        if views(list@).contains(x@) {
            let k = choose|k: int| 0 <= k < views(list@).len() && views(list@)[k] == x@;
            assert(list@[k]@ == x@);
        }
    }
    false
}

fn amount_field(h: &[u8], key: &[u8]) -> (r: Result<u128, ExecError>)
    ensures
        r == amount_field_spec(h@, key@),
{
    let stop = param_stop();
    match field(h, key, stop.as_slice()) {
        None => Err(ExecError::MissingField),
        Some(v) => match parse_u128(v.as_slice()) {
            None => Err(ExecError::InvalidNumeral),
            Some(x) => Ok(x),
        },
    }
}

pub open spec fn decoded_view(r: Result<Option<Action>, ExecError>) -> Result<Option<ActionModel>, ExecError> {
    match r {
        Ok(Some(a)) => Ok(Some(a@)),
        Ok(None) => Ok(None),
        Err(e) => Err(e),
    }
}

/// Decodes one action fragment: its quoted kind, a comma, then its fields.
pub fn decode_action(frag: &[u8]) -> (r: Result<Option<Action>, ExecError>)
    ensures
        decoded_view(r) == decode_action_spec(frag@),
{
    let stop = param_stop();
    let (quoted, params) = match split_once(frag, 44u8) {
        None => return Err(ExecError::MissingSeparator),
        Some(p) => p,
    };
    let kind = match unquote(quoted.as_slice()) {
        None => return Err(ExecError::MissingQuotes),
        Some(k) => k,
    };
    let transfer = transfer_name();
    let function_call = function_call_name();
    let add_key = add_key_name();
    if bytes_eq(kind.as_slice(), transfer.as_slice()) {
        let dk = deposit_field();
        match amount_field(params.as_slice(), dk.as_slice()) {
            Err(e) => Err(e),
            Ok(d) => Ok(Some(Action::Transfer { deposit: d })),
        }
    } else if bytes_eq(kind.as_slice(), function_call.as_slice()) {
        let mk = method_name_field();
        let ak = args_field();
        let dk = deposit_field();
        let gk = gas_field();
        let method_name = match field(params.as_slice(), mk.as_slice(), stop.as_slice()) {
            None => return Err(ExecError::MissingField),
            Some(m) => m,
        };
        let raw_args = match field(params.as_slice(), ak.as_slice(), stop.as_slice()) {
            None => return Err(ExecError::MissingField),
            Some(a) => a,
        };
        let deposit = match amount_field(params.as_slice(), dk.as_slice()) {
            Err(e) => return Err(e),
            Ok(d) => d,
        };
        let gas = match amount_field(params.as_slice(), gk.as_slice()) {
            Err(e) => return Err(e),
            Ok(g) => g,
        };
        let args = strip_backslashes(raw_args.as_slice());
        Ok(Some(Action::FunctionCall { method_name, args, deposit, gas: gas as u64 }))
    } else if bytes_eq(kind.as_slice(), add_key.as_slice()) {
        let pk = public_key_field();
        let text = match field(frag, pk.as_slice(), stop.as_slice()) {
            None => return Err(ExecError::MissingField),
            Some(t) => t,
        };
        match hex_to_bytes(text.as_slice()) {
            None => Err(ExecError::InvalidHex),
            Some(raw) => {
                let mut key: Vec<u8> = vec![0u8];
                let mut i: usize = 0;
                while i < raw.len()
                    invariant
                        i <= raw@.len(),
                        key@ == seq![0u8] + raw@.subrange(0, i as int),
                    decreases raw@.len() - i,
                {
                    key.push(raw[i]);
                    proof { assert(key@ =~= seq![0u8] + raw@.subrange(0, i + 1)); }
                    i = i + 1;
                }
                proof { assert(raw@.subrange(0, raw@.len() as int) =~= raw@); }
                Ok(Some(Action::AddFullAccessKey { public_key: key }))
            },
        }
    } else {
        Ok(None)
    }
}

proof fn lemma_skip_step<A>(s: Seq<A>, i: int)
    requires
        0 <= i < s.len(),
    ensures
        s.skip(i).len() > 0,
        s.skip(i)[0] == s[i],
        s.skip(i).drop_first() == s.skip(i + 1),
{
    assert(s.skip(i).drop_first() =~= s.skip(i + 1));
}

/// Decodes the action fragments in order, up to the first error.
pub fn run_actions(frags: &Vec<Vec<u8>>) -> (r: (Vec<Action>, Option<ExecError>))
    ensures
        (action_views(r.0@), r.1) == run_actions_spec(views(frags@)),
{
    let mut acts: Vec<Action> = Vec::new();
    let mut i: usize = 0;
    let ghost all = views(frags@);
    proof {
        assert(all.skip(0) =~= all);
        assert(action_views(acts@) + run_actions_spec(all).0 =~= run_actions_spec(all).0);
    }
    while i < frags.len()
        invariant
            i <= frags@.len(),
            all == views(frags@),
            run_actions_spec(all) == (action_views(acts@) + run_actions_spec(all.skip(i as int)).0,
                run_actions_spec(all.skip(i as int)).1),
        decreases frags@.len() - i,
    {
        proof { lemma_skip_step(all, i as int); }
        let ghost before = action_views(acts@);
        match decode_action(frags[i].as_slice()) {
            Err(e) => {
                proof { assert(before + Seq::empty() =~= before); }
                return (acts, Some(e));
            },
            Ok(None) => {
                proof { assert(before + (Seq::<ActionModel>::empty() + run_actions_spec(all.skip(i + 1)).0) =~= before + run_actions_spec(all.skip(i + 1)).0); }
            },
            Ok(Some(a)) => {
                let ghost av = a@;
                acts.push(a);
                proof {
                    assert(action_views(acts@) =~= before.push(av));
                    assert(before + (seq![av] + run_actions_spec(all.skip(i + 1)).0) =~= before.push(av) + run_actions_spec(all.skip(i + 1)).0);
                }
            },
        }
        i = i + 1;
    }
    proof { assert(action_views(acts@) + Seq::empty() =~= action_views(acts@)); }
    (acts, None)
}

pub open spec fn batch_opt_view(b: Option<Batch>) -> Option<BatchModel> {
    match b {
        Some(x) => Some(x@),
        None => None,
    }
}

/// Validates one transaction fragment and decodes its actions.
pub fn run_tx(frag: &[u8], contracts: &Vec<Vec<u8>>) -> (r: (Option<Batch>, Option<ExecError>))
    ensures
        (batch_opt_view(r.0), r.1) == run_tx_spec(frag@, views(contracts@)),
{
    let (quoted, rest) = match split_once(frag, 44u8) {
        None => return (None, Some(ExecError::MissingSeparator)),
        Some(p) => p,
    };
    let receiver = match unquote(quoted.as_slice()) {
        None => return (None, Some(ExecError::MissingQuotes)),
        Some(x) => x,
    };
    if !contains_bytes(contracts, receiver.as_slice()) {
        return (None, Some(ExecError::PolicyViolation));
    }
    let marker = action_header();
    let mut pieces = split(rest.as_slice(), marker.as_slice());
    let ghost whole = views(pieces@);
    let mut frags: Vec<Vec<u8>> = Vec::new();
    if pieces.len() > 0 {
        pieces.remove(0);
        frags = pieces;
    }
    proof {
        if whole.len() > 0 {
            assert(views(frags@) =~= whole.drop_first());
        }
    }
    assert(whole.len() > 0) by {
        reveal_with_fuel(split_spec, 1);
    }
    let (actions, err) = run_actions(&frags);
    (Some(Batch { receiver, actions }), err)
}

/// Validates and decodes the transaction fragments in order, up to the first error.
pub fn run_txs(frags: &Vec<Vec<u8>>, contracts: &Vec<Vec<u8>>) -> (r: (Vec<Batch>, Option<ExecError>))
    ensures
        (batch_views(r.0@), r.1) == run_txs_spec(views(frags@), views(contracts@)),
{
    let mut batches: Vec<Batch> = Vec::new();
    let mut i: usize = 0;
    let ghost all = views(frags@);
    let ghost cs = views(contracts@);
    proof {
        assert(all.skip(0) =~= all);
        assert(batch_views(batches@) + run_txs_spec(all, cs).0 =~= run_txs_spec(all, cs).0);
    }
    while i < frags.len()
        invariant
            i <= frags@.len(),
            all == views(frags@),
            cs == views(contracts@),
            run_txs_spec(all, cs) == (batch_views(batches@) + run_txs_spec(all.skip(i as int), cs).0,
                run_txs_spec(all.skip(i as int), cs).1),
        decreases frags@.len() - i,
    {
        proof { lemma_skip_step(all, i as int); }
        let ghost before = batch_views(batches@);
        let (b, e) = run_tx(frags[i].as_slice(), contracts);
        let ghost bv = batch_opt_view(b);
        match b {
            Some(x) => {
                batches.push(x);
                proof { assert(batch_views(batches@) =~= before + option_seq(bv)); }
            },
            None => {
                proof { assert(batch_views(batches@) =~= before + option_seq(bv)); }
            },
        }
        if e.is_some() {
            return (batches, e);
        }
        proof {
            let rest = run_txs_spec(all.skip(i + 1), cs).0;
            assert(before + (option_seq(bv) + rest) =~= (before + option_seq(bv)) + rest);
        }
        i = i + 1;
    }
    proof { assert(batch_views(batches@) + Seq::empty() =~= batch_views(batches@)); }
    (batches, None)
}

/// The rules record: allowed receivers, methods and amounts.
pub struct Rules {
    pub contracts: Vec<Vec<u8>>,
    pub methods: Vec<Vec<u8>>,
    pub amounts: Vec<u128>,
}

pub ghost struct RulesModel {
    pub contracts: Seq<Seq<u8>>,
    pub methods: Seq<Seq<u8>>,
    pub amounts: Seq<u128>,
}

impl View for Rules {
    type V = RulesModel;

    open spec fn view(&self) -> RulesModel {
        RulesModel { contracts: views(self.contracts@), methods: views(self.methods@), amounts: self.amounts@ }
    }
}

/// Every piece is a base-10 unsigned 128-bit numeral.
pub open spec fn all_numerals(pieces: Seq<Seq<u8>>) -> bool {
    forall|i: int| 0 <= i < pieces.len() ==> (#[trigger] decimal_spec(pieces[i])) is Some
}

/// The rules that a stored rules text holds: three comma-separated fields.
pub open spec fn rules_spec(r: Seq<u8>) -> Result<RulesModel, ExecError> {
    match field_spec(r, contracts_key(), stop_marker()) {
        None => Err(ExecError::MissingField),
        Some(c) => match field_spec(r, methods_key(), stop_marker()) {
            None => Err(ExecError::MissingField),
            Some(m) => match field_spec(r, amounts_key(), stop_marker()) {
                None => Err(ExecError::MissingField),
                Some(a) => {
                    let pieces = split_spec(a, seq![44u8]);
                    if all_numerals(pieces) {
                        Ok(RulesModel {
                            contracts: split_spec(c, seq![44u8]),
                            methods: split_spec(m, seq![44u8]),
                            amounts: Seq::new(pieces.len(), |i: int| decimal_spec(pieces[i]).unwrap()),
                        })
                    } else {
                        Err(ExecError::InvalidNumeral)
                    }
                },
            },
        },
    }
}

pub open spec fn rules_view(r: Result<Rules, ExecError>) -> Result<RulesModel, ExecError> {
    match r {
        Ok(x) => Ok(x@),
        Err(e) => Err(e),
    }
}

/// Reads the rules out of their stored text.
pub fn load_rules(r: &[u8]) -> (res: Result<Rules, ExecError>)
    ensures
        rules_view(res) == rules_spec(r@),
{
    let stop = param_stop();
    let comma: Vec<u8> = vec![44u8];
    proof { assert(comma@ =~= seq![44u8]); }
    let ck = contracts_field();
    let mk = methods_field();
    let ak = amounts_field();
    let c = match field(r, ck.as_slice(), stop.as_slice()) {
        None => return Err(ExecError::MissingField),
        Some(x) => x,
    };
    let m = match field(r, mk.as_slice(), stop.as_slice()) {
        None => return Err(ExecError::MissingField),
        Some(x) => x,
    };
    let a = match field(r, ak.as_slice(), stop.as_slice()) {
        None => return Err(ExecError::MissingField),
        Some(x) => x,
    };
    let pieces = split(a.as_slice(), comma.as_slice());
    let ghost ps = views(pieces@);
    let mut amounts: Vec<u128> = Vec::new();
    let mut i: usize = 0;
    while i < pieces.len()
        invariant
            i <= pieces@.len(),
            ps == views(pieces@),
            ps == split_spec(a@, seq![44u8]),
            field_spec(r@, contracts_key(), stop_marker()) == Some(c@),
            field_spec(r@, methods_key(), stop_marker()) == Some(m@),
            field_spec(r@, amounts_key(), stop_marker()) == Some(a@),
            amounts@.len() == i,
            forall|k: int| 0 <= k < i ==> (#[trigger] decimal_spec(ps[k])) == Some(amounts@[k]),
        decreases pieces@.len() - i,
    {
        match parse_u128(pieces[i].as_slice()) {
            None => {
                proof { assert(decimal_spec(ps[i as int]) is None); assert(!all_numerals(ps)); }
                return Err(ExecError::InvalidNumeral);
            },
            Some(v) => {
                amounts.push(v);
            },
        }
        i = i + 1;
    }
    let contracts = split(c.as_slice(), comma.as_slice());
    let methods = split(m.as_slice(), comma.as_slice());
    let rules = Rules { contracts, methods, amounts };
    proof {
        assert(rules@.amounts =~= Seq::new(ps.len(), |k: int| decimal_spec(ps[k]).unwrap()));
    }
    Ok(rules)
}

/// Whether a byte string is valid UTF-8.
pub uninterp spec fn is_utf8(b: Seq<u8>) -> bool;

/// Relies on `core::str::from_utf8`: it succeeds exactly on valid UTF-8.
#[verifier::external_body]
fn utf8_valid(b: &[u8]) -> (r: bool)
    ensures
        r == is_utf8(b@),
{
    core::str::from_utf8(b).is_ok()
}

/// Whether `b` is valid UTF-8 text.
pub fn text_is_utf8(b: &[u8]) -> (r: bool)
    ensures
        r == is_utf8(b@),
{
    utf8_valid(b)
}

/// What a call does with a message and the stored rules, given whether each
/// of the two is valid UTF-8.
pub open spec fn dispatch_spec(msg: Seq<u8>, msg_text: bool, rules: Option<Seq<u8>>, rules_text: bool) -> DispatchModel {
    if !msg_text {
        DispatchModel { batches: Seq::empty(), error: Some(ExecError::InvalidUtf8) }
    } else {
        match rules {
            None => DispatchModel { batches: Seq::empty(), error: Some(ExecError::StorageMissing) },
            Some(r) => if !rules_text {
                DispatchModel { batches: Seq::empty(), error: Some(ExecError::InvalidUtf8) }
            } else {
                match rules_spec(r) {
                    Err(e) => DispatchModel { batches: Seq::empty(), error: Some(e) },
                    Ok(rm) => {
                        let t = run_txs_spec(split_spec(msg, receiver_marker()).drop_first(), rm.contracts);
                        DispatchModel { batches: t.0, error: t.1 }
                    },
                }
            },
        }
    }
}

pub open spec fn opt_bytes(o: Option<&[u8]>) -> Option<Seq<u8>> {
    match o {
        Some(b) => Some(b@),
        None => None,
    }
}

fn aborted(e: ExecError) -> (r: Dispatch)
    ensures
        r@ == (DispatchModel { batches: Seq::empty(), error: Some(e) }),
{
    let r = Dispatch { batches: Vec::new(), error: Some(e) };
    proof { assert(r@.batches =~= Seq::empty()); }
    r
}

/// Interprets a message against the stored rules, given whether the message
/// and the rules are valid UTF-8.
pub fn dispatch_with(msg: &[u8], msg_text: bool, rules: Option<&[u8]>, rules_text: bool) -> (r: Dispatch)
    ensures
        r@ == dispatch_spec(msg@, msg_text, opt_bytes(rules), rules_text),
{
    if !msg_text {
        return aborted(ExecError::InvalidUtf8);
    }
    let stored = match rules {
        None => return aborted(ExecError::StorageMissing),
        Some(x) => x,
    };
    if !rules_text {
        return aborted(ExecError::InvalidUtf8);
    }
    let loaded = match load_rules(stored) {
        Err(e) => return aborted(e),
        Ok(x) => x,
    };
    let marker = receiver_header();
    let mut pieces = split(msg, marker.as_slice());
    let ghost whole = views(pieces@);
    assert(whole.len() > 0) by {
        reveal_with_fuel(split_spec, 1);
    }
    pieces.remove(0);
    proof { assert(views(pieces@) =~= whole.drop_first()); }
    let (batches, error) = run_txs(&pieces, &loaded.contracts);
    let r = Dispatch { batches, error };
    proof { assert(r@.batches == batch_views(r.batches@)); }
    r
}

/// Interprets a message against the stored rules.
pub fn dispatch(msg: &[u8], rules: Option<&[u8]>) -> (r: Dispatch)
    ensures
        r@ == dispatch_spec(msg@, is_utf8(msg@), opt_bytes(rules),
            match rules { Some(x) => is_utf8(x@), None => false }),
{
    let msg_text = text_is_utf8(msg);
    let rules_text = match rules {
        Some(x) => text_is_utf8(x),
        None => false,
    };
    dispatch_with(msg, msg_text, rules, rules_text)
}

} // verus!
