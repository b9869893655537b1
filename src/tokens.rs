//! The fixed tokens of the message and rules formats.
use vstd::prelude::*;

verus! {

/// The marker that opens a transaction: `"|kR|":`.
pub open spec fn receiver_marker() -> Seq<u8> {
    seq![34, 124, 107, 82, 124, 34, 58]
}

pub fn receiver_header() -> (r: Vec<u8>)
    ensures
        r@ == receiver_marker(),
{
    let r: Vec<u8> = vec![34, 124, 107, 82, 124, 34, 58];
    proof { assert(r@ =~= receiver_marker()); }
    r
}

/// The marker that opens an action: `"|kA|":`.
pub open spec fn action_marker() -> Seq<u8> {
    seq![34, 124, 107, 65, 124, 34, 58]
}

pub fn action_header() -> (r: Vec<u8>)
    ensures
        r@ == action_marker(),
{
    let r: Vec<u8> = vec![34, 124, 107, 65, 124, 34, 58];
    proof { assert(r@ =~= action_marker()); }
    r
}

/// The marker that closes a field value: `|kS|"`.
pub open spec fn stop_marker() -> Seq<u8> {
    seq![124, 107, 83, 124, 34]
}

pub fn param_stop() -> (r: Vec<u8>)
    ensures
        r@ == stop_marker(),
{
    let r: Vec<u8> = vec![124, 107, 83, 124, 34];
    proof { assert(r@ =~= stop_marker()); }
    r
}

/// The key of a deposit amount: `|kP|deposit":"`.
pub open spec fn deposit_key() -> Seq<u8> {
    seq![124, 107, 80, 124, 100, 101, 112, 111, 115, 105, 116, 34, 58, 34]
}

pub fn deposit_field() -> (r: Vec<u8>)
    ensures
        r@ == deposit_key(),
{
    let r: Vec<u8> = vec![124, 107, 80, 124, 100, 101, 112, 111, 115, 105, 116, 34, 58, 34];
    proof { assert(r@ =~= deposit_key()); }
    r
}

/// The key of a method name: `|kP|methodName":"`.
pub open spec fn method_name_key() -> Seq<u8> {
    seq![124, 107, 80, 124, 109, 101, 116, 104, 111, 100, 78, 97, 109, 101, 34, 58, 34]
}

pub fn method_name_field() -> (r: Vec<u8>)
    ensures
        r@ == method_name_key(),
{
    let r: Vec<u8> = vec![124, 107, 80, 124, 109, 101, 116, 104, 111, 100, 78, 97, 109, 101, 34, 58, 34];
    proof { assert(r@ =~= method_name_key()); }
    r
}

/// The key of call arguments: `|kP|args":"`.
pub open spec fn args_key() -> Seq<u8> {
    seq![124, 107, 80, 124, 97, 114, 103, 115, 34, 58, 34]
}

pub fn args_field() -> (r: Vec<u8>)
    ensures
        r@ == args_key(),
{
    let r: Vec<u8> = vec![124, 107, 80, 124, 97, 114, 103, 115, 34, 58, 34];
    proof { assert(r@ =~= args_key()); }
    r
}

/// The key of a gas amount: `|kP|gas":"`.
pub open spec fn gas_key() -> Seq<u8> {
    seq![124, 107, 80, 124, 103, 97, 115, 34, 58, 34]
}

pub fn gas_field() -> (r: Vec<u8>)
    ensures
        r@ == gas_key(),
{
    let r: Vec<u8> = vec![124, 107, 80, 124, 103, 97, 115, 34, 58, 34];
    proof { assert(r@ =~= gas_key()); }
    r
}

/// The key of a public key: `|MTXP|publicKey":"`.
pub open spec fn public_key_key() -> Seq<u8> {
    seq![124, 77, 84, 88, 80, 124, 112, 117, 98, 108, 105, 99, 75, 101, 121, 34, 58, 34]
}

pub fn public_key_field() -> (r: Vec<u8>)
    ensures
        r@ == public_key_key(),
{
    let r: Vec<u8> = vec![124, 77, 84, 88, 80, 124, 112, 117, 98, 108, 105, 99, 75, 101, 121, 34, 58, 34];
    proof { assert(r@ =~= public_key_key()); }
    r
}

/// The key of the allowed receivers in the rules: `|kP|contracts":"`.
pub open spec fn contracts_key() -> Seq<u8> {
    seq![124, 107, 80, 124, 99, 111, 110, 116, 114, 97, 99, 116, 115, 34, 58, 34]
}

pub fn contracts_field() -> (r: Vec<u8>)
    ensures
        r@ == contracts_key(),
{
    let r: Vec<u8> = vec![124, 107, 80, 124, 99, 111, 110, 116, 114, 97, 99, 116, 115, 34, 58, 34];
    proof { assert(r@ =~= contracts_key()); }
    r
}

/// The key of the allowed methods in the rules: `|kP|methods":"`.
pub open spec fn methods_key() -> Seq<u8> {
    seq![124, 107, 80, 124, 109, 101, 116, 104, 111, 100, 115, 34, 58, 34]
}

pub fn methods_field() -> (r: Vec<u8>)
    ensures
        r@ == methods_key(),
{
    let r: Vec<u8> = vec![124, 107, 80, 124, 109, 101, 116, 104, 111, 100, 115, 34, 58, 34];
    proof { assert(r@ =~= methods_key()); }
    r
}

/// The key of the allowed amounts in the rules: `|kP|amounts":"`.
pub open spec fn amounts_key() -> Seq<u8> {
    seq![124, 107, 80, 124, 97, 109, 111, 117, 110, 116, 115, 34, 58, 34]
}

pub fn amounts_field() -> (r: Vec<u8>)
    ensures
        r@ == amounts_key(),
{
    let r: Vec<u8> = vec![124, 107, 80, 124, 97, 109, 111, 117, 110, 116, 115, 34, 58, 34];
    proof { assert(r@ =~= amounts_key()); }
    r
}

/// The action kind of a transfer: `Transfer`.
pub open spec fn transfer_tag() -> Seq<u8> {
    seq![84, 114, 97, 110, 115, 102, 101, 114]
}

pub fn transfer_name() -> (r: Vec<u8>)
    ensures
        r@ == transfer_tag(),
{
    let r: Vec<u8> = vec![84, 114, 97, 110, 115, 102, 101, 114];
    proof { assert(r@ =~= transfer_tag()); }
    r
}

/// The action kind of a function call: `FunctionCall`.
pub open spec fn function_call_tag() -> Seq<u8> {
    seq![70, 117, 110, 99, 116, 105, 111, 110, 67, 97, 108, 108]
}

pub fn function_call_name() -> (r: Vec<u8>)
    ensures
        r@ == function_call_tag(),
{
    let r: Vec<u8> = vec![70, 117, 110, 99, 116, 105, 111, 110, 67, 97, 108, 108];
    proof { assert(r@ =~= function_call_tag()); }
    r
}

/// The action kind of a full access key addition: `AddKey`.
pub open spec fn add_key_tag() -> Seq<u8> {
    seq![65, 100, 100, 75, 101, 121]
}

pub fn add_key_name() -> (r: Vec<u8>)
    ensures
        r@ == add_key_tag(),
{
    let r: Vec<u8> = vec![65, 100, 100, 75, 101, 121];
    proof { assert(r@ =~= add_key_tag()); }
    r
}

} // verus!
