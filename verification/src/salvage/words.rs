//! The fixed words the recovery looks for, as character sequences.

use vstd::prelude::*;

verus! {

/// `string`
pub open spec fn w_string() -> Seq<char> {
    seq!['s', 't', 'r', 'i', 'n', 'g']
}

pub fn w_string_chars() -> (r: Vec<char>)
    ensures
        r@ == w_string(),
{
    let r = vec!['s', 't', 'r', 'i', 'n', 'g'];
    assert(r@ =~= w_string());
    r
}

/// `true`
pub open spec fn w_true() -> Seq<char> {
    seq!['t', 'r', 'u', 'e']
}

pub fn w_true_chars() -> (r: Vec<char>)
    ensures
        r@ == w_true(),
{
    let r = vec!['t', 'r', 'u', 'e'];
    assert(r@ =~= w_true());
    r
}

/// `name`
pub open spec fn w_name() -> Seq<char> {
    seq!['n', 'a', 'm', 'e']
}

pub fn w_name_chars() -> (r: Vec<char>)
    ensures
        r@ == w_name(),
{
    let r = vec!['n', 'a', 'm', 'e'];
    assert(r@ =~= w_name());
    r
}

/// `invoke`
pub open spec fn w_invoke() -> Seq<char> {
    seq!['i', 'n', 'v', 'o', 'k', 'e']
}

pub fn w_invoke_chars() -> (r: Vec<char>)
    ensures
        r@ == w_invoke(),
{
    let r = vec!['i', 'n', 'v', 'o', 'k', 'e'];
    assert(r@ =~= w_invoke());
    r
}

/// `parameter`
pub open spec fn w_parameter() -> Seq<char> {
    seq!['p', 'a', 'r', 'a', 'm', 'e', 't', 'e', 'r']
}

pub fn w_parameter_chars() -> (r: Vec<char>)
    ensures
        r@ == w_parameter(),
{
    let r = vec!['p', 'a', 'r', 'a', 'm', 'e', 't', 'e', 'r'];
    assert(r@ =~= w_parameter());
    r
}

/// `tool_calls`
pub open spec fn w_tool_calls() -> Seq<char> {
    seq!['t', 'o', 'o', 'l', '_', 'c', 'a', 'l', 'l', 's']
}

pub fn w_tool_calls_chars() -> (r: Vec<char>)
    ensures
        r@ == w_tool_calls(),
{
    let r = vec!['t', 'o', 'o', 'l', '_', 'c', 'a', 'l', 'l', 's'];
    assert(r@ =~= w_tool_calls());
    r
}

/// `tool_call`
pub open spec fn w_tool_call() -> Seq<char> {
    seq!['t', 'o', 'o', 'l', '_', 'c', 'a', 'l', 'l']
}

pub fn w_tool_call_chars() -> (r: Vec<char>)
    ensures
        r@ == w_tool_call(),
{
    let r = vec!['t', 'o', 'o', 'l', '_', 'c', 'a', 'l', 'l'];
    assert(r@ =~= w_tool_call());
    r
}

/// `function`
pub open spec fn w_function() -> Seq<char> {
    seq!['f', 'u', 'n', 'c', 't', 'i', 'o', 'n']
}

pub fn w_function_chars() -> (r: Vec<char>)
    ensures
        r@ == w_function(),
{
    let r = vec!['f', 'u', 'n', 'c', 't', 'i', 'o', 'n'];
    assert(r@ =~= w_function());
    r
}

/// `call`
pub open spec fn w_call() -> Seq<char> {
    seq!['c', 'a', 'l', 'l']
}

pub fn w_call_chars() -> (r: Vec<char>)
    ensures
        r@ == w_call(),
{
    let r = vec!['c', 'a', 'l', 'l'];
    assert(r@ =~= w_call());
    r
}

/// `tool`
pub open spec fn w_tool() -> Seq<char> {
    seq!['t', 'o', 'o', 'l']
}

pub fn w_tool_chars() -> (r: Vec<char>)
    ensures
        r@ == w_tool(),
{
    let r = vec!['t', 'o', 'o', 'l'];
    assert(r@ =~= w_tool());
    r
}

/// `tool_name`
pub open spec fn w_tool_name() -> Seq<char> {
    seq!['t', 'o', 'o', 'l', '_', 'n', 'a', 'm', 'e']
}

pub fn w_tool_name_chars() -> (r: Vec<char>)
    ensures
        r@ == w_tool_name(),
{
    let r = vec!['t', 'o', 'o', 'l', '_', 'n', 'a', 'm', 'e'];
    assert(r@ =~= w_tool_name());
    r
}

/// `function_name`
pub open spec fn w_function_name() -> Seq<char> {
    seq!['f', 'u', 'n', 'c', 't', 'i', 'o', 'n', '_', 'n', 'a', 'm', 'e']
}

pub fn w_function_name_chars() -> (r: Vec<char>)
    ensures
        r@ == w_function_name(),
{
    let r = vec!['f', 'u', 'n', 'c', 't', 'i', 'o', 'n', '_', 'n', 'a', 'm', 'e'];
    assert(r@ =~= w_function_name());
    r
}

/// `arguments`
pub open spec fn w_arguments() -> Seq<char> {
    seq!['a', 'r', 'g', 'u', 'm', 'e', 'n', 't', 's']
}

pub fn w_arguments_chars() -> (r: Vec<char>)
    ensures
        r@ == w_arguments(),
{
    let r = vec!['a', 'r', 'g', 'u', 'm', 'e', 'n', 't', 's'];
    assert(r@ =~= w_arguments());
    r
}

/// `args`
pub open spec fn w_args() -> Seq<char> {
    seq!['a', 'r', 'g', 's']
}

pub fn w_args_chars() -> (r: Vec<char>)
    ensures
        r@ == w_args(),
{
    let r = vec!['a', 'r', 'g', 's'];
    assert(r@ =~= w_args());
    r
}

/// `parameters`
pub open spec fn w_parameters() -> Seq<char> {
    seq!['p', 'a', 'r', 'a', 'm', 'e', 't', 'e', 'r', 's']
}

pub fn w_parameters_chars() -> (r: Vec<char>)
    ensures
        r@ == w_parameters(),
{
    let r = vec!['p', 'a', 'r', 'a', 'm', 'e', 't', 'e', 'r', 's'];
    assert(r@ =~= w_parameters());
    r
}

/// `params`
pub open spec fn w_params() -> Seq<char> {
    seq!['p', 'a', 'r', 'a', 'm', 's']
}

pub fn w_params_chars() -> (r: Vec<char>)
    ensures
        r@ == w_params(),
{
    let r = vec!['p', 'a', 'r', 'a', 'm', 's'];
    assert(r@ =~= w_params());
    r
}

/// `input`
pub open spec fn w_input() -> Seq<char> {
    seq!['i', 'n', 'p', 'u', 't']
}

pub fn w_input_chars() -> (r: Vec<char>)
    ensures
        r@ == w_input(),
{
    let r = vec!['i', 'n', 'p', 'u', 't'];
    assert(r@ =~= w_input());
    r
}

/// `id`
pub open spec fn w_id() -> Seq<char> {
    seq!['i', 'd']
}

pub fn w_id_chars() -> (r: Vec<char>)
    ensures
        r@ == w_id(),
{
    let r = vec!['i', 'd'];
    assert(r@ =~= w_id());
    r
}

/// `type`
pub open spec fn w_type() -> Seq<char> {
    seq!['t', 'y', 'p', 'e']
}

pub fn w_type_chars() -> (r: Vec<char>)
    ensures
        r@ == w_type(),
{
    let r = vec!['t', 'y', 'p', 'e'];
    assert(r@ =~= w_type());
    r
}

/// `index`
pub open spec fn w_index() -> Seq<char> {
    seq!['i', 'n', 'd', 'e', 'x']
}

pub fn w_index_chars() -> (r: Vec<char>)
    ensures
        r@ == w_index(),
{
    let r = vec!['i', 'n', 'd', 'e', 'x'];
    assert(r@ =~= w_index());
    r
}

/// `properties`
pub open spec fn w_properties() -> Seq<char> {
    seq!['p', 'r', 'o', 'p', 'e', 'r', 't', 'i', 'e', 's']
}

pub fn w_properties_chars() -> (r: Vec<char>)
    ensures
        r@ == w_properties(),
{
    let r = vec!['p', 'r', 'o', 'p', 'e', 'r', 't', 'i', 'e', 's'];
    assert(r@ =~= w_properties());
    r
}

/// `salvaged_call_`
pub open spec fn w_call_id_prefix() -> Seq<char> {
    seq!['s', 'a', 'l', 'v', 'a', 'g', 'e', 'd', '_', 'c', 'a', 'l', 'l', '_']
}

pub fn w_call_id_prefix_chars() -> (r: Vec<char>)
    ensures
        r@ == w_call_id_prefix(),
{
    let r = vec!['s', 'a', 'l', 'v', 'a', 'g', 'e', 'd', '_', 'c', 'a', 'l', 'l', '_'];
    assert(r@ =~= w_call_id_prefix());
    r
}

} // verus!
