//! The grammar of header-filter queries, as functions on bytes.
//!
//! Each parser reads a prefix of its input. Its specification `spec_*` says,
//! for every input, whether it succeeds and with how many bytes and which
//! value, whether it fails, whether it runs out of input before it can
//! decide, or whether it stops the program (a number literal that does not
//! fit in `i64`). Alternatives are tried in order and an alternative that
//! runs out of input counts as failed; an optional part that runs out of
//! input makes the whole construct run out of input.

use vstd::prelude::*;
use vstd::utf8::encode_utf8;
use super::ast::{
    CompareOp, CompareValue, Filter, Function, Literal, Operator, PRes, Parsed, Query,
    SCompareValue, SFilter, SLiteral, SQuery, SSelector, Selector, Unary, joined_view,
    literals_view,
};

verus! {

// ---------------------------------------------------------------------------
// Byte classes and runs
// ---------------------------------------------------------------------------

pub open spec fn has_prefix(s: Seq<u8>, w: Seq<u8>) -> bool {
    w.len() <= s.len() && s.take(w.len() as int) == w
}

pub open spec fn is_digit(b: u8) -> bool {
    '0' as u8 <= b <= '9' as u8
}

/// The bytes skipped as white space: space, tab, carriage return, newline.
pub open spec fn is_space(b: u8) -> bool {
    b == ' ' as u8 || b == '\t' as u8 || b == '\r' as u8 || b == '\n' as u8
}

/// Length of the longest prefix of `s` whose bytes all satisfy `p`.
pub open spec fn run_len(s: Seq<u8>, p: spec_fn(u8) -> bool) -> nat
    decreases s.len(),
{
    if s.len() == 0 {
        0
    } else if p(s[0]) {
        1 + run_len(s.drop_first(), p)
    } else {
        0
    }
}

pub open spec fn digit_class() -> spec_fn(u8) -> bool {
    |b: u8| is_digit(b)
}

pub open spec fn space_class() -> spec_fn(u8) -> bool {
    |b: u8| is_space(b)
}

pub open spec fn digit_run(s: Seq<u8>) -> nat {
    run_len(s, digit_class())
}

pub open spec fn space_run(s: Seq<u8>) -> nat {
    run_len(s, space_class())
}

/// Number of bytes before the first occurrence of `c` (all of `s` if none).
pub open spec fn until_byte(s: Seq<u8>, c: u8) -> nat {
    run_len(s, other_than(c))
}

pub open spec fn other_than(c: u8) -> spec_fn(u8) -> bool {
    |b: u8| b != c
}

proof fn lemma_run_len_bound(s: Seq<u8>, p: spec_fn(u8) -> bool)
    ensures
        run_len(s, p) <= s.len(),
        forall|j: int| 0 <= j < run_len(s, p) ==> p(#[trigger] s[j]),
        run_len(s, p) < s.len() ==> !p(s[run_len(s, p) as int]),
    decreases s.len(),
{
    if s.len() > 0 && p(s[0]) {
        lemma_run_len_bound(s.drop_first(), p);
        assert forall|j: int| 0 <= j < run_len(s, p) implies p(#[trigger] s[j]) by {
            if j > 0 {
                assert(s[j] == s.drop_first()[j - 1]);
            }
        }
    }
}

/// A prefix of length `i` in which every byte satisfies `p`, followed by the
/// end of `s` or a byte that does not, is the run of `p`.
proof fn lemma_run_len_is(s: Seq<u8>, p: spec_fn(u8) -> bool, i: int)
    requires
        0 <= i <= s.len(),
        forall|j: int| 0 <= j < i ==> p(#[trigger] s[j]),
        i == s.len() || !p(s[i]),
    ensures
        run_len(s, p) == i,
    decreases i,
{
    if i > 0 {
        assert forall|j: int| 0 <= j < i - 1 implies p(#[trigger] s.drop_first()[j]) by {
            assert(s.drop_first()[j] == s[j + 1]);
        }
        if i < s.len() {
            assert(s.drop_first()[i - 1] == s[i]);
        }
        lemma_run_len_is(s.drop_first(), p, i - 1);
    }
}

/// Length of the run of bytes satisfying `p` at the start of `s[pos..]`.
fn scan_run_digits(s: &[u8], pos: usize) -> (n: usize)
    requires
        pos <= s.len(),
    ensures
        n == digit_run(s@.skip(pos as int)),
        pos + n <= s.len(),
{
    let ghost t = s@.skip(pos as int);
    let mut i: usize = pos;
    while i < s.len() && '0' as u8 <= s[i] && s[i] <= '9' as u8
        invariant
            pos <= i <= s.len(),
            t == s@.skip(pos as int),
            forall|j: int| 0 <= j < i - pos ==> is_digit(#[trigger] t[j]),
        decreases s.len() - i,
    {
        i = i + 1;
    }
    proof {
        lemma_run_len_is(t, digit_class(), (i - pos) as int);
    }
    i - pos
}

fn scan_run_spaces(s: &[u8], pos: usize) -> (n: usize)
    requires
        pos <= s.len(),
    ensures
        n == space_run(s@.skip(pos as int)),
        pos + n <= s.len(),
{
    let ghost t = s@.skip(pos as int);
    let mut i: usize = pos;
    while i < s.len() && (s[i] == ' ' as u8 || s[i] == '\t' as u8 || s[i] == '\r' as u8 || s[i]
        == '\n' as u8)
        invariant
            pos <= i <= s.len(),
            t == s@.skip(pos as int),
            forall|j: int| 0 <= j < i - pos ==> is_space(#[trigger] t[j]),
        decreases s.len() - i,
    {
        i = i + 1;
    }
    proof {
        lemma_run_len_is(t, space_class(), (i - pos) as int);
    }
    i - pos
}

fn scan_until(s: &[u8], pos: usize, c: u8) -> (n: usize)
    requires
        pos <= s.len(),
    ensures
        n == until_byte(s@.skip(pos as int), c),
        pos + n <= s.len(),
{
    let ghost t = s@.skip(pos as int);
    let mut i: usize = pos;
    while i < s.len() && s[i] != c
        invariant
            pos <= i <= s.len(),
            t == s@.skip(pos as int),
            forall|j: int| 0 <= j < i - pos ==> #[trigger] t[j] != c,
        decreases s.len() - i,
    {
        i = i + 1;
    }
    proof {
        lemma_run_len_is(t, other_than(c), (i - pos) as int);
    }
    i - pos
}

fn starts_with_at(s: &[u8], pos: usize, w: &[u8]) -> (r: bool)
    requires
        pos <= s.len(),
    ensures
        r == has_prefix(s@.skip(pos as int), w@),
{
    let ghost t = s@.skip(pos as int);
    if s.len() - pos < w.len() {
        return false;
    }
    let mut i: usize = 0;
    while i < w.len()
        invariant
            i <= w.len() <= s.len() - pos,
            t == s@.skip(pos as int),
            forall|j: int| 0 <= j < i ==> t[j] == w@[j],
        decreases w.len() - i,
    {
        if s[pos + i] != w[i] {
            assert(t.take(w.len() as int)[i as int] != w@[i as int]);
            return false;
        }
        i = i + 1;
    }
    assert(t.take(w.len() as int) =~= w@);
    true
}

// ---------------------------------------------------------------------------
// Keywords
// ---------------------------------------------------------------------------

pub open spec fn word(a: char, b: char) -> Seq<u8> {
    seq![a as u8, b as u8]
}

pub open spec fn word3(a: char, b: char, c: char) -> Seq<u8> {
    seq![a as u8, b as u8, c as u8]
}

pub open spec fn spec_unary_operator(s: Seq<u8>) -> PRes<Unary> {
    if has_prefix(s, word3('n', 'o', 't')) {
        PRes::Done(3, Unary::Not)
    } else {
        PRes::Error
    }
}

/// `not`.
pub fn unary_operator(s: &[u8]) -> (res: Parsed<Unary>)
    ensures
        res@ == spec_unary_operator(s@),
{
    let w = ['n' as u8, 'o' as u8, 't' as u8];
    assert(w@ =~= word3('n', 'o', 't'));
    assert(s@.skip(0) =~= s@);
    if starts_with_at(s, 0, &w) {
        Parsed::Done(3, Unary::Not)
    } else {
        Parsed::Error
    }
}

/// The comparison operators, tried in this order: `is`, `in`, `==`, `eq`,
/// `!=`, `neq`, `>=`, `<=`, `<`, `>`.
#[verifier::opaque]
pub open spec fn spec_compare_op(s: Seq<u8>) -> PRes<CompareOp> {
    if has_prefix(s, word('i', 's')) {
        PRes::Done(2, CompareOp::OpIs)
    } else if has_prefix(s, word('i', 'n')) {
        PRes::Done(2, CompareOp::OpIn)
    } else if has_prefix(s, word('=', '=')) {
        PRes::Done(2, CompareOp::OpEq)
    } else if has_prefix(s, word('e', 'q')) {
        PRes::Done(2, CompareOp::OpEq)
    } else if has_prefix(s, word('!', '=')) {
        PRes::Done(2, CompareOp::OpNeq)
    } else if has_prefix(s, word3('n', 'e', 'q')) {
        PRes::Done(3, CompareOp::OpNeq)
    } else if has_prefix(s, word('>', '=')) {
        PRes::Done(2, CompareOp::OpGte)
    } else if has_prefix(s, word('<', '=')) {
        PRes::Done(2, CompareOp::OpLte)
    } else if has_prefix(s, seq!['<' as u8]) {
        PRes::Done(1, CompareOp::OpLt)
    } else if has_prefix(s, seq!['>' as u8]) {
        PRes::Done(1, CompareOp::OpGt)
    } else {
        PRes::Error
    }
}

fn accept2(s: &[u8], a: char, b: char) -> (r: bool)
    ensures
        r == has_prefix(s@, word(a, b)),
{
    let w = [a as u8, b as u8];
    assert(w@ =~= word(a, b));
    assert(s@.skip(0) =~= s@);
    starts_with_at(s, 0, &w)
}

fn accept3(s: &[u8], a: char, b: char, c: char) -> (r: bool)
    ensures
        r == has_prefix(s@, word3(a, b, c)),
{
    let w = [a as u8, b as u8, c as u8];
    assert(w@ =~= word3(a, b, c));
    assert(s@.skip(0) =~= s@);
    starts_with_at(s, 0, &w)
}

fn accept1(s: &[u8], a: char) -> (r: bool)
    ensures
        r == has_prefix(s@, seq![a as u8]),
{
    let w = [a as u8];
    assert(w@ =~= seq![a as u8]);
    assert(s@.skip(0) =~= s@);
    starts_with_at(s, 0, &w)
}

pub fn compare_op(s: &[u8]) -> (res: Parsed<CompareOp>)
    ensures
        res@ == spec_compare_op(s@),
{
    reveal(spec_compare_op);
    if accept2(s, 'i', 's') {
        Parsed::Done(2, CompareOp::OpIs)
    } else if accept2(s, 'i', 'n') {
        Parsed::Done(2, CompareOp::OpIn)
    } else if accept2(s, '=', '=') {
        Parsed::Done(2, CompareOp::OpEq)
    } else if accept2(s, 'e', 'q') {
        Parsed::Done(2, CompareOp::OpEq)
    } else if accept2(s, '!', '=') {
        Parsed::Done(2, CompareOp::OpNeq)
    } else if accept3(s, 'n', 'e', 'q') {
        Parsed::Done(3, CompareOp::OpNeq)
    } else if accept2(s, '>', '=') {
        Parsed::Done(2, CompareOp::OpGte)
    } else if accept2(s, '<', '=') {
        Parsed::Done(2, CompareOp::OpLte)
    } else if accept1(s, '<') {
        Parsed::Done(1, CompareOp::OpLt)
    } else if accept1(s, '>') {
        Parsed::Done(1, CompareOp::OpGt)
    } else {
        Parsed::Error
    }
}

/// `or`, `and`, `xor`.
pub open spec fn spec_operator(s: Seq<u8>) -> PRes<Operator> {
    if has_prefix(s, word('o', 'r')) {
        PRes::Done(2, Operator::Or)
    } else if has_prefix(s, word3('a', 'n', 'd')) {
        PRes::Done(3, Operator::And)
    } else if has_prefix(s, word3('x', 'o', 'r')) {
        PRes::Done(3, Operator::Xor)
    } else {
        PRes::Error
    }
}

pub fn operator(s: &[u8]) -> (res: Parsed<Operator>)
    ensures
        res@ == spec_operator(s@),
{
    if accept2(s, 'o', 'r') {
        Parsed::Done(2, Operator::Or)
    } else if accept3(s, 'a', 'n', 'd') {
        Parsed::Done(3, Operator::And)
    } else if accept3(s, 'x', 'o', 'r') {
        Parsed::Done(3, Operator::Xor)
    } else {
        Parsed::Error
    }
}

pub open spec fn word_length() -> Seq<u8> {
    seq!['l' as u8, 'e' as u8, 'n' as u8, 'g' as u8, 't' as u8, 'h' as u8]
}

pub open spec fn word_keys() -> Seq<u8> {
    seq!['k' as u8, 'e' as u8, 'y' as u8, 's' as u8]
}

pub open spec fn word_values() -> Seq<u8> {
    seq!['v' as u8, 'a' as u8, 'l' as u8, 'u' as u8, 'e' as u8, 's' as u8]
}

/// `length`, `keys`, `values`.
pub open spec fn spec_function(s: Seq<u8>) -> PRes<Function> {
    if has_prefix(s, word_length()) {
        PRes::Done(6, Function::Length)
    } else if has_prefix(s, word_keys()) {
        PRes::Done(4, Function::Keys)
    } else if has_prefix(s, word_values()) {
        PRes::Done(6, Function::Values)
    } else {
        PRes::Error
    }
}

pub fn function(s: &[u8]) -> (res: Parsed<Function>)
    ensures
        res@ == spec_function(s@),
{
    assert(s@.skip(0) =~= s@);
    let w_length = ['l' as u8, 'e' as u8, 'n' as u8, 'g' as u8, 't' as u8, 'h' as u8];
    let w_keys = ['k' as u8, 'e' as u8, 'y' as u8, 's' as u8];
    let w_values = ['v' as u8, 'a' as u8, 'l' as u8, 'u' as u8, 'e' as u8, 's' as u8];
    assert(w_length@ =~= word_length());
    assert(w_keys@ =~= word_keys());
    assert(w_values@ =~= word_values());
    if starts_with_at(s, 0, &w_length) {
        Parsed::Done(6, Function::Length)
    } else if starts_with_at(s, 0, &w_keys) {
        Parsed::Done(4, Function::Keys)
    } else if starts_with_at(s, 0, &w_values) {
        Parsed::Done(6, Function::Values)
    } else {
        Parsed::Error
    }
}


// ---------------------------------------------------------------------------
// Literals
// ---------------------------------------------------------------------------

/// `s[pos..]`.
fn tail(s: &[u8], pos: usize) -> (r: &[u8])
    requires
        pos <= s.len(),
    ensures
        r@ == s@.skip(pos as int),
{
    let (_, r) = s.split_at(pos);
    r
}

/// Value of a sequence of ASCII digits read in base ten.
pub open spec fn decimal_value(d: Seq<u8>) -> nat
    decreases d.len(),
{
    if d.len() == 0 {
        0
    } else {
        decimal_value(d.drop_last()) * 10 + (d.last() - ('0' as u8)) as nat
    }
}

proof fn lemma_decimal_value_monotone(d: Seq<u8>, i: int, j: int)
    requires
        0 <= i <= j <= d.len(),
        forall|k: int| 0 <= k < d.len() ==> is_digit(#[trigger] d[k]),
    ensures
        decimal_value(d.take(i)) <= decimal_value(d.take(j)),
    decreases j - i,
{
    if i < j {
        lemma_decimal_value_monotone(d, i, j - 1);
        assert(d.take(j).drop_last() =~= d.take(j - 1));
    }
}

/// One or more ASCII digits.
pub open spec fn spec_digit(s: Seq<u8>) -> PRes<Seq<u8>> {
    if s.len() == 0 {
        PRes::Incomplete
    } else if digit_run(s) == 0 {
        PRes::Error
    } else {
        PRes::Done(digit_run(s), s.take(digit_run(s) as int))
    }
}

/// Digits read as a non-negative `i64`; a value that does not fit stops the
/// program.
pub open spec fn spec_int64(s: Seq<u8>) -> PRes<i64> {
    match spec_digit(s) {
        PRes::Done(n, d) => if decimal_value(d) <= i64::MAX {
            PRes::Done(n, decimal_value(d) as i64)
        } else {
            PRes::Abort
        },
        PRes::Error => PRes::Error,
        PRes::Incomplete => PRes::Incomplete,
        PRes::Abort => PRes::Abort,
    }
}

pub fn int64(s: &[u8]) -> (res: Parsed<i64>)
    ensures
        res@ == spec_int64(s@),
        res matches Parsed::Done(n, _) ==> n <= s.len(),
{
    if s.len() == 0 {
        return Parsed::Incomplete;
    }
    let n = scan_run_digits(s, 0);
    assert(s@.skip(0) =~= s@);
    if n == 0 {
        return Parsed::Error;
    }
    let ghost d = s@.take(n as int);
    proof {
        lemma_run_len_bound(s@, digit_class());
    }
    assert forall|k: int| 0 <= k < d.len() implies is_digit(#[trigger] d[k]) by {
        assert(d[k] == s@[k]);
    }
    let mut v: u64 = 0;
    let mut i: usize = 0;
    while i < n
        invariant
            0 <= i <= n <= s.len(),
            s.len() > 0,
            n == digit_run(s@),
            d == s@.take(n as int),
            forall|k: int| 0 <= k < d.len() ==> is_digit(#[trigger] d[k]),
            v == decimal_value(d.take(i as int)),
            v <= i64::MAX,
        decreases n - i,
    {
        let c = s[i];
        assert(c == d[i as int]);
        let digit = (c - ('0' as u8)) as u64;
        assert(d.take(i + 1).drop_last() =~= d.take(i as int));
        if v > (9223372036854775807u64 - digit) / 10 {
            assert(v * 10 + digit > i64::MAX) by (nonlinear_arith)
                requires
                    v > (9223372036854775807u64 - digit) / 10,
                    digit <= 9,
            ;
            assert(d.take(i + 1).last() == d[i as int]);
            assert(decimal_value(d.take(i + 1)) == decimal_value(d.take(i as int)) * 10 + digit);
            proof {
                lemma_decimal_value_monotone(d, i + 1, n as int);
                assert(d.take(n as int) =~= d);
            }
            assert(decimal_value(d) > i64::MAX);
            assert(spec_digit(s@) == PRes::Done(n as nat, d));
            return Parsed::Abort;
        }
        assert(d.take(i + 1).last() == d[i as int]);
        v = v * 10 + digit;
        i = i + 1;
    }
    assert(d.take(n as int) =~= d);
    Parsed::Done(n, v as i64)
}

/// An optional sign `+` or `-`; `true` for `-`. On empty input the
/// alternatives cannot decide.
pub open spec fn spec_sign(s: Seq<u8>) -> PRes<bool> {
    if s.len() == 0 {
        PRes::Incomplete
    } else if s[0] == '+' as u8 {
        PRes::Done(1, false)
    } else if s[0] == '-' as u8 {
        PRes::Done(1, true)
    } else {
        PRes::Done(0, false)
    }
}

/// An optional sign followed by digits.
pub open spec fn spec_integer(s: Seq<u8>) -> PRes<i64> {
    match spec_sign(s) {
        PRes::Done(k, negative) => match spec_int64(s.skip(k as int)) {
            PRes::Done(n, v) => PRes::Done(k + n, if negative {
                (-v) as i64
            } else {
                v
            }),
            PRes::Error => PRes::Error,
            PRes::Incomplete => PRes::Incomplete,
            PRes::Abort => PRes::Abort,
        },
        _ => PRes::Incomplete,
    }
}

pub fn integer(s: &[u8]) -> (res: Parsed<i64>)
    ensures
        res@ == spec_integer(s@),
{
    if s.len() == 0 {
        return Parsed::Incomplete;
    }
    let (k, negative): (usize, bool) = if s[0] == '+' as u8 {
        (1, false)
    } else if s[0] == '-' as u8 {
        (1, true)
    } else {
        (0, false)
    };
    match int64(tail(s, k)) {
        Parsed::Done(n, v) => {
            assert(s@.skip(k as int).len() == s.len() - k);
            Parsed::Done(k + n, if negative { -v } else { v })
        },
        Parsed::Error => Parsed::Error,
        Parsed::Incomplete => Parsed::Incomplete,
        Parsed::Abort => Parsed::Abort,
    }
}

/// `false` or `true`.
pub open spec fn spec_boolean(s: Seq<u8>) -> PRes<bool> {
    if has_prefix(s, seq!['f' as u8, 'a' as u8, 'l' as u8, 's' as u8, 'e' as u8]) {
        PRes::Done(5, false)
    } else if has_prefix(s, seq!['t' as u8, 'r' as u8, 'u' as u8, 'e' as u8]) {
        PRes::Done(4, true)
    } else {
        PRes::Error
    }
}

pub fn boolean(s: &[u8]) -> (res: Parsed<bool>)
    ensures
        res@ == spec_boolean(s@),
{
    let w_false = ['f' as u8, 'a' as u8, 'l' as u8, 's' as u8, 'e' as u8];
    let w_true = ['t' as u8, 'r' as u8, 'u' as u8, 'e' as u8];
    assert(w_false@ =~= seq!['f' as u8, 'a' as u8, 'l' as u8, 's' as u8, 'e' as u8]);
    assert(w_true@ =~= seq!['t' as u8, 'r' as u8, 'u' as u8, 'e' as u8]);
    assert(s@.skip(0) =~= s@);
    if starts_with_at(s, 0, &w_false) {
        Parsed::Done(5, false)
    } else if starts_with_at(s, 0, &w_true) {
        Parsed::Done(4, true)
    } else {
        Parsed::Error
    }
}

/// Text between an opening byte `open` and the first following `close`;
/// the value is the text without the delimiters.
pub open spec fn spec_delimited(s: Seq<u8>, open: u8, close: u8) -> PRes<Seq<u8>> {
    if s.len() == 0 {
        PRes::Incomplete
    } else if s[0] != open {
        PRes::Error
    } else if s.len() == 1 {
        PRes::Incomplete
    } else if until_byte(s.skip(1), close) == s.len() - 1 {
        PRes::Error
    } else {
        PRes::Done(
            until_byte(s.skip(1), close) + 2,
            s.skip(1).take(until_byte(s.skip(1), close) as int),
        )
    }
}

fn delimited(s: &[u8], open: u8, close: u8) -> (res: Parsed<Vec<u8>>)
    ensures
        res@ == spec_delimited(s@, open, close),
{
    if s.len() == 0 {
        return Parsed::Incomplete;
    }
    if s[0] != open {
        return Parsed::Error;
    }
    if s.len() == 1 {
        return Parsed::Incomplete;
    }
    let k = scan_until(s, 1, close);
    if k == s.len() - 1 {
        return Parsed::Error;
    }
    let mut text: Vec<u8> = Vec::new();
    let mut i: usize = 1;
    while i < k + 1
        invariant
            1 <= i <= k + 1 <= s.len(),
            text@ == s@.subrange(1, i as int),
        decreases k + 1 - i,
    {
        text.push(s[i]);
        i = i + 1;
        assert(text@ =~= s@.subrange(1, i as int));
    }
    assert(text@ =~= s@.skip(1).take(k as int));
    Parsed::Done(k + 2, text)
}

/// A string literal: the bytes between two double quotes.
pub open spec fn spec_string(s: Seq<u8>) -> PRes<Seq<u8>> {
    spec_delimited(s, '"' as u8, '"' as u8)
}

pub fn string(s: &[u8]) -> (res: Parsed<Vec<u8>>)
    ensures
        res@ == spec_string(s@),
{
    delimited(s, '"' as u8, '"' as u8)
}

/// A literal: a boolean, else an integer, else a string.
#[verifier::opaque]
pub open spec fn spec_val(s: Seq<u8>) -> PRes<SLiteral> {
    match spec_boolean(s) {
        PRes::Done(n, b) => PRes::Done(n, SLiteral::Boolean(b)),
        _ => match spec_integer(s) {
            PRes::Done(n, i) => PRes::Done(n, SLiteral::Integer(i)),
            PRes::Abort => PRes::Abort,
            _ => match spec_string(s) {
                PRes::Done(n, t) => PRes::Done(n, SLiteral::String(t)),
                _ => PRes::Error,
            },
        },
    }
}

pub fn val(s: &[u8]) -> (res: Parsed<Literal>)
    ensures
        res@ == spec_val(s@),
{
    reveal(spec_val);
    match boolean(s) {
        Parsed::Done(n, b) => Parsed::Done(n, Literal::Boolean(b)),
        _ => match integer(s) {
            Parsed::Done(n, i) => Parsed::Done(n, Literal::Integer(i)),
            Parsed::Abort => Parsed::Abort,
            _ => match string(s) {
                Parsed::Done(n, t) => Parsed::Done(n, Literal::String(t)),
                _ => Parsed::Error,
            },
        },
    }
}


// ---------------------------------------------------------------------------
// Repetition and lists
// ---------------------------------------------------------------------------

/// Zero or more repetitions of `item`, as long as it succeeds; stops without
/// failing at the end of the input or when `item` fails; a repetition that
/// consumes nothing fails.
pub open spec fn spec_many0<T>(t: Seq<u8>, item: spec_fn(Seq<u8>) -> PRes<T>) -> PRes<Seq<T>>
    decreases t.len(),
{
    if t.len() == 0 {
        PRes::Done(0, Seq::empty())
    } else {
        match item(t) {
            PRes::Error => PRes::Done(0, Seq::empty()),
            PRes::Incomplete => PRes::Incomplete,
            PRes::Abort => PRes::Abort,
            PRes::Done(n, x) => if n == 0 || n > t.len() {
                PRes::Error
            } else {
                prepend(n, seq![x], spec_many0(t.skip(n as int), item))
            },
        }
    }
}

/// `r` after `k` bytes already consumed, which produced the items `xs`.
pub open spec fn prepend<T>(k: nat, xs: Seq<T>, r: PRes<Seq<T>>) -> PRes<Seq<T>> {
    match r {
        PRes::Done(m, ys) => PRes::Done(k + m, xs + ys),
        PRes::Error => PRes::Error,
        PRes::Incomplete => PRes::Incomplete,
        PRes::Abort => PRes::Abort,
    }
}

proof fn lemma_prepend_prepend<T>(k: nat, xs: Seq<T>, n: nat, ys: Seq<T>, r: PRes<Seq<T>>)
    ensures
        prepend(k, xs, prepend(n, ys, r)) == prepend(k + n, xs + ys, r),
{
    match r {
        PRes::Done(m, zs) => {
            assert(xs + (ys + zs) =~= (xs + ys) + zs);
        },
        _ => {},
    }
}

proof fn lemma_prepend_nothing<T>(r: PRes<Seq<T>>)
    ensures
        prepend(0, Seq::<T>::empty(), r) == r,
{
    match r {
        PRes::Done(m, zs) => {
            assert(Seq::<T>::empty() + zs =~= zs);
        },
        _ => {},
    }
}

/// An element of a list: a literal, an optional `,`, optional white space.
pub open spec fn spec_list_item(t: Seq<u8>) -> PRes<SLiteral> {
    match spec_val(t) {
        PRes::Done(n1, v) => {
            let t1 = t.skip(n1 as int);
            if t1.len() == 0 {
                PRes::Incomplete
            } else {
                let c: nat = if t1[0] == ',' as u8 {
                    1
                } else {
                    0
                };
                let t2 = t1.skip(c as int);
                if t2.len() == 0 {
                    PRes::Incomplete
                } else {
                    PRes::Done(n1 + c + space_run(t2), v)
                }
            }
        },
        PRes::Error => PRes::Error,
        PRes::Incomplete => PRes::Incomplete,
        PRes::Abort => PRes::Abort,
    }
}

pub open spec fn list_item_parser() -> spec_fn(Seq<u8>) -> PRes<SLiteral> {
    |t: Seq<u8>| spec_list_item(t)
}

/// `[` elements `]`.
#[verifier::opaque]
pub open spec fn spec_list_of_val(s: Seq<u8>) -> PRes<Seq<SLiteral>> {
    if s.len() == 0 {
        PRes::Incomplete
    } else if s[0] != '[' as u8 {
        PRes::Error
    } else {
        match spec_many0(s.skip(1), list_item_parser()) {
            PRes::Done(n, vs) => {
                let r = s.skip(1 + n as int);
                if r.len() == 0 {
                    PRes::Incomplete
                } else if r[0] != ']' as u8 {
                    PRes::Error
                } else {
                    PRes::Done(n + 2, vs)
                }
            },
            PRes::Error => PRes::Error,
            PRes::Incomplete => PRes::Incomplete,
            PRes::Abort => PRes::Abort,
        }
    }
}

/// The views of the literals of an outcome.
pub open spec fn literals_outcome(r: PRes<Seq<Literal>>) -> PRes<Seq<SLiteral>> {
    match r {
        PRes::Done(n, vs) => PRes::Done(n, literals_view(vs)),
        PRes::Error => PRes::Error,
        PRes::Incomplete => PRes::Incomplete,
        PRes::Abort => PRes::Abort,
    }
}

fn list_item(t: &[u8]) -> (res: Parsed<Literal>)
    ensures
        res@ == spec_list_item(t@),
        res matches Parsed::Done(n, _) ==> 0 < n <= t.len(),
{
    match val(t) {
        Parsed::Done(n1, v) => {
            proof {
                lemma_val_consumes(t@);
            }
            if n1 == t.len() {
                return Parsed::Incomplete;
            }
            let c: usize = if t[n1] == ',' as u8 {
                1
            } else {
                0
            };
            assert(t@.skip(n1 as int)[0] == t@[n1 as int]);
            if n1 + c == t.len() {
                return Parsed::Incomplete;
            }
            let k = scan_run_spaces(t, n1 + c);
            assert(t@.skip(n1 as int).skip(c as int) =~= t@.skip((n1 + c) as int));
            Parsed::Done(n1 + c + k, v)
        },
        Parsed::Error => Parsed::Error,
        Parsed::Incomplete => Parsed::Incomplete,
        Parsed::Abort => Parsed::Abort,
    }
}

proof fn lemma_delimited_consumes(s: Seq<u8>, open: u8, close: u8)
    ensures
        spec_delimited(s, open, close) matches PRes::Done(n, _) ==> 2 <= n <= s.len(),
{
    if s.len() > 1 {
        lemma_run_len_bound(s.skip(1), other_than(close));
    }
}

/// A successful literal consumes at least one byte and no more than the input.
proof fn lemma_val_consumes(s: Seq<u8>)
    ensures
        spec_val(s) matches PRes::Done(n, _) ==> 0 < n <= s.len(),
{
    reveal(spec_val);
    lemma_delimited_consumes(s, '"' as u8, '"' as u8);
    if s.len() > 0 {
        let k: int = if s[0] == '+' as u8 || s[0] == '-' as u8 {
            1
        } else {
            0
        };
        lemma_run_len_bound(s.skip(k), digit_class());
    }
}

pub fn list_of_val(s: &[u8]) -> (res: Parsed<Vec<Literal>>)
    ensures
        literals_outcome(res@) == spec_list_of_val(s@),
        res matches Parsed::Done(n, _) ==> 0 < n <= s.len(),
{
    reveal(spec_list_of_val);
    if s.len() == 0 {
        return Parsed::Incomplete;
    }
    if s[0] != '[' as u8 {
        return Parsed::Error;
    }
    let ghost t = s@.skip(1);
    let ghost item = list_item_parser();
    let mut pos: usize = 1;
    let mut acc: Vec<Literal> = Vec::new();
    proof {
        lemma_prepend_nothing(spec_many0(t, item));
        assert(t.skip(0) =~= t);
    }
    
    loop
        invariant
            1 <= pos <= s.len(),
            s@[0] == '[' as u8,
            t == s@.skip(1),
            item == list_item_parser(),
            spec_many0(t, item) == prepend(
                (pos - 1) as nat,
                literals_view(acc@),
                spec_many0(t.skip(pos - 1), item),
            ),
        ensures
            1 <= pos <= s.len(),
            spec_many0(t, item) == PRes::Done((pos - 1) as nat, literals_view(acc@)),
        decreases s.len() - pos,
    {
        let ghost rest = t.skip(pos - 1);
        assert(rest =~= s@.skip(pos as int));
        if pos == s.len() {
            assert(literals_view(acc@) + Seq::<SLiteral>::empty() =~= literals_view(acc@));
            break;
        }
        assert(item(rest) == spec_list_item(rest));
        match list_item(tail(s, pos)) {
            Parsed::Done(n, x) => {
                let ghost before = acc@;
                assert(spec_many0(rest, item) == prepend(
                    n as nat,
                    seq![x@],
                    spec_many0(rest.skip(n as int), item),
                ));
                acc.push(x);
                assert(literals_view(acc@) =~= literals_view(before) + seq![x@]);
                assert(rest.skip(n as int) =~= t.skip(pos - 1 + n));
                proof {
                    lemma_prepend_prepend(
                        (pos - 1) as nat,
                        literals_view(before),
                        n as nat,
                        seq![x@],
                        spec_many0(t.skip(pos - 1 + n), item),
                    );
                }
                pos = pos + n;
            },
            Parsed::Error => {
                assert(literals_view(acc@) + Seq::<SLiteral>::empty() =~= literals_view(acc@));
                break;
            },
            Parsed::Incomplete => {
                assert(spec_many0(rest, item) == PRes::<Seq<SLiteral>>::Incomplete);
                reveal(spec_list_of_val);
                assert(spec_list_of_val(s@) == PRes::<Seq<SLiteral>>::Incomplete);
                return Parsed::Incomplete;
            },
            Parsed::Abort => {
                assert(spec_many0(rest, item) == PRes::<Seq<SLiteral>>::Abort);
                reveal(spec_list_of_val);
                assert(spec_list_of_val(s@) == PRes::<Seq<SLiteral>>::Abort);
                return Parsed::Abort;
            },
        }
    }
    // All repetitions read: `pos - 1` bytes of `t`.
    assert(spec_many0(t, item) == PRes::Done((pos - 1) as nat, literals_view(acc@)));
    assert(s@.skip(1 + (pos - 1)) =~= s@.skip(pos as int));
    if pos == s.len() {
        return Parsed::Incomplete;
    }
    if s[pos] != ']' as u8 {
        return Parsed::Error;
    }
    Parsed::Done(pos + 1, acc)
}

/// A list of literals, else a single literal.
#[verifier::opaque]
pub open spec fn spec_compare_value(s: Seq<u8>) -> PRes<SCompareValue> {
    match spec_list_of_val(s) {
        PRes::Done(n, vs) => PRes::Done(n, SCompareValue::Values(vs)),
        PRes::Abort => PRes::Abort,
        _ => match spec_val(s) {
            PRes::Done(n, v) => PRes::Done(n, SCompareValue::Value(v)),
            PRes::Abort => PRes::Abort,
            _ => PRes::Error,
        },
    }
}

pub fn compare_value(s: &[u8]) -> (res: Parsed<CompareValue>)
    ensures
        res@ == spec_compare_value(s@),
        res matches Parsed::Done(n, _) ==> 0 < n <= s.len(),
{
    reveal(spec_compare_value);
    match list_of_val(s) {
        Parsed::Done(n, vs) => Parsed::Done(n, CompareValue::Values(vs)),
        Parsed::Abort => Parsed::Abort,
        _ => match val(s) {
            Parsed::Done(n, v) => {
                proof {
                    lemma_val_consumes(s@);
                }
                Parsed::Done(n, CompareValue::Value(v))
            },
            Parsed::Abort => Parsed::Abort,
            _ => Parsed::Error,
        },
    }
}


// ---------------------------------------------------------------------------
// Selectors, filters, queries
// ---------------------------------------------------------------------------

/// Everything up to the first space (all of the input if there is none).
pub open spec fn spec_selector_str(s: Seq<u8>) -> PRes<Seq<u8>> {
    PRes::Done(until_byte(s, ' ' as u8), s.take(until_byte(s, ' ' as u8) as int))
}

fn copy_prefix(s: &[u8], n: usize) -> (r: Vec<u8>)
    requires
        n <= s.len(),
    ensures
        r@ == s@.take(n as int),
{
    let mut r: Vec<u8> = Vec::new();
    let mut i: usize = 0;
    while i < n
        invariant
            i <= n <= s.len(),
            r@ == s@.take(i as int),
        decreases n - i,
    {
        r.push(s[i]);
        i = i + 1;
        assert(r@ =~= s@.take(i as int));
    }
    r
}

pub fn selector_str(s: &[u8]) -> (res: Parsed<Vec<u8>>)
    ensures
        res@ == spec_selector_str(s@),
        res matches Parsed::Done(n, _) ==> n <= s.len(),
{
    let k = scan_until(s, 0, ' ' as u8);
    assert(s@.skip(0) =~= s@);
    Parsed::Done(k, copy_prefix(s, k))
}

/// `(` text `)`; the value is the text.
pub open spec fn spec_bracketed(s: Seq<u8>) -> PRes<Seq<u8>> {
    spec_delimited(s, '(' as u8, ')' as u8)
}

pub fn bracketed(s: &[u8]) -> (res: Parsed<Vec<u8>>)
    ensures
        res@ == spec_bracketed(s@),
        res matches Parsed::Done(n, _) ==> n <= s.len(),
{
    proof {
        lemma_delimited_consumes(s@, '(' as u8, ')' as u8);
    }
    delimited(s, '(' as u8, ')' as u8)
}

/// A function applied to a bracketed path, else a path up to the next space.
#[verifier::opaque]
pub open spec fn spec_selector(s: Seq<u8>) -> PRes<SSelector> {
    let direct = PRes::Done(
        until_byte(s, ' ' as u8),
        SSelector::Direct(s.take(until_byte(s, ' ' as u8) as int)),
    );
    match spec_function(s) {
        PRes::Done(n, f) => match spec_bracketed(s.skip(n as int)) {
            PRes::Done(m, inner) => PRes::Done(n + m, SSelector::Function(f, inner)),
            _ => direct,
        },
        _ => direct,
    }
}

pub fn selector(s: &[u8]) -> (res: Parsed<Selector>)
    ensures
        res@ == spec_selector(s@),
        res matches Parsed::Done(n, _) ==> n <= s.len(),
        res is Done,
{
    reveal(spec_selector);
    if let Parsed::Done(n, f) = function(s) {
        if let Parsed::Done(m, inner) = bracketed(tail(s, n)) {
            return Parsed::Done(n + m, Selector::Function(f, inner));
        }
    }
    let k = scan_until(s, 0, ' ' as u8);
    assert(s@.skip(0) =~= s@);
    Parsed::Done(k, Selector::Direct(copy_prefix(s, k)))
}

/// `[not]selector [ws] op [ws] value`.
#[verifier::opaque]
pub open spec fn spec_filter(s: Seq<u8>) -> PRes<SFilter> {
    let k1: nat = if has_prefix(s, word3('n', 'o', 't')) {
        3
    } else {
        0
    };
    let unary = if k1 == 3 {
        Some(Unary::Not)
    } else {
        None
    };
    let s1 = s.skip(k1 as int);
    match spec_selector(s1) {
        PRes::Done(k2, sel) => {
            let s2 = s1.skip(k2 as int);
            if s2.len() == 0 {
                PRes::Incomplete
            } else {
                let k3 = space_run(s2);
                let s3 = s2.skip(k3 as int);
                match spec_compare_op(s3) {
                    PRes::Done(k4, op) => {
                        let s4 = s3.skip(k4 as int);
                        if s4.len() == 0 {
                            PRes::Incomplete
                        } else {
                            let k5 = space_run(s4);
                            match spec_compare_value(s4.skip(k5 as int)) {
                                PRes::Done(k6, cv) => PRes::Done(
                                    k1 + k2 + k3 + k4 + k5 + k6,
                                    SFilter {
                                        unary: unary,
                                        selector: sel,
                                        compare_operator: op,
                                        compare_value: cv,
                                    },
                                ),
                                PRes::Error => PRes::Error,
                                PRes::Incomplete => PRes::Incomplete,
                                PRes::Abort => PRes::Abort,
                            }
                        }
                    },
                    _ => PRes::Error,
                }
            }
        },
        _ => PRes::Error,
    }
}

proof fn lemma_compare_op_consumes(s: Seq<u8>)
    ensures
        spec_compare_op(s) matches PRes::Done(n, _) ==> 0 < n <= s.len(),
{
    reveal(spec_compare_op);
}

pub fn filter(s: &[u8]) -> (res: Parsed<Filter>)
    ensures
        res@ == spec_filter(s@),
        res matches Parsed::Done(n, _) ==> 0 < n <= s.len(),
{
    reveal(spec_filter);
    let (k1, unary): (usize, Option<Unary>) = match unary_operator(s) {
        Parsed::Done(_, u) => (3, Some(u)),
        _ => (0, None),
    };
    let ghost s1 = s@.skip(k1 as int);
    let sel_parsed = selector(tail(s, k1));
    let (k2, sel) = match sel_parsed {
        Parsed::Done(k2, sel) => (k2, sel),
        _ => {
            return Parsed::Error;
        },
    };
    let p2 = k1 + k2;
    let ghost s2 = s1.skip(k2 as int);
    assert(s2 =~= s@.skip(p2 as int));
    if p2 == s.len() {
        return Parsed::Incomplete;
    }
    let k3 = scan_run_spaces(s, p2);
    let p3 = p2 + k3;
    let ghost s3 = s2.skip(k3 as int);
    assert(s3 =~= s@.skip(p3 as int));
    let (k4, op) = match compare_op(tail(s, p3)) {
        Parsed::Done(k4, op) => (k4, op),
        _ => {
            return Parsed::Error;
        },
    };
    proof {
        lemma_compare_op_consumes(s3);
    }
    let p4 = p3 + k4;
    let ghost s4 = s3.skip(k4 as int);
    assert(s4 =~= s@.skip(p4 as int));
    if p4 == s.len() {
        return Parsed::Incomplete;
    }
    let k5 = scan_run_spaces(s, p4);
    let p5 = p4 + k5;
    assert(s4.skip(k5 as int) =~= s@.skip(p5 as int));
    match compare_value(tail(s, p5)) {
        Parsed::Done(k6, cv) => Parsed::Done(
            p5 + k6,
            Filter { unary: unary, selector: sel, compare_operator: op, compare_value: cv },
        ),
        Parsed::Error => Parsed::Error,
        Parsed::Incomplete => Parsed::Incomplete,
        Parsed::Abort => Parsed::Abort,
    }
}

/// A joined filter: `[ws] operator [ws] filter`.
#[verifier::opaque]
pub open spec fn spec_next_filter(t: Seq<u8>) -> PRes<(Operator, SFilter)> {
    if t.len() == 0 {
        PRes::Incomplete
    } else {
        let k1 = space_run(t);
        let t1 = t.skip(k1 as int);
        match spec_operator(t1) {
            PRes::Done(k2, op) => {
                let t2 = t1.skip(k2 as int);
                if t2.len() == 0 {
                    PRes::Incomplete
                } else {
                    let k3 = space_run(t2);
                    match spec_filter(t2.skip(k3 as int)) {
                        PRes::Done(k4, f) => PRes::Done(k1 + k2 + k3 + k4, (op, f)),
                        PRes::Error => PRes::Error,
                        PRes::Incomplete => PRes::Incomplete,
                        PRes::Abort => PRes::Abort,
                    }
                }
            },
            _ => PRes::Error,
        }
    }
}

pub open spec fn next_filter_parser() -> spec_fn(Seq<u8>) -> PRes<(Operator, SFilter)> {
    |t: Seq<u8>| spec_next_filter(t)
}

/// A filter followed by any number of joined filters. What follows the last
/// filter that could be read is left unread.
#[verifier::opaque]
pub open spec fn spec_parse_query(s: Seq<u8>) -> PRes<SQuery> {
    match spec_filter(s) {
        PRes::Done(n, f) => match spec_many0(s.skip(n as int), next_filter_parser()) {
            PRes::Done(m, rest) => PRes::Done(n + m, SQuery { filter: f, next_filters: rest }),
            PRes::Error => PRes::Error,
            PRes::Incomplete => PRes::Incomplete,
            PRes::Abort => PRes::Abort,
        },
        PRes::Error => PRes::Error,
        PRes::Incomplete => PRes::Incomplete,
        PRes::Abort => PRes::Abort,
    }
}

proof fn lemma_operator_consumes(s: Seq<u8>)
    ensures
        spec_operator(s) matches PRes::Done(n, _) ==> 0 < n <= s.len(),
{
}

fn next_filter(t: &[u8]) -> (res: Parsed<(Operator, Filter)>)
    ensures
        res@ == spec_next_filter(t@),
        res matches Parsed::Done(n, _) ==> 0 < n <= t.len(),
{
    reveal(spec_next_filter);
    if t.len() == 0 {
        return Parsed::Incomplete;
    }
    let k1 = scan_run_spaces(t, 0);
    assert(t@.skip(0) =~= t@);
    let (k2, op) = match operator(tail(t, k1)) {
        Parsed::Done(k2, op) => (k2, op),
        _ => {
            return Parsed::Error;
        },
    };
    proof {
        lemma_operator_consumes(t@.skip(k1 as int));
    }
    let p2 = k1 + k2;
    assert(t@.skip(k1 as int).skip(k2 as int) =~= t@.skip(p2 as int));
    if p2 == t.len() {
        return Parsed::Incomplete;
    }
    let k3 = scan_run_spaces(t, p2);
    let p3 = p2 + k3;
    assert(t@.skip(p2 as int).skip(k3 as int) =~= t@.skip(p3 as int));
    match filter(tail(t, p3)) {
        Parsed::Done(k4, f) => Parsed::Done(p3 + k4, (op, f)),
        Parsed::Error => Parsed::Error,
        Parsed::Incomplete => Parsed::Incomplete,
        Parsed::Abort => Parsed::Abort,
    }
}

pub fn parse_query(s: &[u8]) -> (res: Parsed<Query>)
    ensures
        res@ == spec_parse_query(s@),
        res matches Parsed::Done(n, _) ==> 0 < n <= s.len(),
{
    reveal(spec_parse_query);
    let (n, first) = match filter(s) {
        Parsed::Done(n, f) => (n, f),
        Parsed::Error => {
            return Parsed::Error;
        },
        Parsed::Incomplete => {
            return Parsed::Incomplete;
        },
        Parsed::Abort => {
            return Parsed::Abort;
        },
    };
    let ghost t = s@.skip(n as int);
    let ghost item = next_filter_parser();
    let mut pos: usize = n;
    let mut acc: Vec<(Operator, Filter)> = Vec::new();
    proof {
        lemma_prepend_nothing(spec_many0(t, item));
        assert(t.skip(0) =~= t);
        assert(joined_view(acc@) =~= Seq::<(Operator, SFilter)>::empty());
    }
    loop
        invariant
            n <= pos <= s.len(),
            t == s@.skip(n as int),
            item == next_filter_parser(),
            spec_filter(s@) == PRes::Done(n as nat, first@),
            spec_many0(t, item) == prepend(
                (pos - n) as nat,
                joined_view(acc@),
                spec_many0(t.skip(pos - n), item),
            ),
        ensures
            n <= pos <= s.len(),
            spec_many0(t, item) == PRes::Done((pos - n) as nat, joined_view(acc@)),
        decreases s.len() - pos,
    {
        let ghost rest = t.skip(pos - n);
        assert(rest =~= s@.skip(pos as int));
        if pos == s.len() {
            assert(joined_view(acc@) + Seq::<(Operator, SFilter)>::empty() =~= joined_view(
                acc@,
            ));
            break;
        }
        assert(item(rest) == spec_next_filter(rest));
        match next_filter(tail(s, pos)) {
            Parsed::Done(k, x) => {
                let ghost before = acc@;
                assert(spec_many0(rest, item) == prepend(
                    k as nat,
                    seq![x@],
                    spec_many0(rest.skip(k as int), item),
                ));
                acc.push(x);
                assert(joined_view(acc@) =~= joined_view(before) + seq![x@]);
                assert(rest.skip(k as int) =~= t.skip(pos - n + k));
                proof {
                    lemma_prepend_prepend(
                        (pos - n) as nat,
                        joined_view(before),
                        k as nat,
                        seq![x@],
                        spec_many0(t.skip(pos - n + k), item),
                    );
                }
                pos = pos + k;
            },
            Parsed::Error => {
                assert(joined_view(acc@) + Seq::<(Operator, SFilter)>::empty() =~= joined_view(
                    acc@,
                ));
                break;
            },
            Parsed::Incomplete => {
                assert(spec_many0(rest, item) == PRes::<Seq<(Operator, SFilter)>>::Incomplete);
                reveal(spec_parse_query);
                assert(spec_parse_query(s@) == PRes::<SQuery>::Incomplete);
                return Parsed::Incomplete;
            },
            Parsed::Abort => {
                assert(spec_many0(rest, item) == PRes::<Seq<(Operator, SFilter)>>::Abort);
                reveal(spec_parse_query);
                assert(spec_parse_query(s@) == PRes::<SQuery>::Abort);
                return Parsed::Abort;
            },
        }
    }
    Parsed::Done(pos, Query { filter: first, next_filters: acc })
}


/// Why the text of a query was refused. The tool prints a message
/// and stops in each case.
#[derive(Debug, Clone, Copy, PartialEq, Eq, Structural)]
pub enum QueryParseError {
    /// The text does not start with a query.
    Mismatch,
    /// The text ends in the middle of a query.
    Incomplete,
    /// A number literal does not fit in a signed 64-bit integer.
    NumberTooLarge,
}

/// Parses the text of a header-filter query. What follows the last filter
/// that could be read is ignored.
pub fn parse(s: &str) -> (res: Result<Query, QueryParseError>)
    ensures
        match spec_parse_query(encode_utf8(s@)) {
            PRes::Done(_, q) => res matches Ok(r) && r@ == q,
            PRes::Error => res == Err::<Query, QueryParseError>(QueryParseError::Mismatch),
            PRes::Incomplete => res == Err::<Query, QueryParseError>(QueryParseError::Incomplete),
            PRes::Abort => res == Err::<Query, QueryParseError>(QueryParseError::NumberTooLarge),
        },
{
    match parse_query(s.as_bytes()) {
        Parsed::Done(_, q) => Ok(q),
        Parsed::Error => Err(QueryParseError::Mismatch),
        Parsed::Incomplete => Err(QueryParseError::Incomplete),
        Parsed::Abort => Err(QueryParseError::NumberTooLarge),
    }
}

} // verus!
