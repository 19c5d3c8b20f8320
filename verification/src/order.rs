//! The total order in which diagnostics are kept and printed: the order that
//! `#[derive(Ord)]` gives [`Output`] (fields compared in declaration order,
//! `None` before `Some`, strings by their UTF-8 bytes, sequences
//! lexicographically), stated over the views and computed by the `compare_*`
//! functions.

use vstd::prelude::*;
use vstd::utf8::*;

use crate::output::{
    spans_view, text_of, Code, CodeView, Message, MessageView, Output, OutputView, Span, SpanView,
};

verus! {

broadcast use encode_utf8_decode_utf8;

/// The outcome of comparing two values.
#[derive(Clone, Copy, Debug, PartialEq, Eq, Structural)]
pub enum Order {
    Less,
    Equal,
    Greater,
}

/// The outcome of the comparison with its two sides swapped.
pub open spec fn flip(o: Order) -> Order {
    match o {
        Order::Less => Order::Greater,
        Order::Equal => Order::Equal,
        Order::Greater => Order::Less,
    }
}

/// Lexicographic combination: the first outcome unless it is `Equal`.
pub open spec fn chain(first: Order, second: Order) -> Order {
    match first {
        Order::Equal => second,
        _ => first,
    }
}

pub open spec fn num_order(a: int, b: int) -> Order {
    if a < b {
        Order::Less
    } else if a > b {
        Order::Greater
    } else {
        Order::Equal
    }
}

/// Lexicographic order on byte strings; a proper prefix comes first.
pub open spec fn bytes_order(a: Seq<u8>, b: Seq<u8>) -> Order
    decreases a.len(),
{
    if a.len() == 0 {
        if b.len() == 0 {
            Order::Equal
        } else {
            Order::Less
        }
    } else if b.len() == 0 {
        Order::Greater
    } else {
        chain(num_order(a[0] as int, b[0] as int), bytes_order(a.drop_first(), b.drop_first()))
    }
}

/// Strings compare by their UTF-8 encodings.
pub open spec fn text_order(a: Seq<char>, b: Seq<char>) -> Order {
    bytes_order(encode_utf8(a), encode_utf8(b))
}

pub open spec fn opt_text_order(a: Option<Seq<char>>, b: Option<Seq<char>>) -> Order {
    match (a, b) {
        (None, None) => Order::Equal,
        (None, Some(_)) => Order::Less,
        (Some(_), None) => Order::Greater,
        (Some(x), Some(y)) => text_order(x, y),
    }
}

pub open spec fn opt_usize_order(a: Option<usize>, b: Option<usize>) -> Order {
    match (a, b) {
        (None, None) => Order::Equal,
        (None, Some(_)) => Order::Less,
        (Some(_), None) => Order::Greater,
        (Some(x), Some(y)) => num_order(x as int, y as int),
    }
}

pub open spec fn bool_rank(b: bool) -> int {
    if b {
        1
    } else {
        0
    }
}

pub open spec fn opt_bool_order(a: Option<bool>, b: Option<bool>) -> Order {
    match (a, b) {
        (None, None) => Order::Equal,
        (None, Some(_)) => Order::Less,
        (Some(_), None) => Order::Greater,
        (Some(x), Some(y)) => num_order(bool_rank(x), bool_rank(y)),
    }
}

pub open spec fn span_order(a: SpanView, b: SpanView) -> Order {
    chain(
        opt_text_order(a.file_name, b.file_name),
        chain(
            opt_usize_order(a.line_start, b.line_start),
            chain(
                opt_usize_order(a.line_end, b.line_end),
                chain(
                    opt_usize_order(a.column_start, b.column_start),
                    opt_usize_order(a.column_end, b.column_end),
                ),
            ),
        ),
    )
}

/// Lexicographic order on span sequences; a proper prefix comes first.
pub open spec fn spans_order(a: Seq<SpanView>, b: Seq<SpanView>) -> Order
    decreases a.len(),
{
    if a.len() == 0 {
        if b.len() == 0 {
            Order::Equal
        } else {
            Order::Less
        }
    } else if b.len() == 0 {
        Order::Greater
    } else {
        chain(span_order(a[0], b[0]), spans_order(a.drop_first(), b.drop_first()))
    }
}

pub open spec fn opt_code_order(a: Option<CodeView>, b: Option<CodeView>) -> Order {
    match (a, b) {
        (None, None) => Order::Equal,
        (None, Some(_)) => Order::Less,
        (Some(_), None) => Order::Greater,
        (Some(x), Some(y)) => opt_text_order(x.code, y.code),
    }
}

pub open spec fn message_order(a: MessageView, b: MessageView) -> Order {
    chain(
        opt_code_order(a.code, b.code),
        chain(
            opt_text_order(a.level, b.level),
            chain(
                opt_text_order(a.message, b.message),
                chain(spans_order(a.spans, b.spans), opt_text_order(a.rendered, b.rendered)),
            ),
        ),
    )
}

pub open spec fn opt_message_order(a: Option<MessageView>, b: Option<MessageView>) -> Order {
    match (a, b) {
        (None, None) => Order::Equal,
        (None, Some(_)) => Order::Less,
        (Some(_), None) => Order::Greater,
        (Some(x), Some(y)) => message_order(x, y),
    }
}

/// The order of [`Output`] values.
pub open spec fn output_order(a: OutputView, b: OutputView) -> Order {
    chain(
        opt_text_order(a.reason, b.reason),
        chain(
            opt_text_order(a.manifest_path, b.manifest_path),
            chain(
                opt_message_order(a.message, b.message),
                opt_bool_order(a.success, b.success),
            ),
        ),
    )
}

/// The three facts that make a comparison a total order, for `a`, `b`, `c`.
pub open spec fn total_order_facts(
    ab: Order,
    ba: Order,
    bc: Order,
    ac: Order,
    a_eq_b: bool,
    b_eq_c: bool,
) -> bool {
    &&& (ab == Order::Equal) == a_eq_b
    &&& (bc == Order::Equal) == b_eq_c
    &&& ba == flip(ab)
    &&& (ab == Order::Less && bc == Order::Less ==> ac == Order::Less)
}

proof fn lemma_bytes_equal(a: Seq<u8>, b: Seq<u8>)
    ensures
        (bytes_order(a, b) == Order::Equal) == (a == b),
        bytes_order(b, a) == flip(bytes_order(a, b)),
    decreases a.len(),
{
    if a.len() == 0 && b.len() == 0 {
        assert(a =~= b);
    }
    if a.len() > 0 && b.len() > 0 {
        lemma_bytes_equal(a.drop_first(), b.drop_first());
        if a[0] == b[0] && a.drop_first() == b.drop_first() {
            assert(a =~= b) by {
                assert forall|i: int| 0 <= i < a.len() implies a[i] == b[i] by {
                    if i > 0 {
                        assert(a[i] == a.drop_first()[i - 1]);
                        assert(b[i] == b.drop_first()[i - 1]);
                    }
                }
            }
        }
    }
}

proof fn lemma_bytes_transitive(a: Seq<u8>, b: Seq<u8>, c: Seq<u8>)
    ensures
        bytes_order(a, b) == Order::Less && bytes_order(b, c) == Order::Less ==> bytes_order(a, c)
            == Order::Less,
    decreases a.len(),
{
    if a.len() > 0 && b.len() > 0 && c.len() > 0 {
        lemma_bytes_transitive(a.drop_first(), b.drop_first(), c.drop_first());
    }
}

pub proof fn lemma_bytes_order(a: Seq<u8>, b: Seq<u8>, c: Seq<u8>)
    ensures
        total_order_facts(bytes_order(a, b), bytes_order(b, a), bytes_order(b, c), bytes_order(a, c), a == b, b == c),
{
    lemma_bytes_equal(a, b);
    lemma_bytes_equal(b, c);
    lemma_bytes_transitive(a, b, c);
}

pub proof fn lemma_text_order(a: Seq<char>, b: Seq<char>, c: Seq<char>)
    ensures
        total_order_facts(text_order(a, b), text_order(b, a), text_order(b, c), text_order(a, c), a == b, b == c),
{
    lemma_bytes_order(encode_utf8(a), encode_utf8(b), encode_utf8(c));
    assert(decode_utf8(encode_utf8(a)) == a);
    assert(decode_utf8(encode_utf8(b)) == b);
    assert(decode_utf8(encode_utf8(c)) == c);
}

pub proof fn lemma_opt_text_order(a: Option<Seq<char>>, b: Option<Seq<char>>, c: Option<Seq<char>>)
    ensures
        total_order_facts(
            opt_text_order(a, b),
            opt_text_order(b, a),
            opt_text_order(b, c),
            opt_text_order(a, c),
            a == b,
            b == c,
        ),
{
    let x = a.unwrap_or(Seq::empty());
    let y = b.unwrap_or(Seq::empty());
    let z = c.unwrap_or(Seq::empty());
    lemma_text_order(x, y, z);
}

pub proof fn lemma_span_order(a: SpanView, b: SpanView, c: SpanView)
    ensures
        total_order_facts(span_order(a, b), span_order(b, a), span_order(b, c), span_order(a, c), a == b, b == c),
{
    lemma_opt_text_order(a.file_name, b.file_name, c.file_name);
}

proof fn lemma_spans_equal(a: Seq<SpanView>, b: Seq<SpanView>)
    ensures
        (spans_order(a, b) == Order::Equal) == (a == b),
        spans_order(b, a) == flip(spans_order(a, b)),
    decreases a.len(),
{
    if a.len() == 0 && b.len() == 0 {
        assert(a =~= b);
    }
    if a.len() > 0 && b.len() > 0 {
        lemma_spans_equal(a.drop_first(), b.drop_first());
        lemma_span_order(a[0], b[0], b[0]);
        if a[0] == b[0] && a.drop_first() == b.drop_first() {
            assert(a =~= b) by {
                assert forall|i: int| 0 <= i < a.len() implies a[i] == b[i] by {
                    if i > 0 {
                        assert(a[i] == a.drop_first()[i - 1]);
                        assert(b[i] == b.drop_first()[i - 1]);
                    }
                }
            }
        }
    }
}

proof fn lemma_spans_transitive(a: Seq<SpanView>, b: Seq<SpanView>, c: Seq<SpanView>)
    ensures
        spans_order(a, b) == Order::Less && spans_order(b, c) == Order::Less ==> spans_order(a, c)
            == Order::Less,
    decreases a.len(),
{
    if a.len() > 0 && b.len() > 0 && c.len() > 0 {
        lemma_spans_transitive(a.drop_first(), b.drop_first(), c.drop_first());
        lemma_span_order(a[0], b[0], c[0]);
    }
}

pub proof fn lemma_spans_order(a: Seq<SpanView>, b: Seq<SpanView>, c: Seq<SpanView>)
    ensures
        total_order_facts(spans_order(a, b), spans_order(b, a), spans_order(b, c), spans_order(a, c), a == b, b == c),
{
    lemma_spans_equal(a, b);
    lemma_spans_equal(b, c);
    lemma_spans_transitive(a, b, c);
}

pub proof fn lemma_opt_code_order(a: Option<CodeView>, b: Option<CodeView>, c: Option<CodeView>)
    ensures
        total_order_facts(
            opt_code_order(a, b),
            opt_code_order(b, a),
            opt_code_order(b, c),
            opt_code_order(a, c),
            a == b,
            b == c,
        ),
{
    let none = CodeView { code: None };
    lemma_opt_text_order(a.unwrap_or(none).code, b.unwrap_or(none).code, c.unwrap_or(none).code);
}

pub proof fn lemma_message_order(a: MessageView, b: MessageView, c: MessageView)
    ensures
        total_order_facts(
            message_order(a, b),
            message_order(b, a),
            message_order(b, c),
            message_order(a, c),
            a == b,
            b == c,
        ),
{
    lemma_opt_code_order(a.code, b.code, c.code);
    lemma_opt_text_order(a.level, b.level, c.level);
    lemma_opt_text_order(a.message, b.message, c.message);
    lemma_spans_order(a.spans, b.spans, c.spans);
    lemma_opt_text_order(a.rendered, b.rendered, c.rendered);
}

pub proof fn lemma_opt_message_order(a: Option<MessageView>, b: Option<MessageView>, c: Option<MessageView>)
    ensures
        total_order_facts(
            opt_message_order(a, b),
            opt_message_order(b, a),
            opt_message_order(b, c),
            opt_message_order(a, c),
            a == b,
            b == c,
        ),
{
    if a is Some && b is Some && c is Some {
        lemma_message_order(a->0, b->0, c->0);
    } else if a is Some && b is Some {
        lemma_message_order(a->0, b->0, b->0);
    } else if b is Some && c is Some {
        lemma_message_order(b->0, b->0, c->0);
    }
}

/// The order of outputs is a strict total order: `Equal` exactly on equal
/// values, antisymmetric, and transitive.
pub proof fn lemma_output_order(a: OutputView, b: OutputView, c: OutputView)
    ensures
        total_order_facts(
            output_order(a, b),
            output_order(b, a),
            output_order(b, c),
            output_order(a, c),
            a == b,
            b == c,
        ),
{
    lemma_opt_text_order(a.reason, b.reason, c.reason);
    lemma_opt_text_order(a.manifest_path, b.manifest_path, c.manifest_path);
    lemma_opt_message_order(a.message, b.message, c.message);
}

fn order_of_nums(a: usize, b: usize) -> (r: Order)
    ensures
        r == num_order(a as int, b as int),
{
    if a < b {
        Order::Less
    } else if a > b {
        Order::Greater
    } else {
        Order::Equal
    }
}

/// Compares two byte strings lexicographically.
pub fn compare_bytes(a: &[u8], b: &[u8]) -> (r: Order)
    ensures
        r == bytes_order(a@, b@),
{
    let mut i: usize = 0;
    assert(a@.skip(0) =~= a@);
    assert(b@.skip(0) =~= b@);
    while i < a.len() && i < b.len()
        invariant
            0 <= i <= a@.len(),
            i <= b@.len(),
            bytes_order(a@, b@) == bytes_order(a@.skip(i as int), b@.skip(i as int)),
        decreases a@.len() - i,
    {
        assert(a@.skip(i as int).drop_first() =~= a@.skip(i + 1));
        assert(b@.skip(i as int).drop_first() =~= b@.skip(i + 1));
        if a[i] < b[i] {
            return Order::Less;
        } else if a[i] > b[i] {
            return Order::Greater;
        }
        i = i + 1;
    }
    if a.len() == b.len() {
        Order::Equal
    } else if i == a.len() {
        Order::Less
    } else {
        Order::Greater
    }
}

/// Compares two strings by their UTF-8 bytes.
pub fn compare_text(a: &String, b: &String) -> (r: Order)
    ensures
        r == text_order(a@, b@),
{
    compare_bytes(a.as_str().as_bytes(), b.as_str().as_bytes())
}

fn compare_opt_text(a: &Option<String>, b: &Option<String>) -> (r: Order)
    ensures
        r == opt_text_order(text_of(*a), text_of(*b)),
{
    match (a, b) {
        (None, None) => Order::Equal,
        (None, Some(_)) => Order::Less,
        (Some(_), None) => Order::Greater,
        (Some(x), Some(y)) => compare_text(x, y),
    }
}

fn compare_opt_usize(a: &Option<usize>, b: &Option<usize>) -> (r: Order)
    ensures
        r == opt_usize_order(*a, *b),
{
    match (a, b) {
        (None, None) => Order::Equal,
        (None, Some(_)) => Order::Less,
        (Some(_), None) => Order::Greater,
        (Some(x), Some(y)) => order_of_nums(*x, *y),
    }
}

fn compare_opt_bool(a: &Option<bool>, b: &Option<bool>) -> (r: Order)
    ensures
        r == opt_bool_order(*a, *b),
{
    match (a, b) {
        (None, None) => Order::Equal,
        (None, Some(_)) => Order::Less,
        (Some(_), None) => Order::Greater,
        (Some(x), Some(y)) => order_of_nums(
            if *x {
                1
            } else {
                0
            },
            if *y {
                1
            } else {
                0
            },
        ),
    }
}

fn compare_span(a: &Span, b: &Span) -> (r: Order)
    ensures
        r == span_order(a@, b@),
{
    let o = compare_opt_text(&a.file_name, &b.file_name);
    if o != Order::Equal {
        return o;
    }
    let o = compare_opt_usize(&a.line_start, &b.line_start);
    if o != Order::Equal {
        return o;
    }
    let o = compare_opt_usize(&a.line_end, &b.line_end);
    if o != Order::Equal {
        return o;
    }
    let o = compare_opt_usize(&a.column_start, &b.column_start);
    if o != Order::Equal {
        return o;
    }
    compare_opt_usize(&a.column_end, &b.column_end)
}

fn compare_spans(a: &Vec<Span>, b: &Vec<Span>) -> (r: Order)
    ensures
        r == spans_order(spans_view(a@), spans_view(b@)),
{
    let ghost va = spans_view(a@);
    let ghost vb = spans_view(b@);
    let mut i: usize = 0;
    assert(va.skip(0) =~= va);
    assert(vb.skip(0) =~= vb);
    while i < a.len() && i < b.len()
        invariant
            0 <= i <= a@.len(),
            i <= b@.len(),
            va == spans_view(a@),
            vb == spans_view(b@),
            spans_order(va, vb) == spans_order(va.skip(i as int), vb.skip(i as int)),
        decreases a@.len() - i,
    {
        assert(va.skip(i as int).drop_first() =~= va.skip(i + 1));
        assert(vb.skip(i as int).drop_first() =~= vb.skip(i + 1));
        let o = compare_span(&a[i], &b[i]);
        if o != Order::Equal {
            return o;
        }
        i = i + 1;
    }
    if a.len() == b.len() {
        Order::Equal
    } else if i == a.len() {
        Order::Less
    } else {
        Order::Greater
    }
}

fn compare_opt_code(a: &Option<Code>, b: &Option<Code>) -> (r: Order)
    ensures
        r == opt_code_order(
            match *a {
                Some(c) => Some(c@),
                None => None,
            },
            match *b {
                Some(c) => Some(c@),
                None => None,
            },
        ),
{
    match (a, b) {
        (None, None) => Order::Equal,
        (None, Some(_)) => Order::Less,
        (Some(_), None) => Order::Greater,
        (Some(x), Some(y)) => compare_opt_text(&x.code, &y.code),
    }
}

fn compare_message(a: &Message, b: &Message) -> (r: Order)
    ensures
        r == message_order(a@, b@),
{
    let o = compare_opt_code(&a.code, &b.code);
    if o != Order::Equal {
        return o;
    }
    let o = compare_opt_text(&a.level, &b.level);
    if o != Order::Equal {
        return o;
    }
    let o = compare_opt_text(&a.message, &b.message);
    if o != Order::Equal {
        return o;
    }
    let o = compare_spans(&a.spans, &b.spans);
    if o != Order::Equal {
        return o;
    }
    compare_opt_text(&a.rendered, &b.rendered)
}

fn compare_opt_message(a: &Option<Message>, b: &Option<Message>) -> (r: Order)
    ensures
        r == opt_message_order(
            match *a {
                Some(m) => Some(m@),
                None => None,
            },
            match *b {
                Some(m) => Some(m@),
                None => None,
            },
        ),
{
    match (a, b) {
        (None, None) => Order::Equal,
        (None, Some(_)) => Order::Less,
        (Some(_), None) => Order::Greater,
        (Some(x), Some(y)) => compare_message(x, y),
    }
}

/// Compares two outputs in the order that `#[derive(Ord)]` gives them.
pub fn compare_outputs(a: &Output, b: &Output) -> (r: Order)
    ensures
        r == output_order(a@, b@),
{
    let o = compare_opt_text(&a.reason, &b.reason);
    if o != Order::Equal {
        return o;
    }
    let o = compare_opt_text(&a.manifest_path, &b.manifest_path);
    if o != Order::Equal {
        return o;
    }
    let o = compare_opt_message(&a.message, &b.message);
    if o != Order::Equal {
        return o;
    }
    compare_opt_bool(&a.success, &b.success)
}

} // verus!
