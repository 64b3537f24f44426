//! Orders on names and dates: strings are ordered by their UTF-8 bytes, as
//! `str` orders them.
use vstd::prelude::*;
use vstd::utf8::*;

verus! {

/// Three-way lexicographic order on byte sequences: -1, 0 or 1.
pub open spec fn bytes_order(a: Seq<u8>, b: Seq<u8>) -> int
    decreases a.len(),
{
    if a.len() == 0 {
        if b.len() == 0 {
            0
        } else {
            -1
        }
    } else if b.len() == 0 {
        1
    } else if a[0] < b[0] {
        -1
    } else if a[0] > b[0] {
        1
    } else {
        bytes_order(a.drop_first(), b.drop_first())
    }
}

/// Three-way order on strings: that of their UTF-8 encodings.
pub open spec fn str_order(a: Seq<char>, b: Seq<char>) -> int {
    bytes_order(encode_utf8(a), encode_utf8(b))
}

pub proof fn lemma_bytes_order_props(a: Seq<u8>, b: Seq<u8>)
    ensures
        -1 <= bytes_order(a, b) <= 1,
        bytes_order(a, b) == -bytes_order(b, a),
        bytes_order(a, b) == 0 <==> a == b,
    decreases a.len(),
{
    if a.len() > 0 && b.len() > 0 && a[0] == b[0] {
        lemma_bytes_order_props(a.drop_first(), b.drop_first());
        if a.drop_first() == b.drop_first() {
            assert(a == b) by {
                assert(a =~= seq![a[0]] + a.drop_first());
                assert(b =~= seq![b[0]] + b.drop_first());
            }
        }
    }
    if a == b && a.len() > 0 {
        lemma_bytes_order_props(a.drop_first(), b.drop_first());
    }
    if a.len() == 0 && b.len() == 0 {
        assert(a =~= b);
    }
}

pub proof fn lemma_bytes_order_trans(a: Seq<u8>, b: Seq<u8>, c: Seq<u8>)
    requires
        bytes_order(a, b) <= 0,
        bytes_order(b, c) <= 0,
    ensures
        bytes_order(a, c) <= 0,
        bytes_order(a, b) < 0 || bytes_order(b, c) < 0 ==> bytes_order(a, c) < 0,
    decreases a.len(),
{
    lemma_bytes_order_props(a, b);
    lemma_bytes_order_props(b, c);
    lemma_bytes_order_props(a, c);
    if a.len() > 0 && b.len() > 0 && c.len() > 0 && a[0] == b[0] && b[0] == c[0] {
        lemma_bytes_order_trans(a.drop_first(), b.drop_first(), c.drop_first());
    }
}

/// Properties of the string order: it is a total order.
pub proof fn lemma_str_order_props(a: Seq<char>, b: Seq<char>)
    ensures
        -1 <= str_order(a, b) <= 1,
        str_order(a, b) == -str_order(b, a),
        str_order(a, b) == 0 <==> a == b,
{
    lemma_bytes_order_props(encode_utf8(a), encode_utf8(b));
    if encode_utf8(a) == encode_utf8(b) {
        encode_utf8_decode_utf8(a);
        encode_utf8_decode_utf8(b);
    }
}

pub proof fn lemma_str_order_trans(a: Seq<char>, b: Seq<char>, c: Seq<char>)
    requires
        str_order(a, b) <= 0,
        str_order(b, c) <= 0,
    ensures
        str_order(a, c) <= 0,
        str_order(a, b) < 0 || str_order(b, c) < 0 ==> str_order(a, c) < 0,
{
    lemma_bytes_order_trans(encode_utf8(a), encode_utf8(b), encode_utf8(c));
}

proof fn lemma_bytes_order_skip(a: Seq<u8>, b: Seq<u8>, i: int)
    requires
        0 <= i <= a.len(),
        i <= b.len(),
        a.subrange(0, i) == b.subrange(0, i),
    ensures
        bytes_order(a, b) == bytes_order(a.subrange(i, a.len() as int), b.subrange(i, b.len() as int)),
    decreases i,
{
    if i > 0 {
        assert(a[0] == a.subrange(0, i)[0]);
        assert(b[0] == b.subrange(0, i)[0]);
        assert(a.drop_first().subrange(0, i - 1) =~= a.subrange(0, i).drop_first());
        assert(b.drop_first().subrange(0, i - 1) =~= b.subrange(0, i).drop_first());
        lemma_bytes_order_skip(a.drop_first(), b.drop_first(), i - 1);
        assert(a.drop_first().subrange(i - 1, a.len() - 1) =~= a.subrange(i, a.len() as int));
        assert(b.drop_first().subrange(i - 1, b.len() - 1) =~= b.subrange(i, b.len() as int));
    } else {
        assert(a.subrange(0, a.len() as int) =~= a);
        assert(b.subrange(0, b.len() as int) =~= b);
    }
}

/// Three-way comparison of two strings by their bytes: -1, 0 or 1.
pub fn compare_str(a: &str, b: &str) -> (r: i8)
    ensures
        r == str_order(a@, b@),
{
    let x = a.as_bytes();
    let y = b.as_bytes();
    let mut i: usize = 0;
    while i < x.len() && i < y.len()
        invariant
            x@ == encode_utf8(a@),
            y@ == encode_utf8(b@),
            i <= x.len(),
            i <= y.len(),
            x@.subrange(0, i as int) == y@.subrange(0, i as int),
        decreases x.len() - i,
    {
        if x[i] < y[i] {
            proof {
                lemma_bytes_order_skip(x@, y@, i as int);
            }
            return -1;
        } else if x[i] > y[i] {
            proof {
                lemma_bytes_order_skip(x@, y@, i as int);
            }
            return 1;
        }
        assert(x@.subrange(0, i + 1) =~= x@.subrange(0, i as int).push(x@[i as int]));
        assert(y@.subrange(0, i + 1) =~= y@.subrange(0, i as int).push(y@[i as int]));
        i = i + 1;
    }
    proof {
        lemma_bytes_order_skip(x@, y@, i as int);
    }
    if i < x.len() {
        1
    } else if i < y.len() {
        -1
    } else {
        0
    }
}

/// Three-way order on optional strings, `None` first.
pub open spec fn opt_str_order(a: Option<String>, b: Option<String>) -> int {
    match (a, b) {
        (None, None) => 0,
        (None, Some(_)) => -1,
        (Some(_), None) => 1,
        (Some(x), Some(y)) => str_order(x@, y@),
    }
}

/// Three-way comparison of optional strings, `None` first.
pub fn compare_opt_str(a: &Option<String>, b: &Option<String>) -> (r: i8)
    ensures
        r == opt_str_order(*a, *b),
{
    match (a, b) {
        (None, None) => 0,
        (None, Some(_)) => -1,
        (Some(_), None) => 1,
        (Some(x), Some(y)) => compare_str(x.as_str(), y.as_str()),
    }
}

/// Optional strings are equal as their views are.
pub open spec fn opt_str_same(a: Option<String>, b: Option<String>) -> bool {
    match (a, b) {
        (None, None) => true,
        (Some(x), Some(y)) => x@ == y@,
        _ => false,
    }
}

pub proof fn lemma_opt_str_order_props(a: Option<String>, b: Option<String>)
    ensures
        -1 <= opt_str_order(a, b) <= 1,
        opt_str_order(a, b) == -opt_str_order(b, a),
        opt_str_order(a, b) == 0 <==> opt_str_same(a, b),
{
    if let (Some(x), Some(y)) = (a, b) {
        lemma_str_order_props(x@, y@);
    }
}

pub proof fn lemma_opt_str_order_trans(a: Option<String>, b: Option<String>, c: Option<String>)
    requires
        opt_str_order(a, b) <= 0,
        opt_str_order(b, c) <= 0,
    ensures
        opt_str_order(a, c) <= 0,
        opt_str_order(a, b) < 0 || opt_str_order(b, c) < 0 ==> opt_str_order(a, c) < 0,
{
    if let (Some(x), Some(y), Some(z)) = (a, b, c) {
        lemma_str_order_trans(x@, y@, z@);
    }
}

/// Whether two optional strings are equal.
pub fn same_opt_str(a: &Option<String>, b: &Option<String>) -> (r: bool)
    ensures
        r == opt_str_same(*a, *b),
{
    match (a, b) {
        (None, None) => true,
        (Some(x), Some(y)) => x.eq(y),
        _ => false,
    }
}

/// A copy of an optional string.
pub fn copy_opt_str(a: &Option<String>) -> (r: Option<String>)
    ensures
        r == *a,
{
    match a {
        None => None,
        Some(x) => Some(x.clone()),
    }
}

} // verus!
