//! The order of text.
//!
//! Text is ordered as its bytes are: at the first byte where two texts
//! differ, the smaller byte goes first, and a text goes before every text
//! that it begins.
use vstd::prelude::*;

verus! {

/// How one text stands to another.
#[derive(Clone, Copy, Debug, PartialEq, Eq, Structural)]
pub enum TextOrder {
    Before,
    Same,
    After,
}

/// Whether `a` and `b` agree in their first `k` bytes and no further: one of
/// them ends there, or they differ in the byte that follows.
pub open spec fn is_split(a: Seq<u8>, b: Seq<u8>, k: int) -> bool {
    &&& 0 <= k <= a.len()
    &&& k <= b.len()
    &&& forall|j: int| 0 <= j < k ==> a[j] == b[j]
    &&& k < a.len() && k < b.len() ==> a[k] != b[k]
}

/// How many bytes `a` and `b` have in common at their beginning.
pub open spec fn split_of(a: Seq<u8>, b: Seq<u8>) -> int {
    choose|k: int| is_split(a, b, k)
}

/// How `a` stands to `b`.
pub open spec fn text_order(a: Seq<u8>, b: Seq<u8>) -> TextOrder {
    let k = split_of(a, b);
    if k == a.len() && k == b.len() {
        TextOrder::Same
    } else if k == a.len() {
        TextOrder::Before
    } else if k == b.len() {
        TextOrder::After
    } else if a[k] < b[k] {
        TextOrder::Before
    } else {
        TextOrder::After
    }
}

/// Two texts agree at their beginning in one number of bytes only.
pub proof fn lemma_split_unique(a: Seq<u8>, b: Seq<u8>, k: int)
    requires
        is_split(a, b, k),
    ensures
        split_of(a, b) == k,
{
    let other = split_of(a, b);
    assert(is_split(a, b, other));
    if other < k {
        assert(a[other] == b[other]);
    }
    if k < other {
        assert(a[k] == b[k]);
    }
}

/// Every two texts have a split.
pub proof fn lemma_split_exists(a: Seq<u8>, b: Seq<u8>, from: int)
    requires
        0 <= from <= a.len(),
        from <= b.len(),
        forall|j: int| 0 <= j < from ==> a[j] == b[j],
    ensures
        is_split(a, b, split_of(a, b)),
    decreases a.len() - from,
{
    if from < a.len() && from < b.len() && a[from] == b[from] {
        lemma_split_exists(a, b, from + 1);
    } else {
        assert(is_split(a, b, from));
    }
}

/// Texts stand as `Same` exactly when they are the same bytes, and one goes
/// before the other exactly when the other goes after it.
pub proof fn lemma_text_order_is_an_order(a: Seq<u8>, b: Seq<u8>)
    ensures
        text_order(a, b) is Same <==> a == b,
        text_order(a, b) is Before <==> text_order(b, a) is After,
{
    lemma_split_exists(a, b, 0);
    let k = split_of(a, b);
    assert(is_split(b, a, k));
    lemma_split_unique(b, a, k);
    if text_order(a, b) is Same {
        assert(a =~= b);
    }
    if a == b {
        assert(is_split(a, b, a.len() as int));
        lemma_split_unique(a, b, a.len() as int);
    }
}

/// Where `a` goes before `b` and `b` before `c`, `a` goes before `c`.
pub proof fn lemma_text_order_is_transitive(a: Seq<u8>, b: Seq<u8>, c: Seq<u8>)
    requires
        text_order(a, b) is Before,
        text_order(b, c) is Before,
    ensures
        text_order(a, c) is Before,
{
    lemma_split_exists(a, b, 0);
    lemma_split_exists(b, c, 0);
    let i = split_of(a, b);
    let j = split_of(b, c);
    let k = if i <= j {
        i
    } else {
        j
    };
    assert(is_split(a, c, k)) by {
        assert forall|n: int| 0 <= n < k implies a[n] == c[n] by {
            assert(a[n] == b[n]);
            assert(b[n] == c[n]);
        }
        if i < j {
            assert(b[i] == c[i]);
        }
        if j < i {
            assert(a[j] == b[j]);
        }
    }
    lemma_split_unique(a, c, k);
}

/// How the bytes of `a` stand to the bytes of `b`.
pub fn order_bytes(a: &[u8], b: &[u8]) -> (order: TextOrder)
    ensures
        order == text_order(a@, b@),
{
    let mut k: usize = 0;
    while k < a.len() && k < b.len() && a[k] == b[k]
        invariant
            k <= a@.len(),
            k <= b@.len(),
            forall|j: int| 0 <= j < k ==> a@[j] == b@[j],
        decreases a@.len() - k,
    {
        k += 1;
    }
    proof {
        assert(is_split(a@, b@, k as int));
        lemma_split_unique(a@, b@, k as int);
    }
    if k == a.len() && k == b.len() {
        TextOrder::Same
    } else if k == a.len() {
        TextOrder::Before
    } else if k == b.len() {
        TextOrder::After
    } else if a[k] < b[k] {
        TextOrder::Before
    } else {
        TextOrder::After
    }
}

} // verus!
