//! Three-way comparison: the outcome type, the lexicographic order on
//! sequences, and the laws that make a comparison a total order.
use vstd::prelude::*;

verus! {

/// The outcome of comparing a first value with a second.
#[derive(Clone, Copy, Debug, PartialEq, Eq, Structural)]
pub enum Order {
    /// The first value comes before the second.
    Less,
    /// The two values are the same.
    Equal,
    /// The first value comes after the second.
    Greater,
}

/// Lexicographic combination: the first comparison decides unless it is a tie.
pub open spec fn then(first: Order, second: Order) -> Order {
    if first is Equal {
        second
    } else {
        first
    }
}

/// The outcome that `then` describes.
pub fn and_then(first: Order, second: Order) -> (r: Order)
    ensures
        r == then(first, second),
{
    match first {
        Order::Equal => second,
        _ => first,
    }
}

/// The usual order of the integers.
pub open spec fn int_order(a: int, b: int) -> Order {
    if a < b {
        Order::Less
    } else if a == b {
        Order::Equal
    } else {
        Order::Greater
    }
}

/// The lexicographic order on sequences whose items are ordered by `item`:
/// the first position where the two differ decides, and a proper prefix
/// comes before the longer sequence.
pub open spec fn seq_order<A>(item: spec_fn(A, A) -> Order, a: Seq<A>, b: Seq<A>) -> Order
    decreases a.len(),
{
    if a.len() == 0 {
        if b.len() == 0 {
            Order::Equal
        } else {
            Order::Less
        }
    } else if b.len() == 0 {
        Order::Greater
    } else {
        then(item(a[0], b[0]), seq_order(item, a.drop_first(), b.drop_first()))
    }
}

/// `Equal` is returned on identical values and on no others.
pub open spec fn equal_is_identity<A>(ord: spec_fn(A, A) -> Order) -> bool {
    forall|a: A, b: A| (#[trigger] ord(a, b) is Equal) <==> a == b
}

/// Swapping the arguments swaps `Less` and `Greater`.
pub open spec fn flips<A>(ord: spec_fn(A, A) -> Order) -> bool {
    forall|a: A, b: A| (#[trigger] ord(a, b) is Less) <==> (ord(b, a) is Greater)
}

/// `Less` is transitive.
pub open spec fn less_is_transitive<A>(ord: spec_fn(A, A) -> Order) -> bool {
    forall|a: A, b: A, c: A|
        (#[trigger] ord(a, b) is Less) && (#[trigger] ord(b, c) is Less) ==> ord(a, c) is Less
}

/// The three laws of a comparison that describes a total order.
pub open spec fn lawful<A>(ord: spec_fn(A, A) -> Order) -> bool {
    &&& equal_is_identity(ord)
    &&& flips(ord)
    &&& less_is_transitive(ord)
}

/// "Not after": the relation that a sorted sequence is sorted by.
pub open spec fn not_after<A>(ord: spec_fn(A, A) -> Order) -> spec_fn(A, A) -> bool {
    |a: A, b: A| !(ord(a, b) is Greater)
}

/// A lawful comparison gives a total order in the sense of `vstd::relations`.
pub proof fn lemma_lawful_is_total<A>(ord: spec_fn(A, A) -> Order)
    requires
        lawful(ord),
    ensures
        vstd::relations::total_ordering(not_after(ord)),
{
    let le = not_after(ord);
    assert forall|x: A| #[trigger] le(x, x) by {
        assert(ord(x, x) is Equal);
    }
    assert forall|x: A, y: A| #[trigger] le(x, y) && #[trigger] le(y, x) implies x == y by {
        if ord(x, y) is Less {
            assert(ord(y, x) is Greater);
        }
        assert(ord(x, y) is Equal);
    }
    assert forall|x: A, y: A, z: A| #[trigger] le(x, y) && #[trigger] le(y, z) implies le(
        x,
        z,
    ) by {
        if ord(x, y) is Equal {
            assert(x == y);
        } else if ord(y, z) is Equal {
            assert(y == z);
        } else {
            assert(ord(x, y) is Less);
            assert(ord(y, z) is Less);
            assert(ord(x, z) is Less);
        }
    }
    assert forall|x: A, y: A| #[trigger] le(x, y) || #[trigger] le(y, x) by {
        if ord(x, y) is Greater {
            assert(!(ord(y, x) is Greater)) by {
                if ord(y, x) is Greater {
                    assert(ord(x, y) is Less);
                }
            }
        }
    }
}

/// The lexicographic order ties exactly on identical sequences.
pub proof fn lemma_seq_order_equal<A>(item: spec_fn(A, A) -> Order, a: Seq<A>, b: Seq<A>)
    requires
        equal_is_identity(item),
    ensures
        (seq_order(item, a, b) is Equal) <==> a == b,
    decreases a.len(),
{
    if a.len() == 0 || b.len() == 0 {
        if a.len() == 0 && b.len() == 0 {
            assert(a =~= b);
        }
    } else {
        lemma_seq_order_equal(item, a.drop_first(), b.drop_first());
        assert((item(a[0], b[0]) is Equal) <==> a[0] == b[0]);
        if a[0] == b[0] && a.drop_first() == b.drop_first() {
            assert(a =~= seq![a[0]] + a.drop_first());
            assert(b =~= seq![b[0]] + b.drop_first());
        }
    }
}

/// Swapping two sequences swaps `Less` and `Greater`.
pub proof fn lemma_seq_order_flips<A>(item: spec_fn(A, A) -> Order, a: Seq<A>, b: Seq<A>)
    requires
        equal_is_identity(item),
        flips(item),
    ensures
        (seq_order(item, a, b) is Less) <==> (seq_order(item, b, a) is Greater),
        (seq_order(item, a, b) is Equal) <==> (seq_order(item, b, a) is Equal),
    decreases a.len(),
{
    if a.len() == 0 || b.len() == 0 {
    } else {
        lemma_seq_order_flips(item, a.drop_first(), b.drop_first());
        assert((item(a[0], b[0]) is Less) <==> (item(b[0], a[0]) is Greater));
        assert((item(b[0], a[0]) is Less) <==> (item(a[0], b[0]) is Greater));
        assert((item(a[0], b[0]) is Equal) <==> a[0] == b[0]);
        assert((item(b[0], a[0]) is Equal) <==> b[0] == a[0]);
    }
}

/// `Less` between sequences is transitive.
pub proof fn lemma_seq_order_transitive<A>(
    item: spec_fn(A, A) -> Order,
    a: Seq<A>,
    b: Seq<A>,
    c: Seq<A>,
)
    requires
        lawful(item),
        seq_order(item, a, b) is Less,
        seq_order(item, b, c) is Less,
    ensures
        seq_order(item, a, c) is Less,
    decreases a.len(),
{
    if a.len() == 0 {
    } else {
        assert(b.len() > 0 && c.len() > 0);
        let ab = item(a[0], b[0]);
        let bc = item(b[0], c[0]);
        assert((ab is Equal) <==> a[0] == b[0]);
        assert((bc is Equal) <==> b[0] == c[0]);
        if ab is Equal && bc is Equal {
            assert(item(a[0], c[0]) is Equal);
            lemma_seq_order_transitive(item, a.drop_first(), b.drop_first(), c.drop_first());
        } else if ab is Equal {
            assert(bc is Less);
        } else if bc is Equal {
            assert(ab is Less);
        } else {
            assert(ab is Less && bc is Less);
            assert(item(a[0], c[0]) is Less);
        }
    }
}

/// Two sequences that agree on their first `k` items compare as their
/// remainders do.
pub proof fn lemma_seq_order_skip<A>(item: spec_fn(A, A) -> Order, a: Seq<A>, b: Seq<A>, k: int)
    requires
        equal_is_identity(item),
        0 <= k <= a.len(),
        k <= b.len(),
        a.take(k) == b.take(k),
    ensures
        seq_order(item, a, b) == seq_order(item, a.skip(k), b.skip(k)),
    decreases k,
{
    if k == 0 {
        assert(a.skip(0) =~= a);
        assert(b.skip(0) =~= b);
    } else {
        assert(a[0] == a.take(k)[0]);
        assert(b[0] == b.take(k)[0]);
        assert(item(a[0], b[0]) is Equal);
        assert(a.drop_first().take(k - 1) =~= a.take(k).drop_first());
        assert(b.drop_first().take(k - 1) =~= b.take(k).drop_first());
        lemma_seq_order_skip(item, a.drop_first(), b.drop_first(), k - 1);
        assert(a.drop_first().skip(k - 1) =~= a.skip(k));
        assert(b.drop_first().skip(k - 1) =~= b.skip(k));
    }
}

} // verus!
