//! Three-way comparisons and lexicographic order.
use crate::text::chars_of;
use vstd::prelude::*;

verus! {

/// How one value stands to another.
#[derive(Clone, Copy, PartialEq, Eq, Debug, Structural)]
pub enum Order {
    Less,
    Equal,
    Greater,
}

impl Order {
    /// The order seen from the other side.
    pub open spec fn flipped(self) -> Order {
        match self {
            Order::Less => Order::Greater,
            Order::Equal => Order::Equal,
            Order::Greater => Order::Less,
        }
    }

    /// `self`, or `next` where `self` decides nothing.
    pub open spec fn or_else(self, next: Order) -> Order {
        if self == Order::Equal {
            next
        } else {
            self
        }
    }
}

/// The order of two integers.
pub open spec fn int_order(a: int, b: int) -> Order {
    if a < b {
        Order::Less
    } else if a == b {
        Order::Equal
    } else {
        Order::Greater
    }
}

/// Lexicographic order over `order`; a proper prefix comes first.
pub open spec fn lex_order<T>(a: Seq<T>, b: Seq<T>, order: spec_fn(T, T) -> Order) -> Order
    decreases a.len(),
{
    if a.len() == 0 {
        if b.len() == 0 {
            Order::Equal
        } else {
            Order::Less
        }
    } else if b.len() == 0 {
        Order::Greater
    } else {
        order(a[0], b[0]).or_else(lex_order(a.drop_first(), b.drop_first(), order))
    }
}

/// The order of characters by code point.
pub open spec fn char_order() -> spec_fn(char, char) -> Order {
    |a: char, b: char| int_order(a as int, b as int)
}

/// The order of strings by code point.
pub open spec fn text_order(a: Seq<char>, b: Seq<char>) -> Order {
    lex_order(a, b, char_order())
}

/// `order` is a total order in which only equal values compare as equal.
pub open spec fn total_order<T>(order: spec_fn(T, T) -> Order) -> bool {
    &&& forall|a: T, b: T| #[trigger] order(a, b) == Order::Equal <==> a == b
    &&& forall|a: T, b: T| #[trigger] order(a, b) == order(b, a).flipped()
    &&& forall|a: T, b: T, c: T|
        #[trigger] order(a, b) == Order::Less && #[trigger] order(b, c) == Order::Less ==> order(
            a,
            c,
        ) == Order::Less
}

/// The lexicographic order over a total order is equal on equal sequences only.
pub proof fn lemma_lex_equal<T>(a: Seq<T>, b: Seq<T>, order: spec_fn(T, T) -> Order)
    requires
        total_order(order),
    ensures
        lex_order(a, b, order) == Order::Equal <==> a == b,
    decreases a.len(),
{
    if a.len() == 0 || b.len() == 0 {
        assert(a.len() == b.len() ==> a =~= b);
    } else {
        lemma_lex_equal(a.drop_first(), b.drop_first(), order);
        assert(a =~= seq![a[0]] + a.drop_first());
        assert(b =~= seq![b[0]] + b.drop_first());
    }
}

/// Seen from the other side, the lexicographic order is flipped.
pub proof fn lemma_lex_flip<T>(a: Seq<T>, b: Seq<T>, order: spec_fn(T, T) -> Order)
    requires
        total_order(order),
    ensures
        lex_order(a, b, order) == lex_order(b, a, order).flipped(),
    decreases a.len(),
{
    if a.len() != 0 && b.len() != 0 {
        lemma_lex_flip(a.drop_first(), b.drop_first(), order);
        assert(order(a[0], b[0]) == order(b[0], a[0]).flipped());
    }
}

/// The lexicographic order over a total order is transitive.
pub proof fn lemma_lex_transitive<T>(
    a: Seq<T>,
    b: Seq<T>,
    c: Seq<T>,
    order: spec_fn(T, T) -> Order,
)
    requires
        total_order(order),
        lex_order(a, b, order) == Order::Less,
        lex_order(b, c, order) == Order::Less,
    ensures
        lex_order(a, c, order) == Order::Less,
    decreases a.len(),
{
    if a.len() != 0 {
        assert(b.len() != 0 && c.len() != 0);
        let first = order(a[0], b[0]);
        let second = order(b[0], c[0]);
        if first == Order::Equal {
            assert(a[0] == b[0]);
            if second == Order::Equal {
                assert(b[0] == c[0]);
                assert(order(a[0], c[0]) == Order::Equal);
                lemma_lex_transitive(a.drop_first(), b.drop_first(), c.drop_first(), order);
            }
        } else if second == Order::Equal {
            assert(b[0] == c[0]);
        }
    }
}

/// The lexicographic order over a total order is a total order.
pub proof fn lemma_lex_total<T>(order: spec_fn(T, T) -> Order)
    requires
        total_order(order),
    ensures
        total_order(|a: Seq<T>, b: Seq<T>| lex_order(a, b, order)),
{
    let lex = |a: Seq<T>, b: Seq<T>| lex_order(a, b, order);
    assert forall|a: Seq<T>, b: Seq<T>| #[trigger] lex(a, b) == Order::Equal <==> a == b by {
        lemma_lex_equal(a, b, order);
    }
    assert forall|a: Seq<T>, b: Seq<T>| #[trigger] lex(a, b) == lex(b, a).flipped() by {
        lemma_lex_flip(a, b, order);
    }
    assert forall|a: Seq<T>, b: Seq<T>, c: Seq<T>|
        #[trigger] lex(a, b) == Order::Less && #[trigger] lex(b, c) == Order::Less implies lex(a, c)
        == Order::Less by {
        lemma_lex_transitive(a, b, c, order);
    }
}

/// Compares two numbers.
pub fn compare_numbers(a: u64, b: u64) -> (order: Order)
    ensures
        order == int_order(a as int, b as int),
{
    if a < b {
        Order::Less
    } else if a == b {
        Order::Equal
    } else {
        Order::Greater
    }
}

/// Compares two strings by code point.
pub fn compare_texts(a: &str, b: &str) -> (order: Order)
    ensures
        order == text_order(a@, b@),
{
    let left = chars_of(a);
    let right = chars_of(b);
    let mut i: usize = 0;
    proof {
        assert(a@.skip(0) =~= a@);
        assert(b@.skip(0) =~= b@);
    }
    while i < left.len() && i < right.len()
        invariant
            left@ == a@,
            right@ == b@,
            i <= left.len(),
            i <= right.len(),
            text_order(a@, b@) == text_order(a@.skip(i as int), b@.skip(i as int)),
        decreases left.len() - i,
    {
        proof {
            assert(a@.skip(i as int).drop_first() =~= a@.skip(i + 1));
            assert(b@.skip(i as int).drop_first() =~= b@.skip(i + 1));
        }
        if left[i] < right[i] {
            return Order::Less;
        }
        if right[i] < left[i] {
            return Order::Greater;
        }
        i += 1;
    }
    if i < right.len() {
        Order::Less
    } else if i < left.len() {
        Order::Greater
    } else {
        Order::Equal
    }
}

} // verus!
