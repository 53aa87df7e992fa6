//! Last-writer-wins registers.
use vstd::prelude::*;

verus! {

/// A logical timestamp. Larger clocks win.
pub type Clock = u128;

/// A value that a register can hold. Its strict total order breaks ties
/// between writes that carry the same clock; it agrees with the order of the
/// values' big-endian encodings.
pub trait TieBreak: Sized + Copy {
    spec fn below(self, other: Self) -> bool;

    fn is_below(&self, other: &Self) -> (r: bool)
        ensures
            r == self.below(*other),
    ;

    proof fn lemma_strict_total_order(a: Self, b: Self, c: Self)
        ensures
            !a.below(a),
            a.below(b) && b.below(c) ==> a.below(c),
            a.below(b) || b.below(a) || a == b,
    ;
}

impl TieBreak for u64 {
    open spec fn below(self, other: u64) -> bool {
        self < other
    }

    fn is_below(&self, other: &u64) -> (r: bool) {
        *self < *other
    }

    proof fn lemma_strict_total_order(a: u64, b: u64, c: u64) {
    }
}

/// An edge's value: source node, label, destination node.
#[derive(Clone, Copy, Debug, PartialEq, Eq)]
pub struct EdgeValue {
    pub src: u128,
    pub label: u64,
    pub dst: u128,
}

impl EdgeValue {
    pub fn new(src: u128, label: u64, dst: u128) -> (r: Self)
        ensures
            r == (EdgeValue { src, label, dst }),
    {
        EdgeValue { src, label, dst }
    }
}

impl TieBreak for EdgeValue {
    open spec fn below(self, other: EdgeValue) -> bool {
        self.src < other.src || (self.src == other.src && (self.label < other.label || (
        self.label == other.label && self.dst < other.dst)))
    }

    fn is_below(&self, other: &EdgeValue) -> (r: bool) {
        self.src < other.src || (self.src == other.src && (self.label < other.label || (
        self.label == other.label && self.dst < other.dst)))
    }

    proof fn lemma_strict_total_order(a: EdgeValue, b: EdgeValue, c: EdgeValue) {
    }
}

/// `None` sorts before every `Some`; two `Some`s compare by their values.
pub open spec fn option_below<V: TieBreak>(a: Option<V>, b: Option<V>) -> bool {
    match (a, b) {
        (None, Some(_)) => true,
        (Some(x), Some(y)) => x.below(y),
        _ => false,
    }
}

/// A last-writer-wins register: a clock and an optional value.
#[derive(Clone, Copy, Debug, PartialEq, Eq)]
pub struct Register<V> {
    pub clock: Clock,
    pub value: Option<V>,
}

/// The join of two registers: the greater clock wins; on equal clocks the
/// greater value wins.
pub open spec fn join_spec<V: TieBreak>(a: Register<V>, b: Register<V>) -> Register<V> {
    if a.clock < b.clock {
        b
    } else if b.clock < a.clock {
        a
    } else if option_below(a.value, b.value) {
        b
    } else {
        a
    }
}

/// `a` is at or below `b` in the order of registers.
pub open spec fn preorder_spec<V: TieBreak>(a: Register<V>, b: Register<V>) -> bool {
    a.clock < b.clock || (a.clock == b.clock && (a.value == b.value || option_below(
        a.value,
        b.value,
    )))
}

pub proof fn lemma_option_order<V: TieBreak>(a: Option<V>, b: Option<V>, c: Option<V>)
    ensures
        !option_below(a, a),
        option_below(a, b) && option_below(b, c) ==> option_below(a, c),
        option_below(a, b) || option_below(b, a) || a == b,
{
    if a is Some && b is Some && c is Some {
        V::lemma_strict_total_order(a->0, b->0, c->0);
    } else if a is Some && b is Some {
        V::lemma_strict_total_order(a->0, b->0, a->0);
    } else if a is Some {
        V::lemma_strict_total_order(a->0, a->0, a->0);
    }
}

impl<V: TieBreak> Register<V> {
    /// The register that no write has reached: clock zero, no value.
    pub fn new() -> (r: Self)
        ensures
            r.clock == 0,
            r.value is None,
    {
        Register { clock: 0, value: None }
    }

    /// A register holding `value` written at `clock`.
    pub fn from(clock: Clock, value: Option<V>) -> (r: Self)
        ensures
            r.clock == clock,
            r.value == value,
    {
        Register { clock, value }
    }

    pub fn clock(&self) -> (r: Clock)
        ensures
            r == self.clock,
    {
        self.clock
    }

    pub fn value(&self) -> (r: Option<V>)
        ensures
            r == self.value,
    {
        self.value
    }

    fn value_below(a: &Option<V>, b: &Option<V>) -> (r: bool)
        ensures
            r == option_below(*a, *b),
    {
        match (a, b) {
            (None, Some(_)) => true,
            (Some(x), Some(y)) => x.is_below(y),
            _ => false,
        }
    }

    /// Merges two registers.
    pub fn join(&self, other: &Self) -> (r: Self)
        ensures
            r == join_spec(*self, *other),
    {
        if self.clock < other.clock {
            *other
        } else if other.clock < self.clock {
            *self
        } else if Self::value_below(&self.value, &other.value) {
            *other
        } else {
            *self
        }
    }

    /// Whether `self` is at or below `other`.
    pub fn preorder(&self, other: &Self) -> (r: bool)
        ensures
            r == preorder_spec(*self, *other),
    {
        if self.clock < other.clock {
            true
        } else if self.clock == other.clock {
            Self::values_equal(&self.value, &other.value) || Self::value_below(
                &self.value,
                &other.value,
            )
        } else {
            false
        }
    }

    fn values_equal(a: &Option<V>, b: &Option<V>) -> (r: bool)
        ensures
            r == (*a == *b),
    {
        match (a, b) {
            (None, None) => true,
            (Some(x), Some(y)) => {
                let below = x.is_below(y) || y.is_below(x);
                proof {
                    V::lemma_strict_total_order(*x, *y, *x);
                }
                !below
            },
            _ => false,
        }
    }
}

/// Join is associative.
pub proof fn lemma_join_associative<V: TieBreak>(a: Register<V>, b: Register<V>, c: Register<V>)
    ensures
        join_spec(a, join_spec(b, c)) == join_spec(join_spec(a, b), c),
{
    lemma_option_order(a.value, b.value, c.value);
    lemma_option_order(b.value, c.value, a.value);
    lemma_option_order(c.value, a.value, b.value);
    lemma_option_order(a.value, c.value, b.value);
}

/// Join is commutative.
pub proof fn lemma_join_commutative<V: TieBreak>(a: Register<V>, b: Register<V>)
    ensures
        join_spec(a, b) == join_spec(b, a),
{
    lemma_option_order(a.value, b.value, a.value);
}

/// Join is idempotent.
pub proof fn lemma_join_idempotent<V: TieBreak>(a: Register<V>)
    ensures
        join_spec(a, a) == a,
{
    lemma_option_order(a.value, a.value, a.value);
}

/// `a` is at or below `b` exactly when joining `a` into `b` leaves `b`.
pub proof fn lemma_preorder_iff_join<V: TieBreak>(a: Register<V>, b: Register<V>)
    ensures
        preorder_spec(a, b) <==> join_spec(a, b) == b,
{
    lemma_option_order(a.value, b.value, a.value);
}

} // verus!
