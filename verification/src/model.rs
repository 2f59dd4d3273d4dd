//! The mathematical model of a curve, over which the contracts of the group
//! operations are stated, and the laws of the group proved from it.
//!
//! Every curve that this crate serves has prime order, so its group is
//! cyclic: each point is a multiple `k * G` of one of its points `G`, with
//! `0 <= k < order`. The model calls `k` the index of the point. Adding
//! points adds their indices modulo the order. The model also records how
//! the group shows in the coordinates: the inverse of a point has the same X
//! and the negated Y.

use crate::point::{PointView, FIELD_LIMBS, POINT_LIMBS};
use vstd::arithmetic::div_mod::{
    lemma_add_mod_noop, lemma_mod_bound, lemma_mod_self_0, lemma_mul_mod_noop_left,
    lemma_small_mod,
};
use vstd::arithmetic::mul::lemma_mul_is_distributive_add_other_way;
use vstd::prelude::*;

verus! {

/// The words of X in the sixteen words of a point.
pub open spec fn x_of(limbs: Seq<u32>) -> Seq<u32> {
    limbs.subrange(0, FIELD_LIMBS as int)
}

/// The words of Y in the sixteen words of a point.
pub open spec fn y_of(limbs: Seq<u32>) -> Seq<u32> {
    limbs.subrange(FIELD_LIMBS as int, POINT_LIMBS as int)
}

/// Whether a coordinate is odd.
pub open spec fn is_odd(y: Seq<u32>) -> bool {
    y[0] % 2 == 1
}

/// A curve as the contracts see it.
pub struct CurveModel {
    /// The order of the group.
    pub order: int,
    /// The index of the point that sixteen words encode.
    pub index: spec_fn(Seq<u32>) -> int,
    /// The sixteen words of the point with a given index.
    pub encode: spec_fn(int) -> Seq<u32>,
    /// The words of `-y` for the words of a coordinate `y`.
    pub negated: spec_fn(Seq<u32>) -> Seq<u32>,
    /// The Y that the field layer recovers for an X, if there is one.
    pub lifted: spec_fn(Seq<u32>) -> Option<Seq<u32>>,
}

impl CurveModel {
    /// The index of the point that `limbs` encode.
    pub open spec fn index_of(self, limbs: Seq<u32>) -> int {
        (self.index)(limbs)
    }

    /// The words of the point with index `k`.
    pub open spec fn limbs_of(self, k: int) -> Seq<u32> {
        (self.encode)(k)
    }

    /// The words of `-y`.
    pub open spec fn neg_y(self, y: Seq<u32>) -> Seq<u32> {
        (self.negated)(y)
    }

    /// The Y recovered for `x`.
    pub open spec fn lift_x(self, x: Seq<u32>) -> Option<Seq<u32>> {
        (self.lifted)(x)
    }

    /// Whether sixteen words encode a point of the curve other than the
    /// identity: they are the encoding of an index below the order.
    pub open spec fn on_curve(self, limbs: Seq<u32>) -> bool {
        &&& 1 <= self.index_of(limbs) < self.order
        &&& self.limbs_of(self.index_of(limbs)) == limbs
    }

    /// Whether a point is an element of the group: the identity, or a
    /// point of the curve.
    pub open spec fn valid(self, p: PointView) -> bool {
        match p {
            PointView::Infinity => true,
            PointView::Affine(limbs) => self.on_curve(limbs),
        }
    }

    /// The index of a point, the identity having index 0.
    pub open spec fn value(self, p: PointView) -> int {
        match p {
            PointView::Infinity => 0,
            PointView::Affine(limbs) => self.index_of(limbs),
        }
    }

    /// The point with index `k`.
    pub open spec fn point(self, k: int) -> PointView {
        if k == 0 {
            PointView::Infinity
        } else {
            PointView::Affine(self.limbs_of(k))
        }
    }

    /// What a model must satisfy to be the model of a curve of odd order:
    /// the order is odd; each index from 1 up to the order has an encoding of
    /// sixteen words, of which it is the index; two points of the curve with
    /// the same X are equal or inverses of each other; the inverse of a
    /// point has the same X and the negated Y, which differs from Y in
    /// parity; and a Y is recovered for an X exactly where the curve has a
    /// point with that X, of which it is then the Y.
    pub open spec fn well_formed(self) -> bool {
        &&& self.order >= 3
        &&& self.order % 2 == 1
        &&& forall|k: int|
            1 <= k < self.order ==> {
                &&& (#[trigger] self.limbs_of(k)).len() == POINT_LIMBS
                &&& self.index_of(self.limbs_of(k)) == k
            }
        &&& forall|a: Seq<u32>, b: Seq<u32>|
            #![trigger self.on_curve(a), self.on_curve(b)]
            self.on_curve(a) && self.on_curve(b) && x_of(a) == x_of(b) ==> {
                ||| self.index_of(a) == self.index_of(b)
                ||| self.index_of(a) + self.index_of(b) == self.order
            }
        &&& forall|a: Seq<u32>| #[trigger]
            self.on_curve(a) ==> {
                &&& self.limbs_of(self.order - self.index_of(a)) == x_of(a) + self.neg_y(y_of(a))
                &&& is_odd(self.neg_y(y_of(a))) != is_odd(y_of(a))
            }
        &&& forall|x: Seq<u32>|
            x.len() == FIELD_LIMBS ==> match #[trigger] self.lift_x(x) {
                Some(y) => y.len() == FIELD_LIMBS && self.on_curve(x + y),
                None => forall|a: Seq<u32>| #[trigger] self.on_curve(a) ==> x_of(a) != x,
            }
    }

    /// What the accelerated addition writes for two points of the curve
    /// that are neither equal nor inverses of each other.
    pub open spec fn accel_add(self, a: Seq<u32>, b: Seq<u32>) -> Seq<u32> {
        self.limbs_of((self.index_of(a) + self.index_of(b)) % self.order)
    }

    /// What the accelerated doubling writes for a point of the curve.
    pub open spec fn accel_double(self, a: Seq<u32>) -> Seq<u32> {
        self.limbs_of((2 * self.index_of(a)) % self.order)
    }

    /// The sum of two points, by cases: a sum with the identity is the
    /// other point; a point added to itself is doubled; two points with
    /// the same X and different Y cancel; any other two are added by the
    /// accelerated addition.
    pub open spec fn complete_add(self, p: PointView, q: PointView) -> PointView {
        match (p, q) {
            (_, PointView::Infinity) => p,
            (PointView::Infinity, _) => q,
            (PointView::Affine(a), PointView::Affine(b)) => if a == b {
                PointView::Affine(self.accel_double(a))
            } else if x_of(a) == x_of(b) {
                PointView::Infinity
            } else {
                PointView::Affine(self.accel_add(a, b))
            },
        }
    }

    /// Twice a point: the identity stays, any other point is doubled by
    /// the accelerated doubling.
    pub open spec fn double(self, p: PointView) -> PointView {
        match p {
            PointView::Infinity => PointView::Infinity,
            PointView::Affine(a) => PointView::Affine(self.accel_double(a)),
        }
    }

    /// The inverse of a point: the identity stays, any other point keeps
    /// its X and has its Y negated.
    pub open spec fn negate(self, p: PointView) -> PointView {
        match p {
            PointView::Infinity => PointView::Infinity,
            PointView::Affine(a) => PointView::from_coordinates(x_of(a), self.neg_y(y_of(a))),
        }
    }

    /// `k` times a point: the point added to itself `k` times, starting
    /// from the identity.
    pub open spec fn scalar_mul(self, p: PointView, k: nat) -> PointView
        decreases k,
    {
        if k == 0 {
            PointView::Infinity
        } else {
            self.complete_add(self.scalar_mul(p, (k - 1) as nat), p)
        }
    }

    /// `a * p + b * q`.
    pub open spec fn linear_combination(
        self,
        p: PointView,
        a: nat,
        q: PointView,
        b: nat,
    ) -> PointView {
        self.complete_add(self.scalar_mul(p, a), self.scalar_mul(q, b))
    }

    /// The point with a given X whose Y has the given parity, if the curve
    /// has a point with that X.
    pub open spec fn decompress(self, x: Seq<u32>, y_is_odd: bool) -> Option<PointView> {
        match self.lift_x(x) {
            None => None,
            Some(y) => if is_odd(y) == y_is_odd {
                Some(PointView::from_coordinates(x, y))
            } else {
                Some(PointView::from_coordinates(x, self.neg_y(y)))
            },
        }
    }

    /// What two points must satisfy to be added: where one of them is the
    /// identity, nothing; otherwise both are points of the curve, and the
    /// model is well formed.
    pub open spec fn can_add(self, p: PointView, q: PointView) -> bool {
        p is Affine && q is Affine ==> self.well_formed() && self.valid(p) && self.valid(q)
    }

    /// What a point must satisfy to be multiplied by `k`: where it is the
    /// identity or `k` is zero, nothing; otherwise it is a point of the
    /// curve, and the model is well formed.
    pub open spec fn can_multiply(self, p: PointView, k: nat) -> bool {
        p is Affine && k != 0 ==> self.well_formed() && self.valid(p)
    }

    /// The encoding of an index below the order is a point of the curve
    /// with that index.
    pub proof fn lemma_limbs_of(self, k: int)
        requires
            self.well_formed(),
            1 <= k < self.order,
        ensures
            self.limbs_of(k).len() == POINT_LIMBS,
            self.index_of(self.limbs_of(k)) == k,
            self.on_curve(self.limbs_of(k)),
    {
    }

    /// A point of the curve has sixteen words.
    pub proof fn lemma_on_curve_len(self, a: Seq<u32>)
        requires
            self.well_formed(),
            self.on_curve(a),
        ensures
            a.len() == POINT_LIMBS,
            x_of(a).len() == FIELD_LIMBS,
            y_of(a).len() == FIELD_LIMBS,
            a == x_of(a) + y_of(a),
    {
        self.lemma_limbs_of(self.index_of(a));
        assert(a =~= x_of(a) + y_of(a));
    }

    /// The point with an index below the order is an element of the group
    /// with that index.
    pub proof fn lemma_point(self, k: int)
        requires
            self.well_formed(),
            0 <= k < self.order,
        ensures
            self.valid(self.point(k)),
            self.value(self.point(k)) == k,
    {
        if k != 0 {
            self.lemma_limbs_of(k);
        }
    }

    /// An element of the group is the point with its index: the index
    /// tells the elements apart.
    pub proof fn lemma_value(self, p: PointView)
        requires
            self.well_formed(),
            self.valid(p),
        ensures
            0 <= self.value(p) < self.order,
            self.point(self.value(p)) == p,
            (self.value(p) == 0) == (p is Infinity),
    {
    }

    /// Two points of the curve with the same X are equal or have indices
    /// that add up to the order.
    pub proof fn lemma_same_x(self, a: Seq<u32>, b: Seq<u32>)
        requires
            self.well_formed(),
            self.on_curve(a),
            self.on_curve(b),
            x_of(a) == x_of(b),
        ensures
            a == b || self.index_of(a) + self.index_of(b) == self.order,
    {
    }

    /// The inverse of a point of the curve is a point of the curve, other
    /// than the point itself, with the same X, the negated Y and a Y of
    /// the other parity.
    pub proof fn lemma_negated(self, a: Seq<u32>)
        requires
            self.well_formed(),
            self.on_curve(a),
        ensures
            self.limbs_of(self.order - self.index_of(a)) == x_of(a) + self.neg_y(y_of(a)),
            self.on_curve(x_of(a) + self.neg_y(y_of(a))),
            self.index_of(x_of(a) + self.neg_y(y_of(a))) == self.order - self.index_of(a),
            x_of(x_of(a) + self.neg_y(y_of(a))) == x_of(a),
            y_of(x_of(a) + self.neg_y(y_of(a))) == self.neg_y(y_of(a)),
            self.neg_y(y_of(a)).len() == FIELD_LIMBS,
            is_odd(self.neg_y(y_of(a))) != is_odd(y_of(a)),
            x_of(a) + self.neg_y(y_of(a)) != a,
    {
        let k = self.order - self.index_of(a);
        let b = x_of(a) + self.neg_y(y_of(a));
        self.lemma_limbs_of(k);
        self.lemma_on_curve_len(a);
        assert(b.len() == POINT_LIMBS);
        assert(x_of(b) =~= x_of(a));
        assert(y_of(b) =~= self.neg_y(y_of(a)));
        if b == a {
            assert(2 * self.index_of(a) == self.order);
        }
    }

    /// Two different points of the curve with the same X are inverses of
    /// each other: the second has the negated Y of the first.
    pub proof fn lemma_same_x_negated(self, a: Seq<u32>, b: Seq<u32>)
        requires
            self.well_formed(),
            self.on_curve(a),
            self.on_curve(b),
            x_of(a) == x_of(b),
            a != b,
        ensures
            PointView::Affine(b) == self.negate(PointView::Affine(a)),
            y_of(b) == self.neg_y(y_of(a)),
    {
        self.lemma_same_x(a, b);
        self.lemma_negated(a);
        self.lemma_limbs_of(self.index_of(b));
    }

    /// The sum of two elements of the group is the element whose index is
    /// the sum of their indices modulo the order.
    pub proof fn lemma_complete_add(self, p: PointView, q: PointView)
        requires
            self.well_formed(),
            self.valid(p),
            self.valid(q),
        ensures
            self.complete_add(p, q) == self.point((self.value(p) + self.value(q)) % self.order),
            self.valid(self.complete_add(p, q)),
            self.value(self.complete_add(p, q)) == (self.value(p) + self.value(q)) % self.order,
    {
        let n = self.order;
        let i = self.value(p);
        let j = self.value(q);
        self.lemma_value(p);
        self.lemma_value(q);
        lemma_mod_bound(i + j, n);
        self.lemma_point((i + j) % n);
        match (p, q) {
            (_, PointView::Infinity) => {
                lemma_small_mod(i as nat, n as nat);
            },
            (PointView::Infinity, _) => {
                lemma_small_mod(j as nat, n as nat);
            },
            (PointView::Affine(a), PointView::Affine(b)) => {
                lemma_sum_mod(i, j, n);
                if a == b {
                } else if x_of(a) == x_of(b) {
                    self.lemma_same_x(a, b);
                } else {
                    if i + j == n {
                        self.lemma_negated(a);
                        assert(false);
                    }
                }
            },
        }
    }

    /// Twice an element of the group is the element whose index is twice
    /// its index modulo the order; only the identity doubles to the
    /// identity.
    pub proof fn lemma_double(self, p: PointView)
        requires
            self.well_formed(),
            self.valid(p),
        ensures
            self.double(p) == self.point((2 * self.value(p)) % self.order),
            self.valid(self.double(p)),
            self.value(self.double(p)) == (2 * self.value(p)) % self.order,
            (self.double(p) is Infinity) == (p is Infinity),
    {
        let n = self.order;
        let i = self.value(p);
        self.lemma_value(p);
        lemma_mod_bound(2 * i, n);
        self.lemma_point((2 * i) % n);
        lemma_sum_mod(i, i, n);
    }

    /// The inverse of an element of the group is the element whose index
    /// is the order less its index, modulo the order.
    pub proof fn lemma_negate(self, p: PointView)
        requires
            self.well_formed(),
            self.valid(p),
        ensures
            self.negate(p) == self.point((self.order - self.value(p)) % self.order),
            self.valid(self.negate(p)),
            self.value(self.negate(p)) == (self.order - self.value(p)) % self.order,
    {
        let n = self.order;
        match p {
            PointView::Infinity => {
                lemma_mod_self_0(n);
            },
            PointView::Affine(a) => {
                self.lemma_negated(a);
                lemma_small_mod((n - self.index_of(a)) as nat, n as nat);
            },
        }
    }

    /// `k` times an element of the group is the element whose index is `k`
    /// times its index modulo the order.
    pub proof fn lemma_scalar_mul(self, p: PointView, k: nat)
        requires
            self.well_formed(),
            self.valid(p),
        ensures
            self.scalar_mul(p, k) == self.point((k * self.value(p)) % self.order),
            self.valid(self.scalar_mul(p, k)),
            self.value(self.scalar_mul(p, k)) == (k * self.value(p)) % self.order,
        decreases k,
    {
        let n = self.order;
        let i = self.value(p);
        self.lemma_value(p);
        lemma_mod_bound(k * i, n);
        self.lemma_point((k * i) % n);
        if k == 0 {
            assert(k * i == 0) by (nonlinear_arith)
                requires
                    k == 0,
            ;
            lemma_small_mod(0, n as nat);
        } else {
            let prev = self.scalar_mul(p, (k - 1) as nat);
            self.lemma_scalar_mul(p, (k - 1) as nat);
            self.lemma_complete_add(prev, p);
            lemma_small_mod(i as nat, n as nat);
            lemma_add_mod_noop((k - 1) * i, i, n);
            assert((k - 1) * i + i == k * i) by (nonlinear_arith);
        }
    }

    /// Any multiple of the identity is the identity.
    pub proof fn lemma_scalar_mul_identity(self, k: nat)
        ensures
            self.scalar_mul(PointView::Infinity, k) == PointView::Infinity,
        decreases k,
    {
        if k > 0 {
            self.lemma_scalar_mul_identity((k - 1) as nat);
        }
    }

    /// Identity law: the identity added to a point, on either side, gives
    /// the point.
    pub proof fn lemma_add_identity(self, p: PointView)
        ensures
            self.complete_add(p, PointView::Infinity) == p,
            self.complete_add(PointView::Infinity, p) == p,
    {
    }

    /// Doubling law: a point added to itself is the point doubled.
    pub proof fn lemma_add_self(self, p: PointView)
        ensures
            self.complete_add(p, p) == self.double(p),
    {
    }

    /// Inverse law: a point of the group and its inverse add up to the
    /// identity.
    pub proof fn lemma_add_inverse(self, p: PointView)
        requires
            self.well_formed(),
            self.valid(p),
        ensures
            self.complete_add(p, self.negate(p)) == PointView::Infinity,
    {
        if let PointView::Affine(a) = p {
            self.lemma_negated(a);
        }
    }

    /// Commutativity: the sum of two elements of the group does not depend
    /// on their order.
    pub proof fn lemma_add_commutative(self, p: PointView, q: PointView)
        requires
            self.well_formed(),
            self.valid(p),
            self.valid(q),
        ensures
            self.complete_add(p, q) == self.complete_add(q, p),
    {
        self.lemma_complete_add(p, q);
        self.lemma_complete_add(q, p);
    }

    /// Associativity: the sum of three elements of the group does not
    /// depend on which two are added first.
    pub proof fn lemma_add_associative(self, p: PointView, q: PointView, r: PointView)
        requires
            self.well_formed(),
            self.valid(p),
            self.valid(q),
            self.valid(r),
        ensures
            self.complete_add(self.complete_add(p, q), r) == self.complete_add(
                p,
                self.complete_add(q, r),
            ),
    {
        let n = self.order;
        let i = self.value(p);
        let j = self.value(q);
        let k = self.value(r);
        self.lemma_value(p);
        self.lemma_value(r);
        self.lemma_complete_add(p, q);
        self.lemma_complete_add(q, r);
        self.lemma_complete_add(self.complete_add(p, q), r);
        self.lemma_complete_add(p, self.complete_add(q, r));
        lemma_small_mod(i as nat, n as nat);
        lemma_small_mod(k as nat, n as nat);
        lemma_add_mod_noop(i + j, k, n);
        lemma_add_mod_noop(i, j + k, n);
    }

    /// Scalar multiplication is a homomorphism: where `c` is `a + b`
    /// modulo the order, `c` times a point is the sum of `a` times and
    /// `b` times the point.
    pub proof fn lemma_scalar_mul_adds(self, p: PointView, a: nat, b: nat, c: nat)
        requires
            self.well_formed(),
            self.valid(p),
            c % (self.order as nat) == (a + b) % (self.order as nat),
        ensures
            self.scalar_mul(p, c) == self.complete_add(self.scalar_mul(p, a), self.scalar_mul(p, b)),
    {
        let n = self.order;
        let i = self.value(p);
        self.lemma_scalar_mul(p, a);
        self.lemma_scalar_mul(p, b);
        self.lemma_scalar_mul(p, c);
        self.lemma_complete_add(self.scalar_mul(p, a), self.scalar_mul(p, b));
        lemma_add_mod_noop(a * i, b * i, n);
        lemma_mul_is_distributive_add_other_way(i, a as int, b as int);
        lemma_mul_mod_noop_left(c as int, i, n);
        lemma_mul_mod_noop_left((a + b) as int, i, n);
    }

    /// The order times an element of the group is the identity.
    pub proof fn lemma_scalar_mul_order(self, p: PointView)
        requires
            self.well_formed(),
            self.valid(p),
        ensures
            self.scalar_mul(p, self.order as nat) == PointView::Infinity,
    {
        let n = self.order;
        let i = self.value(p);
        self.lemma_scalar_mul(p, n as nat);
        lemma_mul_mod_noop_left(n, i, n);
        lemma_mod_self_0(n);
        assert(0 * i == 0);
        lemma_small_mod(0, n as nat);
    }

    /// Round trip: a point of the curve is what its X and the parity of
    /// its Y decompress to.
    pub proof fn lemma_decompress_own_x(self, a: Seq<u32>)
        requires
            self.well_formed(),
            self.on_curve(a),
        ensures
            self.decompress(x_of(a), is_odd(y_of(a))) == Some(PointView::Affine(a)),
    {
        let x = x_of(a);
        self.lemma_on_curve_len(a);
        match self.lift_x(x) {
            None => {
                assert(false);
            },
            Some(y) => {
                let b = x + y;
                assert(x_of(b) =~= x);
                assert(y_of(b) =~= y);
                self.lemma_same_x(a, b);
                if a == b {
                } else {
                    self.lemma_negated(b);
                    self.lemma_limbs_of(self.index_of(a));
                }
            },
        }
    }

    /// What an X decompresses to is a point of the curve with that X and
    /// a Y of the wanted parity, and the only such point; nothing comes
    /// out only where the curve has no point with that X.
    pub proof fn lemma_decompress(self, x: Seq<u32>, y_is_odd: bool)
        requires
            self.well_formed(),
            x.len() == FIELD_LIMBS,
        ensures
            match self.decompress(x, y_is_odd) {
                Some(p) => {
                    &&& p matches PointView::Affine(a)
                    &&& self.on_curve(a)
                    &&& x_of(a) == x
                    &&& is_odd(y_of(a)) == y_is_odd
                    &&& forall|b: Seq<u32>|
                        self.on_curve(b) && x_of(b) == x && is_odd(y_of(b)) == y_is_odd ==> b == a
                },
                None => forall|b: Seq<u32>| self.on_curve(b) ==> x_of(b) != x,
            },
    {
        match self.lift_x(x) {
            None => {},
            Some(y) => {
                let c = x + y;
                assert(x_of(c) =~= x);
                assert(y_of(c) =~= y);
                self.lemma_negated(c);
                let a = self.decompress(x, y_is_odd)->Some_0->Affine_0;
                assert forall|b: Seq<u32>|
                    self.on_curve(b) && x_of(b) == x && is_odd(y_of(b)) == y_is_odd implies b
                    == a by {
                    self.lemma_decompress_own_x(b);
                }
            },
        }
    }
}

/// The sum of two numbers below `n`, reduced modulo `n`.
proof fn lemma_sum_mod(i: int, j: int, n: int)
    requires
        0 <= i < n,
        0 <= j < n,
    ensures
        (i + j) % n == if i + j < n {
            i + j
        } else {
            i + j - n
        },
{
    if i + j < n {
        lemma_small_mod((i + j) as nat, n as nat);
    } else {
        lemma_small_mod((i + j - n) as nat, n as nat);
        lemma_add_mod_noop(i + j - n, n, n);
        lemma_mod_self_0(n);
    }
}

} // verus!
