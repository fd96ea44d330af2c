//! The order in which processors are visited when work is stolen: every one of
//! them once, from a start and with a stride that depend on a seed.

use vstd::prelude::*;

verus! {

pub const MAX_PS: usize = 256;

/// `d` divides `n`.
pub open spec fn divides(d: nat, n: nat) -> bool {
    exists|k: nat| #[trigger] (d * k) == n
}

/// No number but one divides both.
pub open spec fn coprime(a: nat, b: nat) -> bool {
    forall|d: nat| divides(d, a) && divides(d, b) ==> d == 1
}

/// Euclid's greatest common divisor.
pub open spec fn gcd_of(a: nat, b: nat) -> nat
    decreases b,
{
    if b == 0 {
        a
    } else {
        gcd_of(b, a % b)
    }
}

pub fn gcd(a0: u32, b0: u32) -> (r: u32)
    ensures
        r == gcd_of(a0 as nat, b0 as nat),
{
    let mut a: u32 = a0;
    let mut b: u32 = b0;
    while b != 0
        invariant
            gcd_of(a as nat, b as nat) == gcd_of(a0 as nat, b0 as nat),
        decreases b,
    {
        let t: u32 = a % b;
        a = b;
        b = t;
    }
    a
}

/// A combination of `a` and `b` that gives their greatest common divisor.
proof fn lemma_bezout(a: nat, b: nat) -> (r: (int, int))
    ensures
        r.0 * a + r.1 * b == gcd_of(a, b),
    decreases b,
{
    if b == 0 {
        assert(1 * (a as int) + 0 * (b as int) == a);
        (1, 0)
    } else {
        let (x, y) = lemma_bezout(b, a % b);
        let q = a / b;
        assert(a == b * q + a % b) by {
            vstd::arithmetic::div_mod::lemma_fundamental_div_mod(a as int, b as int);
        }
        // x * b + y * (a - b * q) == y * a + (x - y * q) * b
        assert(y * a + (x - y * q) * b == x * b + y * (a - b * q)) by (nonlinear_arith);
        assert(a - b * q == a % b);
        (y, x - y * q)
    }
}

pub struct RandomOrder {
    pub count: u32,
    /// The strides: all numbers from one to `count` that are coprime to it.
    pub coprimes: Vec<u32>,
}

/// The strides among the first `n` numbers.
pub open spec fn strides(count: nat, n: nat) -> Seq<u32>
    decreases n,
{
    if n == 0 {
        Seq::empty()
    } else if gcd_of(n, count) == 1 {
        strides(count, (n - 1) as nat).push(n as u32)
    } else {
        strides(count, (n - 1) as nat)
    }
}

/// `r` is the round that a seed starts.
pub open spec fn starts(o: RandomOrder, seed: u32, r: RandomEnum) -> bool {
    &&& r.i == 0
    &&& r.count == o.count
    &&& o.count > 0 ==> {
        &&& r.pos == seed % o.count
        &&& o.coprimes@.len() > 0
        &&& r.inc == o.coprimes@[(seed / o.count) as int % o.coprimes@.len() as int]
    }
    &&& o.count == 0 ==> r.pos == 0 && r.inc == 1
}

impl RandomOrder {
    pub open spec fn wf(&self) -> bool {
        &&& self.count <= MAX_PS
        &&& self.coprimes@ == strides(self.count as nat, self.count as nat)
    }

    /// An order over nothing.
    pub fn new() -> (r: Self)
        ensures
            r.wf(),
            r.count == 0,
    {
        let coprimes: Vec<u32> = Vec::new();
        assert(coprimes@ =~= strides(0, 0));
        RandomOrder { count: 0, coprimes }
    }

    /// Makes it an order over `count` processors, at most the limit.
    pub fn reset(&mut self, count: u32)
        ensures
            final(self).wf(),
            final(self).count == (if count <= MAX_PS {
                count
            } else {
                MAX_PS as u32
            }),
    {
        let n: u32 = if count as usize <= MAX_PS {
            count
        } else {
            MAX_PS as u32
        };
        let mut buf: Vec<u32> = Vec::new();
        let mut i: u32 = 1;
        assert(buf@ =~= strides(n as nat, 0));
        while i <= n
            invariant
                1 <= i <= n + 1,
                n <= MAX_PS,
                buf@ == strides(n as nat, (i - 1) as nat),
            decreases n + 1 - i,
        {
            if gcd(i, n) == 1 {
                buf.push(i);
            }
            i = i + 1;
        }
        self.coprimes = buf;
        self.count = n;
    }

    /// Starts a round: the seed picks the first processor and the stride.
    pub fn start(&self, seed: u32) -> (r: RandomEnum)
        requires
            self.wf(),
        ensures
            starts(*self, seed, r),
            r.wf(),
    {
        if self.count == 0 {
            return RandomEnum { i: 0, count: 0, pos: 0, inc: 1 };
        }
        proof {
            lemma_strides(self.count as nat, self.count as nat);
        }
        let pos: u32 = seed % self.count;
        let idx: usize = (seed / self.count) as usize % self.coprimes.len();
        let inc: u32 = self.coprimes[idx];
        proof {
            assert(gcd_of(inc as nat, self.count as nat) == 1);
        }
        RandomEnum { i: 0, count: self.count, pos, inc }
    }
}

/// Strides are within bounds and coprime, and one is always among them.
proof fn lemma_strides(count: nat, n: nat)
    requires
        n <= count <= MAX_PS,
    ensures
        n > 0 ==> strides(count, n).len() > 0,
        strides(count, n).len() <= n,
        forall|k: int|
            0 <= k < strides(count, n).len() ==> 0 < (#[trigger] strides(count, n)[k]) <= n
                && gcd_of(strides(count, n)[k] as nat, count) == 1,
    decreases n,
{
    if n > 0 {
        lemma_strides(count, (n - 1) as nat);
        if n == 1 {
            assert(gcd_of(1, count) == 1) by {
                reveal_with_fuel(gcd_of, 3);
                if count > 0 {
                    if count == 1 {
                        assert(1nat % 1nat == 0);
                    } else {
                        vstd::arithmetic::div_mod::lemma_small_mod(1, count);
                        assert(count % 1nat == 0);
                    }
                }
            }
        }
    }
}

/// The position after another: a stride further, around the end.
pub open spec fn next_pos(pos: int, inc: int, count: int) -> int {
    (pos + inc) % count
}

/// A round through the processors.
pub struct RandomEnum {
    pub i: u32,
    pub count: u32,
    pub pos: u32,
    pub inc: u32,
}

impl RandomEnum {
    pub open spec fn wf(&self) -> bool {
        &&& self.count <= MAX_PS
        &&& self.count > 0 ==> self.pos < self.count && 0 < self.inc <= self.count && gcd_of(
            self.inc as nat,
            self.count as nat,
        ) == 1
    }

    pub fn done(&self) -> (r: bool)
        ensures
            r == (self.i == self.count),
    {
        self.i == self.count
    }

    pub fn next(&mut self)
        requires
            old(self).wf(),
            old(self).count > 0,
            old(self).i < u32::MAX,
        ensures
            final(self).wf(),
            final(self).i == old(self).i + 1,
            final(self).count == old(self).count,
            final(self).inc == old(self).inc,
            final(self).pos == next_pos(
                old(self).pos as int,
                old(self).inc as int,
                old(self).count as int,
            ),
    {
        self.i = self.i + 1;
        self.pos = (self.pos + self.inc) % self.count;
    }

    pub fn position(&self) -> (r: u32)
        ensures
            r == self.pos,
    {
        self.pos
    }
}

/// The processor visited at step `i` of a round.
pub open spec fn visited(pos: int, inc: int, count: int, i: nat) -> int
    decreases i,
{
    if i == 0 {
        pos
    } else {
        next_pos(visited(pos, inc, count, (i - 1) as nat), inc, count)
    }
}

proof fn lemma_visited(pos: int, inc: int, count: int, i: nat)
    requires
        0 <= pos < count,
        0 <= inc,
    ensures
        visited(pos, inc, count, i) == (pos + inc * i) % count,
    decreases i,
{
    if i == 0 {
        assert(inc * 0 == 0) by (nonlinear_arith);
        vstd::arithmetic::div_mod::lemma_small_mod(pos as nat, count as nat);
    } else {
        let j = (i - 1) as nat;
        lemma_visited(pos, inc, count, j);
        vstd::arithmetic::div_mod::lemma_add_mod_noop(pos + inc * j, inc, count);
        vstd::arithmetic::div_mod::lemma_add_mod_noop((pos + inc * j) % count, inc, count);
        vstd::arithmetic::div_mod::lemma_mod_twice(pos + inc * j, count);
        assert(pos + inc * j + inc == pos + inc * i) by (nonlinear_arith)
            requires
                j == i - 1,
        ;
    }
}

/// In one round no processor is visited twice, so each of them is visited
/// exactly once.
pub proof fn law_round_visits_each_once(pos: int, inc: nat, count: nat, i: nat, j: nat)
    requires
        0 <= pos < count,
        gcd_of(inc, count) == 1,
        i < j < count,
    ensures
        0 <= visited(pos, inc as int, count as int, i) < count,
        visited(pos, inc as int, count as int, i) != visited(pos, inc as int, count as int, j),
{
    let n = count as int;
    let c = inc as int;
    lemma_visited(pos, c, n, i);
    lemma_visited(pos, c, n, j);
    vstd::arithmetic::div_mod::lemma_mod_bound(pos + c * i, n);
    if visited(pos, c, n, i) == visited(pos, c, n, j) {
        let a = pos + c * i;
        let b = pos + c * j;
        let qa = a / n;
        let qb = b / n;
        vstd::arithmetic::div_mod::lemma_fundamental_div_mod(a, n);
        vstd::arithmetic::div_mod::lemma_fundamental_div_mod(b, n);
        // n divides c * (j - i)
        let d = (j - i) as int;
        let q = qb - qa;
        assert(c * d == n * q) by (nonlinear_arith)
            requires
                a == pos + c * i,
                b == pos + c * j,
                a == n * qa + a % n,
                b == n * qb + b % n,
                a % n == b % n,
                d == j - i,
                q == qb - qa,
        ;
        let (x, y) = lemma_bezout(inc, count);
        // d == d * (x * c + y * n) == n * (x * q + y * d)
        assert(d == n * (x * q + y * d)) by (nonlinear_arith)
            requires
                x * c + y * n == 1,
                c * d == n * q,
        ;
        let k = x * q + y * d;
        assert(k > 0) by (nonlinear_arith)
            requires
                d == n * k,
                d > 0,
                n > 0,
        ;
        assert(n * k >= n) by (nonlinear_arith)
            requires
                k > 0,
                n > 0,
        ;
    }
}

// ---- laws ----

/// The greatest common divisor divides both numbers, and every number that
/// divides both divides it.
pub proof fn law_gcd_is_the_greatest(a: nat, b: nat, d: nat)
    ensures
        divides(gcd_of(a, b), a),
        divides(gcd_of(a, b), b),
        divides(d, a) && divides(d, b) ==> divides(d, gcd_of(a, b)),
    decreases b,
{
    let g = gcd_of(a, b);
    if b == 0 {
        assert(g * 1 == a);
        assert(g * 0 == b);
    } else {
        let m = a % b;
        let q = a / b;
        vstd::arithmetic::div_mod::lemma_fundamental_div_mod(a as int, b as int);
        law_gcd_is_the_greatest(b, m, d);
        let x = choose|k: nat| #[trigger] (g * k) == b;
        let y = choose|k: nat| #[trigger] (g * k) == m;
        assert(g * (x * q + y) == a) by (nonlinear_arith)
            requires
                g * x == b,
                g * y == m,
                a == b * q + m,
        ;
        if divides(d, a) && divides(d, b) {
            let u = choose|k: nat| #[trigger] (d * k) == a;
            let v = choose|k: nat| #[trigger] (d * k) == b;
            assert(d * (u - v * q) == m) by (nonlinear_arith)
                requires
                    d * u == a,
                    d * v == b,
                    a == b * q + m,
            ;
            if u - v * q >= 0 {
                let w = (u - v * q) as nat;
                assert(d * w == m);
            } else {
                assert(m == 0) by (nonlinear_arith)
                    requires
                        d * (u - v * q) == m,
                        u - v * q < 0,
                        m >= 0,
                        d >= 0,
                ;
                assert(d * 0 == m) by (nonlinear_arith)
                    requires
                        m == 0,
                ;
            }
        }
    }
}

/// Two numbers whose greatest common divisor is one have no other divisor in
/// common.
pub proof fn law_strides_are_coprime(a: nat, b: nat)
    ensures
        gcd_of(a, b) == 1 <==> coprime(a, b),
{
    if gcd_of(a, b) == 1 {
        assert forall|d: nat| divides(d, a) && divides(d, b) implies d == 1 by {
            law_gcd_is_the_greatest(a, b, d);
            let k = choose|k: nat| #[trigger] (d * k) == 1;
            assert(d == 1) by (nonlinear_arith)
                requires
                    d * k == 1,
            ;
        }
    }
    law_gcd_is_the_greatest(a, b, 1);
}

/// The strides are all numbers from one to the count that are coprime to it,
/// in order.
pub proof fn law_strides_are_all(count: nat, n: nat)
    requires
        n <= MAX_PS,
    ensures
        strides(count, n) == Seq::new(n, |i: int| (i + 1) as u32).filter(
            |x: u32| coprime(x as nat, count),
        ),
    decreases n,
{
    reveal(Seq::filter);
    let f = |x: u32| coprime(x as nat, count);
    let all = Seq::new(n, |i: int| (i + 1) as u32);
    if n > 0 {
        law_strides_are_all(count, (n - 1) as nat);
        law_strides_are_coprime(n, count);
        assert(all.drop_last() =~= Seq::new((n - 1) as nat, |i: int| (i + 1) as u32));
    } else {
        assert(all.filter(f) =~= Seq::empty());
    }
}

/// Every processor is the first for some seed, and with every stride.
pub proof fn law_seed_picks_start_and_stride(
    o: RandomOrder,
    first: u32,
    k: nat,
    seed: u32,
    r: RandomEnum,
)
    requires
        o.count > 0,
        first < o.count,
        k < o.coprimes@.len(),
        seed == k * o.count + first,
        starts(o, seed, r),
    ensures
        r.pos == first,
        r.inc == o.coprimes@[k as int],
        r.i == 0,
        r.count == o.count,
{
    vstd::arithmetic::div_mod::lemma_fundamental_div_mod_converse(
        seed as int,
        o.count as int,
        k as int,
        first as int,
    );
    vstd::arithmetic::div_mod::lemma_small_mod(k, o.coprimes@.len());
}

/// The processor that is visited at a step is that many strides from the first,
/// around the end.
pub proof fn law_steps_are_strides(pos: int, inc: int, count: int, i: nat)
    requires
        0 <= pos < count,
        0 <= inc,
    ensures
        visited(pos, inc, count, i) == (pos + inc * i) % count,
        visited(pos, inc, count, i + 1) == next_pos(visited(pos, inc, count, i), inc, count),
{
    lemma_visited(pos, inc, count, i);
}

} // verus!
