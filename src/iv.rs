use vstd::prelude::*;

verus! {

/// Number of bytes of the counter.
pub const IV_LEN: usize = 16;

/// Index of the byte whose saturation asks for a new session key.
pub const REKEY_BYTE: usize = 8;

/// 256 to the power `n`.
pub open spec fn pow256(n: nat) -> nat
    decreases n,
{
    if n == 0 {
        1
    } else {
        256 * pow256((n - 1) as nat)
    }
}

/// The number of distinct counter values, 2^128.
pub open spec fn iv_modulus() -> nat {
    pow256(IV_LEN as nat)
}

/// The counter read as an unsigned integer, least significant byte first.
pub open spec fn le_value(s: Seq<u8>) -> nat
    decreases s.len(),
{
    if s.len() == 0 {
        0
    } else {
        s[0] as nat + 256 * le_value(s.drop_first())
    }
}

/// Adding one with carry, where the carry has reached index `i`: a byte
/// below 0xFF takes the carry, a byte at 0xFF becomes 0 and passes it on,
/// and a carry out of the last byte is dropped.
pub open spec fn bump_from(s: Seq<u8>, i: int) -> Seq<u8>
    decreases s.len() - i,
{
    if i < 0 || i >= s.len() {
        s
    } else if s[i] < 255 {
        s.update(i, (s[i] + 1) as u8)
    } else {
        bump_from(s.update(i, 0u8), i + 1)
    }
}

/// One step of the counter: the counter plus one, modulo 2^128.
pub open spec fn iv_next(s: Seq<u8>) -> Seq<u8> {
    bump_from(s, 0)
}

/// The all-zero counter.
pub open spec fn iv_zero() -> Seq<u8> {
    Seq::new(IV_LEN as nat, |j: int| 0u8)
}

/// Whether the counter asks for a new session key.
pub open spec fn iv_wants_rekey(s: Seq<u8>) -> bool {
    s[REKEY_BYTE as int] == 255
}

/// Every byte of `s` from index `i` on is 0xFF.
pub open spec fn saturated_from(s: Seq<u8>, i: int) -> bool {
    forall|j: int| i <= j < s.len() ==> s[j] == 255
}

proof fn lemma_pow256_positive(n: nat)
    ensures
        pow256(n) >= 1,
    decreases n,
{
    if n > 0 {
        lemma_pow256_positive((n - 1) as nat);
    }
}

proof fn lemma_le_value_bound(s: Seq<u8>)
    ensures
        le_value(s) < pow256(s.len()),
    decreases s.len(),
{
    if s.len() > 0 {
        let rest = s.drop_first();
        lemma_le_value_bound(rest);
        let a = s[0] as int;
        let r = le_value(rest) as int;
        let p = pow256(rest.len()) as int;
        assert(a + 256 * r < 256 * p) by (nonlinear_arith)
            requires
                0 <= a <= 255,
                0 <= r < p,
        ;
    }
}

proof fn lemma_le_value_update(s: Seq<u8>, j: int, v: u8)
    requires
        0 <= j < s.len(),
    ensures
        le_value(s.update(j, v)) == le_value(s) + (v - s[j]) * pow256(j as nat),
    decreases j,
{
    let t = s.update(j, v);
    if j == 0 {
        assert(t.drop_first() =~= s.drop_first());
        assert(pow256(0) == 1);
        assert(t[0] == v);
        assert(le_value(t) == v + 256 * le_value(s.drop_first()));
        assert(le_value(s) == s[0] + 256 * le_value(s.drop_first()));
        assert((v - s[0]) * 1 == v - s[0]);
    } else {
        let rest = s.drop_first();
        assert(t.drop_first() =~= rest.update(j - 1, v));
        lemma_le_value_update(rest, j - 1, v);
        assert(t[0] == s[0]);
        assert(rest[j - 1] == s[j]);
        let d = (v - s[j]) as int;
        let p = pow256((j - 1) as nat) as int;
        assert(pow256(j as nat) == 256 * p);
        let r = le_value(rest) as int;
        assert(256 * (r + d * p) == 256 * r + d * (256 * p)) by (nonlinear_arith);
        assert(le_value(t) == s[0] + 256 * le_value(t.drop_first()));
        assert(le_value(t.drop_first()) == r + d * p);
        assert(le_value(s) == s[0] + 256 * r);
        assert(le_value(t) == le_value(s) + d * (256 * p));
    }
}

proof fn lemma_bump_adds(s: Seq<u8>, i: int)
    requires
        0 <= i <= s.len(),
        forall|j: int| 0 <= j < i ==> s[j] == 0,
    ensures
        bump_from(s, i).len() == s.len(),
        le_value(bump_from(s, i)) == (le_value(s) + pow256(i as nat)) as int % (pow256(s.len()) as int),
    decreases s.len() - i,
{
    let m = pow256(s.len()) as int;
    lemma_le_value_bound(s);
    lemma_pow256_positive(s.len());
    if i == s.len() {
        lemma_le_value_zero(s);
        assert(bump_from(s, i) == s);
        assert((0 + m) % m == 0) by (nonlinear_arith)
            requires
                m >= 1,
        ;
    } else if s[i] < 255 {
        let t = s.update(i, (s[i] + 1) as u8);
        assert(bump_from(s, i) == t);
        lemma_le_value_update(s, i, (s[i] + 1) as u8);
        lemma_le_value_bound(t);
        let x = (le_value(s) + pow256(i as nat)) as int;
        assert(((s[i] + 1) as u8) - s[i] == 1);
        assert(1 * pow256(i as nat) == pow256(i as nat));
        assert(le_value(t) == x);
        assert(x % m == x) by (nonlinear_arith)
            requires
                0 <= x < m,
        ;
    } else {
        let t = s.update(i, 0u8);
        assert(bump_from(s, i) == bump_from(t, i + 1));
        lemma_le_value_update(s, i, 0u8);
        let p = pow256(i as nat) as int;
        let d = (0u8 - s[i]) as int;
        assert(le_value(t) == le_value(s) + d * p);
        assert(d * p == -255 * p) by (nonlinear_arith)
            requires
                d == -255,
        ;
        assert(pow256((i + 1) as nat) == 256 * pow256(i as nat));
        assert forall|j: int| 0 <= j < i + 1 implies t[j] == 0 by {
            if j < i {
                assert(t[j] == s[j]);
            }
        }
        lemma_bump_adds(t, i + 1);
        assert(le_value(t) + pow256((i + 1) as nat) == le_value(s) + pow256(i as nat));
    }
}

proof fn lemma_le_value_zero(s: Seq<u8>)
    requires
        forall|j: int| 0 <= j < s.len() ==> s[j] == 0,
    ensures
        le_value(s) == 0,
    decreases s.len(),
{
    if s.len() > 0 {
        lemma_le_value_zero(s.drop_first());
    }
}

proof fn lemma_bump_saturated(s: Seq<u8>, i: int)
    requires
        0 <= i <= s.len(),
        saturated_from(s, i),
        forall|j: int| 0 <= j < i ==> s[j] == 0,
    ensures
        bump_from(s, i) == Seq::new(s.len(), |j: int| 0u8),
    decreases s.len() - i,
{
    if i < s.len() {
        lemma_bump_saturated(s.update(i, 0u8), i + 1);
    } else {
        assert(s =~= Seq::new(s.len(), |j: int| 0u8));
    }
}

proof fn lemma_bump_zero_saturated(s: Seq<u8>, i: int)
    requires
        0 <= i <= s.len(),
        bump_from(s, i) == Seq::new(s.len(), |j: int| 0u8),
    ensures
        saturated_from(s, i),
    decreases s.len() - i,
{
    if i < s.len() {
        if s[i] < 255 {
            assert(bump_from(s, i)[i] == s[i] + 1);
        } else {
            let t = s.update(i, 0u8);
            lemma_bump_zero_saturated(t, i + 1);
            assert forall|j: int| i <= j < s.len() implies s[j] == 255 by {
                if j > i {
                    assert(t[j] == s[j]);
                }
            }
        }
    }
}

/// One step adds exactly one to the counter's value, modulo 2^128.
pub proof fn lemma_step_adds_one(s: Seq<u8>)
    requires
        s.len() == IV_LEN,
    ensures
        iv_next(s).len() == IV_LEN,
        le_value(iv_next(s)) == (le_value(s) + 1) as int % (iv_modulus() as int),
{
    lemma_bump_adds(s, 0);
}

/// Stepping the counter whose bytes are all 0xFF gives the all-zero counter.
pub proof fn lemma_all_ones_wraps_to_zero(s: Seq<u8>)
    requires
        s.len() == IV_LEN,
        saturated_from(s, 0),
    ensures
        iv_next(s) == iv_zero(),
{
    lemma_bump_saturated(s, 0);
    assert(iv_next(s) =~= iv_zero());
}

/// Until the counter wraps, every step makes it larger by exactly one, so
/// no value repeats before the wrap.
pub proof fn lemma_step_strictly_increases(s: Seq<u8>)
    requires
        s.len() == IV_LEN,
        !saturated_from(s, 0),
    ensures
        le_value(iv_next(s)) == le_value(s) + 1,
{
    lemma_step_adds_one(s);
    lemma_le_value_bound(s);
    if le_value(s) + 1 == iv_modulus() {
        assert forall|j: int| 0 <= j < s.len() implies s[j] == 255 by {
            if s[j] < 255 {
                lemma_le_value_update(s, j, 255u8);
                lemma_le_value_bound(s.update(j, 255u8));
                lemma_pow256_positive(j as nat);
                let d = (255 - s[j]) as int;
                let p = pow256(j as nat) as int;
                assert(d * p >= 1) by (nonlinear_arith)
                    requires
                        d >= 1,
                        p >= 1,
                ;
            }
        }
    }
    let x = (le_value(s) + 1) as int;
    let m = iv_modulus() as int;
    assert(x % m == x) by (nonlinear_arith)
        requires
            0 <= x < m,
    ;
}

/// The counter only comes back to zero from a value at which a new session
/// key is already asked for: the trigger fires strictly before the wrap.
pub proof fn lemma_rekey_before_wrap(s: Seq<u8>)
    requires
        s.len() == IV_LEN,
        iv_next(s) == iv_zero(),
    ensures
        iv_wants_rekey(s),
        saturated_from(s, 0),
{
    assert(iv_zero() =~= Seq::new(s.len(), |j: int| 0u8));
    lemma_bump_zero_saturated(s, 0);
}

/// The 16-byte counter that feeds the stream cipher of each record.
#[derive(Debug, Clone, Copy)]
pub struct Iv(pub [u8; 16]);

impl Iv {
    pub open spec fn view(&self) -> Seq<u8> {
        self.0@
    }

    /// Adds one to the counter with carry from byte 0 upwards, wrapping
    /// to zero after the largest value.
    pub fn add_one(&mut self)
        ensures
            final(self)@ == iv_next(old(self)@),
            le_value(final(self)@) == (le_value(old(self)@) + 1) as int % (iv_modulus() as int),
    {
        let ghost start = self.0@;
        let mut index: usize = 0;
        while index < IV_LEN
            invariant
                0 <= index <= IV_LEN,
                self.0@.len() == IV_LEN,
                old(self)@ == start,
                bump_from(start, 0) == bump_from(self.0@, index as int),
            decreases IV_LEN - index,
        {
            let value = self.0[index];
            if value < 255 {
                let ghost before = self.0@;
                self.0[index] = value + 1;
                assert(self.0@ == before.update(index as int, (value + 1) as u8));
                proof {
                    lemma_step_adds_one(start);
                }
                return;
            }
            let ghost before = self.0@;
            self.0[index] = 0;
            assert(self.0@ == before.update(index as int, 0u8));
            index = index + 1;
        }
        proof {
            lemma_step_adds_one(start);
        }
    }

    /// Whether the counter has reached the point at which the session key
    /// should be replaced.
    pub fn check_rekying_should_be_done(&self) -> (r: bool)
        ensures
            r == iv_wants_rekey(self@),
    {
        self.0[REKEY_BYTE] == 255
    }
}

impl Default for Iv {
    /// The all-zero counter.
    fn default() -> (r: Iv)
        ensures
            r@ == iv_zero(),
    {
        let r = Iv([0u8; 16]);
        assert(r@ =~= iv_zero());
        r
    }
}

} // verus!
