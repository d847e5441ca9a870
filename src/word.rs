use stylus_sdk::alloy_primitives::U256;
use vstd::prelude::*;

verus! {

/// The radix of one limb, 2^64.
pub open spec fn limb_radix() -> nat {
    0x1_0000_0000_0000_0000
}

/// One past the largest value a 256-bit word holds, 2^256.
pub open spec fn word_modulus() -> nat {
    limb_radix() * limb_radix() * limb_radix() * limb_radix()
}

/// An unsigned 256-bit integer, held as four little-endian 64-bit limbs
/// (the layout of the EVM word type `U256`).
#[derive(Clone, Copy, Debug, PartialEq, Eq)]
pub struct Uint256 {
    pub limbs: [u64; 4],
}

impl Uint256 {
    /// The number this word stands for.
    pub open spec fn value(self) -> nat {
        self.limbs[0] as nat + self.limbs[1] as nat * limb_radix() + self.limbs[2] as nat
            * limb_radix() * limb_radix() + self.limbs[3] as nat * limb_radix() * limb_radix()
            * limb_radix()
    }

    /// The word holding zero.
    pub fn zero() -> (r: Uint256)
        ensures
            r.value() == 0,
    {
        Uint256 { limbs: [0, 0, 0, 0] }
    }

    /// Whether the word holds zero.
    pub fn is_zero(&self) -> (r: bool)
        ensures
            r == (self.value() == 0),
    {
        let r = self.limbs[0] == 0 && self.limbs[1] == 0 && self.limbs[2] == 0 && self.limbs[3]
            == 0;
        proof {
            let rad = limb_radix() as int;
            let a = self.limbs[0] as int;
            let b = self.limbs[1] as int;
            let c = self.limbs[2] as int;
            let d = self.limbs[3] as int;
            let sum = a + b * rad + c * rad * rad + d * rad * rad * rad;
            assert(!r ==> sum > 0) by (nonlinear_arith)
                requires
                    sum == a + b * rad + c * rad * rad + d * rad * rad * rad,
                    rad > 0,
                    0 <= a,
                    0 <= b,
                    0 <= c,
                    0 <= d,
                    r == (a == 0 && b == 0 && c == 0 && d == 0),
            ;
        }
        r
    }

    /// The word holding `x`.
    pub fn from_u64(x: u64) -> (r: Uint256)
        ensures
            r.value() == x as nat,
    {
        Uint256 { limbs: [x, 0, 0, 0] }
    }

    /// The word holding `x`.
    pub fn from_u128(x: u128) -> (r: Uint256)
        ensures
            r.value() == x as nat,
    {
        let lo = (x % 0x1_0000_0000_0000_0000) as u64;
        let hi = (x / 0x1_0000_0000_0000_0000) as u64;
        proof {
            assert(x as nat == (x % 0x1_0000_0000_0000_0000) as nat + (x
                / 0x1_0000_0000_0000_0000) as nat * limb_radix());
        }
        Uint256 { limbs: [lo, hi, 0, 0] }
    }
}

/// Every word stands for a number below 2^256.
pub proof fn lemma_value_below_modulus(x: Uint256)
    ensures
        x.value() < word_modulus(),
{
    let r = limb_radix() as int;
    let a = x.limbs[0] as int;
    let b = x.limbs[1] as int;
    let c = x.limbs[2] as int;
    let d = x.limbs[3] as int;
    assert(a + b * r + c * r * r + d * r * r * r < r * r * r * r) by (nonlinear_arith)
        requires
            0 <= a < r,
            0 <= b < r,
            0 <= c < r,
            0 <= d < r,
    ;
}

/// Relies on `U256::checked_add` (ruint, re-exported by the Stylus SDK's
/// alloy-primitives): the sum, or `None` exactly when it does not fit in
/// 256 bits.
#[verifier::external_body]
pub(crate) fn checked_add(a: Uint256, b: Uint256) -> (r: Option<Uint256>)
    ensures
        match r {
            Some(s) => s.value() == a.value() + b.value(),
            None => a.value() + b.value() >= word_modulus(),
        },
{
    match U256::from_limbs(a.limbs).checked_add(U256::from_limbs(b.limbs)) {
        Some(s) => Some(Uint256 { limbs: s.into_limbs() }),
        None => None,
    }
}

/// Relies on `U256::checked_sub` (ruint, re-exported by the Stylus SDK's
/// alloy-primitives): the difference, or `None` exactly when `b` exceeds `a`.
#[verifier::external_body]
pub(crate) fn checked_sub(a: Uint256, b: Uint256) -> (r: Option<Uint256>)
    ensures
        match r {
            Some(d) => a.value() >= b.value() && d.value() == a.value() - b.value(),
            None => a.value() < b.value(),
        },
{
    match U256::from_limbs(a.limbs).checked_sub(U256::from_limbs(b.limbs)) {
        Some(d) => Some(Uint256 { limbs: d.into_limbs() }),
        None => None,
    }
}

} // verus!
