use vstd::prelude::*;

verus! {

pub open spec fn gcd_spec(a: nat, b: nat) -> nat
    decreases b,
{
    if b == 0 {
        a
    } else {
        gcd_spec(b, a % b)
    }
}

pub proof fn lemma_gcd_positive(a: nat, b: nat)
    requires
        a > 0 || b > 0,
    ensures
        gcd_spec(a, b) > 0,
    decreases b,
{
    if b > 0 {
        lemma_gcd_positive(b, a % b);
    }
}

/// The lowest VCO frequency of the sensor's PLL, in Hz.
pub const VCO_MIN: u64 = 384000000;

/// The largest pre-divider of the sensor's PLL.
pub const DIV_MAX: u64 = 64;

/// The smallest multiplier of the sensor's PLL.
pub const MUL_MIN: u64 = 32;

/// The largest multiplier of the sensor's PLL.
pub const MUL_MAX: u64 = 384;

pub open spec fn pll_fits(div: nat, mul: nat) -> bool {
    MUL_MIN <= mul <= MUL_MAX && div <= DIV_MAX
}

/// Searching down from `vco` to `VCO_MIN`: the divider and multiplier of the
/// first frequency whose reduced ratio to `extclk` fits the PLL, or of the
/// lowest frequency if none does.
pub open spec fn pll_from(extclk: nat, vco: nat) -> (nat, nat)
    decreases vco,
{
    let g = gcd_spec(extclk, vco);
    let div = extclk / g;
    let mul = vco / g;
    if pll_fits(div, mul) || vco <= VCO_MIN {
        (div, mul)
    } else {
        pll_from(extclk, (vco - 1) as nat)
    }
}

/// The PLL pre-divider and multiplier for input clock `extclk` and a VCO of at
/// most `vco_target`; `(0, 0)` when the target is below the lowest VCO frequency.
pub open spec fn pll_config(extclk: nat, vco_target: nat) -> (nat, nat) {
    if vco_target < VCO_MIN {
        (0, 0)
    } else {
        pll_from(extclk, vco_target)
    }
}

/// The greatest common divisor of `a` and `b`.
pub fn gcd(a: u64, b: u64) -> (r: u64)
    ensures
        r == gcd_spec(a as nat, b as nat),
{
    let mut x = a;
    let mut y = b;
    while y != 0
        invariant
            gcd_spec(x as nat, y as nat) == gcd_spec(a as nat, b as nat),
        decreases y,
    {
        let t = y;
        y = x % y;
        x = t;
    }
    x
}

/// The PLL settings that reach the highest VCO frequency not above `vco_target`
/// with a divider and multiplier inside the PLL's limits.
pub fn optimal_pll_config(extclk: u64, vco_target: u64) -> (r: (u64, u64))
    ensures
        (r.0 as nat, r.1 as nat) == pll_config(extclk as nat, vco_target as nat),
{
    if vco_target < VCO_MIN {
        return (0, 0);
    }
    let mut vco = vco_target;
    loop
        invariant
            VCO_MIN <= vco <= vco_target,
            pll_from(extclk as nat, vco as nat) == pll_config(extclk as nat, vco_target as nat),
        decreases vco,
    {
        let g = gcd(extclk, vco);
        proof {
            lemma_gcd_positive(extclk as nat, vco as nat);
        }
        let div = extclk / g;
        let mul = vco / g;
        if (mul <= MUL_MAX && mul >= MUL_MIN && div <= DIV_MAX) || vco == VCO_MIN {
            return (div, mul);
        }
        vco = vco - 1;
    }
}

} // verus!
