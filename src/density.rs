//! The density reading: the share of material pixels that are not void.
use vstd::prelude::*;

verus! {

/// The density of a classification is undefined: it has no reference pixel.
#[derive(Clone, Copy, Debug, PartialEq, Eq, Structural)]
pub struct DensityUndefined;

/// A defined density reading, kept as the two pixel counts it is made of:
/// its value is `(1 - included / reference) * 100` percent.
#[derive(Clone, Copy, Debug, PartialEq, Eq, Structural)]
pub struct Density {
    pub included: usize,
    /// Never 0.
    pub reference: usize,
}

proof fn lemma_scaled_fits(d: nat, s: nat)
    requires
        d <= 0xffff_ffff_ffff_ffff,
        s <= 0xffff_ffff,
    ensures
        100 * d * s <= 0x7fff_ffff_ffff_ffff_ffff_ffff_ffff_ffff,
{
    assert(100 * d * s <= 100 * 0xffff_ffff_ffff_ffffnat * 0xffff_ffffnat) by (nonlinear_arith)
        requires
            d <= 0xffff_ffff_ffff_ffff,
            s <= 0xffff_ffff,
    ;
}

impl Density {
    /// 100 times the reference count minus the included count, over the
    /// reference count: the exact percentage, as numerator and denominator.
    pub open spec fn percent_numerator(self) -> int {
        100 * (self.reference - self.included)
    }

    /// The density in `1 / scale` percent, rounded toward zero:
    /// `(1 - included / reference) * 100 * scale`.
    pub fn scaled_percent(&self, scale: u32) -> (r: i128)
        requires
            self.reference > 0,
        ensures
            self.included <= self.reference ==> r == (self.percent_numerator() * scale)
                / self.reference as int,
            self.included > self.reference ==> r == -((-self.percent_numerator() * scale)
                / self.reference as int),
    {
        let reference = self.reference as u128;
        let included = self.included as u128;
        let s = scale as u128;
        if included <= reference {
            proof {
                lemma_scaled_fits((reference - included) as nat, s as nat);
            }
            let q = (100 * (reference - included) * s) / reference;
            proof {
                let ghost num: int = 100 * (reference - included) * s;
                assert(q <= num) by (nonlinear_arith)
                    requires
                        q == num / (reference as int),
                        num >= 0,
                        reference > 0,
                ;
                assert(100 * (reference - included) * s == self.percent_numerator() * scale);
            }
            q as i128
        } else {
            proof {
                lemma_scaled_fits((included - reference) as nat, s as nat);
            }
            let q = (100 * (included - reference) * s) / reference;
            proof {
                let ghost num: int = 100 * (included - reference) * s;
                assert(q <= num) by (nonlinear_arith)
                    requires
                        q == num / (reference as int),
                        num >= 0,
                        reference > 0,
                ;
                assert(100 * (included - reference) * s == -self.percent_numerator() * scale);
            }
            -(q as i128)
        }
    }
}

/// The reading for `included` void and `reference` material pixels.
pub open spec fn spec_density(included: nat, reference: nat) -> Result<Density, DensityUndefined> {
    if reference == 0 {
        Err(DensityUndefined)
    } else {
        Ok(Density { included: included as usize, reference: reference as usize })
    }
}

/// Density of a classification from its void (`included`) and material
/// (`reference`) pixels: undefined when there is no reference pixel, else the
/// reading of those two counts.
pub fn density(included: &Vec<(u32, u32)>, reference: &Vec<(u32, u32)>) -> (r: Result<
    Density,
    DensityUndefined,
>)
    ensures
        r == spec_density(included@.len(), reference@.len()),
        r.is_err() <==> reference@.len() == 0,
{
    if reference.len() == 0 {
        Err(DensityUndefined)
    } else {
        Ok(Density { included: included.len(), reference: reference.len() })
    }
}

} // verus!
