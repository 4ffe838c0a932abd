use vstd::prelude::*;

verus! {

/// A non-negative rational number of seconds (or a dimensionless factor),
/// stored as numerator / denominator.  The denominator is always positive.
#[derive(Clone, Copy, Debug, PartialEq, Eq, Structural)]
pub struct Rat {
    pub num: u64,
    pub den: u64,
}

impl Rat {
    /// Structural validity: the denominator is positive.
    pub open spec fn wf(&self) -> bool {
        self.den >= 1
    }

    pub fn new(num: u64, den: u64) -> (r: Rat)
        requires
            den >= 1,
        ensures
            r.wf(),
            r.num == num,
            r.den == den,
    {
        Rat { num, den }
    }

}

/// Scales a rational by mn / md, checking that both parts stay within the
/// range time expressions accept.
pub fn scaled_rat(l: &Rat, mn: u64, md: u64) -> (r: Option<Rat>)
    requires
        l.wf(),
        md >= 1,
    ensures
        match r {
            Some(s) => {
                &&& s.wf()
                &&& s.num == l.num * mn
                &&& s.den == l.den * md
                &&& s.num <= crate::time::MAX_TIME_PART
                &&& s.den <= crate::time::MAX_TIME_PART
            },
            None => l.num * mn > crate::time::MAX_TIME_PART || l.den * md
                > crate::time::MAX_TIME_PART,
        },
{
    proof {
        assert(0 <= (l.num as int) * (mn as int) <= 0xffff_ffff_ffff_ffffint
            * 0xffff_ffff_ffff_ffffint && 1 <= (l.den as int) * (md as int)
            <= 0xffff_ffff_ffff_ffffint * 0xffff_ffff_ffff_ffffint) by (nonlinear_arith)
            requires
                0 <= l.num <= 0xffff_ffff_ffff_ffffu64,
                1 <= l.den <= 0xffff_ffff_ffff_ffffu64,
                0 <= mn <= 0xffff_ffff_ffff_ffffu64,
                1 <= md <= 0xffff_ffff_ffff_ffffu64,
        ;
    }
    let n: u128 = (l.num as u128) * (mn as u128);
    let d: u128 = (l.den as u128) * (md as u128);
    if n > crate::time::MAX_TIME_PART as u128 || d > crate::time::MAX_TIME_PART as u128 {
        return None;
    }
    Some(Rat { num: n as u64, den: d as u64 })
}

} // verus!
