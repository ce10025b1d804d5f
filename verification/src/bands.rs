//! Fractional-octave resolutions.
//!
//! Bands are base-2 and anchored on 1 kHz for every resolution; the band
//! table itself is floating point and lives outside this crate.

use vstd::prelude::*;

verus! {

#[derive(Debug, Clone, Copy, PartialEq, Eq, Structural)]
pub enum Fraction {
    Octave,
    Third,
    Sixth,
    Twelfth,
    TwentyFourth,
    FortyEighth,
}

impl Fraction {
    pub const ALL: [Fraction; 6] = [
        Fraction::Octave,
        Fraction::Third,
        Fraction::Sixth,
        Fraction::Twelfth,
        Fraction::TwentyFourth,
        Fraction::FortyEighth,
    ];

    pub open spec fn n(self) -> u32 {
        match self {
            Fraction::Octave => 1,
            Fraction::Third => 3,
            Fraction::Sixth => 6,
            Fraction::Twelfth => 12,
            Fraction::TwentyFourth => 24,
            Fraction::FortyEighth => 48,
        }
    }

    /// The N in 1/N octave.
    pub fn denominator(self) -> (r: u32)
        ensures
            r == self.n(),
    {
        match self {
            Fraction::Octave => 1,
            Fraction::Third => 3,
            Fraction::Sixth => 6,
            Fraction::Twelfth => 12,
            Fraction::TwentyFourth => 24,
            Fraction::FortyEighth => 48,
        }
    }

    pub open spec fn label_text(self) -> Seq<char> {
        match self {
            Fraction::Octave => "1/1"@,
            Fraction::Third => "1/3"@,
            Fraction::Sixth => "1/6"@,
            Fraction::Twelfth => "1/12"@,
            Fraction::TwentyFourth => "1/24"@,
            Fraction::FortyEighth => "1/48"@,
        }
    }

    pub fn label(self) -> (r: &'static str)
        ensures
            r@ == self.label_text(),
    {
        match self {
            Fraction::Octave => "1/1",
            Fraction::Third => "1/3",
            Fraction::Sixth => "1/6",
            Fraction::Twelfth => "1/12",
            Fraction::TwentyFourth => "1/24",
            Fraction::FortyEighth => "1/48",
        }
    }
}


/// `n` in decimal digits, with no leading zero.
pub open spec fn decimal_digits(n: nat) -> Seq<char>
    decreases n,
{
    if n < 10 {
        seq![(('0' as nat) + n) as char]
    } else {
        decimal_digits(n / 10).push((('0' as nat) + n % 10) as char)
    }
}

/// A resolution's label is `1/` and its denominator, and no two
/// resolutions share a label.
pub proof fn lemma_labels_name_the_denominator(a: Fraction, b: Fraction)
    ensures
        a.label_text() == "1/"@ + decimal_digits(a.n() as nat),
        a.label_text() == b.label_text() <==> a == b,
{
    reveal_strlit("1/");
    reveal_strlit("1/1");
    reveal_strlit("1/3");
    reveal_strlit("1/6");
    reveal_strlit("1/12");
    reveal_strlit("1/24");
    reveal_strlit("1/48");
    reveal_with_fuel(decimal_digits, 3);
    assert(a.label_text() =~= "1/"@ + decimal_digits(a.n() as nat));
    if a.label_text() == b.label_text() {
        let x = a.label_text();
        let y = b.label_text();
        assert(x.len() == y.len());
        assert(x[2] == y[2]);
        if x.len() == 4 {
            assert(x[3] == y[3]);
        }
    }
}

} // verus!
