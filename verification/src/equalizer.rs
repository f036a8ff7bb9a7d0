//! The gains of the ten-band graphic equalizer and its named presets, held in
//! hundredths of a decibel. The filters that apply them to audio work on
//! floating point and live outside this library; they read the gains from here.
use vstd::prelude::*;

verus! {

/// Number of bands (ISO centre frequencies, about an octave apart).
pub const NUM_BANDS: usize = 10;

/// Lowest gain a band takes, in hundredths of a decibel (-12 dB).
pub const MIN_GAIN_CENTIDB: i32 = -1200;

/// Highest gain a band takes, in hundredths of a decibel (+12 dB).
pub const MAX_GAIN_CENTIDB: i32 = 1200;

/// `g` clamped to the range a band takes.
pub open spec fn clamp_gain(g: i32) -> i32 {
    if g < MIN_GAIN_CENTIDB {
        MIN_GAIN_CENTIDB
    } else if g > MAX_GAIN_CENTIDB {
        MAX_GAIN_CENTIDB
    } else {
        g
    }
}

/// The current gain of each band, in hundredths of a decibel.
pub struct EqualizerControl {
    gains_centidb: Vec<i32>,
}

impl View for EqualizerControl {
    type V = Seq<i32>;

    closed spec fn view(&self) -> Seq<i32> {
        self.gains_centidb@
    }
}

impl EqualizerControl {
    /// Every band within range, and one gain per band.
    pub open spec fn wf(self) -> bool {
        &&& self@.len() == NUM_BANDS
        &&& forall|i: int| 0 <= i < NUM_BANDS ==> MIN_GAIN_CENTIDB <= #[trigger] self@[i] <= MAX_GAIN_CENTIDB
    }

    /// What every value of this type keeps: [`Self::wf`].
    #[verifier::type_invariant]
    closed spec fn gains_in_range(self) -> bool {
        self.wf()
    }

    /// All bands flat (0 dB).
    pub fn new() -> (r: Self)
        ensures
            r@ == Seq::new(NUM_BANDS as nat, |i: int| 0i32),
            r.wf(),
    {
        let mut g: Vec<i32> = Vec::new();
        let mut i: usize = 0;
        while i < NUM_BANDS
            invariant
                i <= NUM_BANDS,
                g@ == Seq::new(i as nat, |k: int| 0i32),
            decreases NUM_BANDS - i,
        {
            g.push(0);
            assert(g@ =~= Seq::new((i + 1) as nat, |k: int| 0i32));
            i = i + 1;
        }
        EqualizerControl { gains_centidb: g }
    }

    /// Sets one band, clamping the gain to ±12 dB. A band index out of range is
    /// ignored.
    pub fn set_gain(&mut self, band: usize, gain_centidb: i32)
        ensures
            final(self).wf(),
            band < NUM_BANDS ==> final(self)@ == old(self)@.update(band as int, clamp_gain(gain_centidb)),
            band >= NUM_BANDS ==> final(self)@ == old(self)@,
    {
        proof {
            use_type_invariant(&*self);
        }
        if band < self.gains_centidb.len() {
            let clamped = if gain_centidb < MIN_GAIN_CENTIDB {
                MIN_GAIN_CENTIDB
            } else if gain_centidb > MAX_GAIN_CENTIDB {
                MAX_GAIN_CENTIDB
            } else {
                gain_centidb
            };
            let mut g = self.gains_centidb.clone();
            g.set(band, clamped);
            self.gains_centidb = g;
        }
    }

    /// Sets every band from `gains_centidb`, each clamped to ±12 dB. Values past
    /// the tenth are ignored; bands past the end of a shorter slice keep their
    /// gain.
    pub fn set_gains(&mut self, gains_centidb: &[i32])
        ensures
            final(self).wf(),
            forall|i: int|
                0 <= i < NUM_BANDS ==> #[trigger] final(self)@[i] == if i < gains_centidb@.len() {
                    clamp_gain(gains_centidb@[i])
                } else {
                    old(self)@[i]
                },
    {
        proof {
            use_type_invariant(&*self);
        }
        let mut band: usize = 0;
        while band < gains_centidb.len()
            invariant
                self.wf(),
                band <= gains_centidb@.len(),
                forall|i: int|
                    0 <= i < NUM_BANDS ==> #[trigger] self@[i] == if i < band && i < gains_centidb@.len() {
                        clamp_gain(gains_centidb@[i])
                    } else {
                        old(self)@[i]
                    },
            decreases gains_centidb@.len() - band,
        {
            self.set_gain(band, gains_centidb[band]);
            band = band + 1;
        }
    }

    /// The gain of each band, in hundredths of a decibel.
    pub fn gains_centidb(&self) -> (r: Vec<i32>)
        ensures
            r@ == self@,
            self.wf(),
    {
        proof {
            use_type_invariant(self);
        }
        self.gains_centidb.clone()
    }
}

impl Default for EqualizerControl {
    fn default() -> (r: Self)
        ensures
            r@ == Seq::new(NUM_BANDS as nat, |i: int| 0i32),
            r.wf(),
    {
        EqualizerControl::new()
    }
}

/// Named curves. `Custom` has no curve of its own: it labels gains that the
/// user set band by band and that no longer match a named preset.
#[derive(Debug, Clone, Copy, PartialEq, Eq, Structural)]
pub enum EqPreset {
    Flat,
    Rock,
    Pop,
    Jazz,
    Custom,
}

/// The curve of each named preset, in hundredths of a decibel, band by band in
/// the order of the centre frequencies.
pub open spec fn preset_curve(p: EqPreset) -> Option<Seq<i32>> {
    match p {
        EqPreset::Flat => Some(seq![0i32, 0i32, 0i32, 0i32, 0i32, 0i32, 0i32, 0i32, 0i32, 0i32]),
        EqPreset::Rock => Some(seq![400i32, 300i32, -100i32, -200i32, -100i32, 100i32, 300i32, 400i32, 400i32, 400i32]),
        EqPreset::Pop => Some(seq![-100i32, 100i32, 300i32, 300i32, 100i32, -100i32, -100i32, -100i32, 100i32, 100i32]),
        EqPreset::Jazz => Some(seq![200i32, 100i32, 0i32, 100i32, -100i32, -100i32, 0i32, 100i32, 200i32, 300i32]),
        EqPreset::Custom => None,
    }
}

impl EqPreset {
    /// The preset's curve, or `None` for `Custom`.
    pub fn gains_centidb(self) -> (r: Option<Vec<i32>>)
        ensures
            match r {
                Some(v) => preset_curve(self) == Some(v@),
                None => preset_curve(self) is None,
            },
    {
        let v: Vec<i32> = match self {
            EqPreset::Flat => vec![0, 0, 0, 0, 0, 0, 0, 0, 0, 0],
            EqPreset::Rock => vec![400, 300, -100, -200, -100, 100, 300, 400, 400, 400],
            EqPreset::Pop => vec![-100, 100, 300, 300, 100, -100, -100, -100, 100, 100],
            EqPreset::Jazz => vec![200, 100, 0, 100, -100, -100, 0, 100, 200, 300],
            EqPreset::Custom => return None,
        };
        assert(preset_curve(self) == Some(v@));
        Some(v)
    }
}

/// Every named preset has one gain per band, each within ±12 dB, and only
/// `Custom` has no curve.
pub proof fn law_presets_have_a_gain_per_band_within_range(p: EqPreset)
    ensures
        p != EqPreset::Custom ==> preset_curve(p) is Some,
        p == EqPreset::Custom ==> preset_curve(p) is None,
        match preset_curve(p) {
            Some(c) => c.len() == NUM_BANDS && forall|i: int|
                0 <= i < c.len() ==> MIN_GAIN_CENTIDB <= #[trigger] c[i] <= MAX_GAIN_CENTIDB,
            None => true,
        },
{
}

/// The named presets are told apart by their curves: no two of them apply the
/// same gains.
pub proof fn law_named_presets_have_distinct_curves(p: EqPreset, q: EqPreset)
    requires
        p != EqPreset::Custom,
        q != EqPreset::Custom,
        p != q,
    ensures
        preset_curve(p) != preset_curve(q),
{
    let a = preset_curve(p)->0;
    let b = preset_curve(q)->0;
    assert(a[0] != b[0] || a[1] != b[1] || a[2] != b[2]);
}

/// The curve of each named preset, band by band from the lowest band, in
/// decibels: Flat 0 everywhere; Rock 4, 3, -1, -2, -1, 1, 3, 4, 4, 4; Pop -1,
/// 1, 3, 3, 1, -1, -1, -1, 1, 1; Jazz 2, 1, 0, 1, -1, -1, 0, 1, 2, 3.
pub proof fn law_preset_curves_are_the_documented_ones(p: EqPreset, band: int)
    requires
        p != EqPreset::Custom,
        0 <= band < NUM_BANDS,
    ensures
        preset_curve(p) matches Some(c) && c[band] == 100 * (match p {
            EqPreset::Flat => 0int,
            EqPreset::Rock => seq![4int, 3, -1, -2, -1, 1, 3, 4, 4, 4][band],
            EqPreset::Pop => seq![-1int, 1, 3, 3, 1, -1, -1, -1, 1, 1][band],
            EqPreset::Jazz => seq![2int, 1, 0, 1, -1, -1, 0, 1, 2, 3][band],
            EqPreset::Custom => 0int,
        }),
{
}

/// Setting a band and reading it back gives the clamped gain; the other bands
/// keep theirs.
pub proof fn law_set_gain_reads_back_clamped(before: Seq<i32>, after: Seq<i32>, band: int, g: i32)
    requires
        before.len() == NUM_BANDS,
        0 <= band < NUM_BANDS,
        after == before.update(band, clamp_gain(g)),
    ensures
        after[band] == clamp_gain(g),
        MIN_GAIN_CENTIDB <= after[band] <= MAX_GAIN_CENTIDB,
        MIN_GAIN_CENTIDB <= g <= MAX_GAIN_CENTIDB ==> after[band] == g,
        forall|i: int| 0 <= i < NUM_BANDS && i != band ==> after[i] == before[i],
{
}

} // verus!
