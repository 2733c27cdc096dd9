//! Test tiers and the test table.
//!
//! The amount of data gates which statistical tests may run: the tier is
//! the highest level whose minimum bit count is satisfied, and each test
//! additionally carries its own tier and bit-count requirements and, for
//! some, a block-size parameter that only becomes meaningful with enough
//! data.

use vstd::prelude::*;

verus! {

use vstd::string::StringExecFns;

/// A named bundle of tests gated by a minimum bitstream length.
/// Level 0 stands for "too little data for any tier".
#[derive(Debug)]
pub struct TierDescriptor {
    pub level: u8,
    pub min_bits: usize,
    pub recommended_bits: usize,
}

/// The tier level the bit count earns.
pub open spec fn tier_level_for(bit_count: nat) -> u8 {
    if bit_count >= 1_000_000 {
        5
    } else if bit_count >= 100_000 {
        4
    } else if bit_count >= 10_000 {
        3
    } else if bit_count >= 1_000 {
        2
    } else if bit_count >= 100 {
        1
    } else {
        0
    }
}

/// The least bit count of a tier level.
pub open spec fn tier_min_bits(level: u8) -> nat {
    if level == 5 {
        1_000_000
    } else if level == 4 {
        100_000
    } else if level == 3 {
        10_000
    } else if level == 2 {
        1_000
    } else if level == 1 {
        100
    } else {
        0
    }
}

/// The bit count a tier level is comfortable with.
pub open spec fn tier_recommended_bits(level: u8) -> nat {
    if level == 5 {
        10_000_000
    } else if level == 4 {
        1_000_000
    } else if level == 3 {
        100_000
    } else if level == 2 {
        10_000
    } else if level == 1 {
        1_000
    } else {
        100
    }
}

impl TierDescriptor {
    /// The tier's human label.
    pub fn name(&self) -> (r: String)
        ensures
            r@ == spec_tier_name(self.level),
    {
        let s: &str = if self.level == 5 {
            "Comprehensive"
        } else if self.level == 4 {
            "Full"
        } else if self.level == 3 {
            "Standard"
        } else if self.level == 2 {
            "Light"
        } else if self.level == 1 {
            "Minimal"
        } else {
            "Insufficient"
        };
        String::from_str(s)
    }

    /// The tier's one-line description.
    pub fn description(&self) -> (r: String)
        ensures
            r@ == spec_tier_description(self.level),
    {
        let s: &str = if self.level == 5 {
            "Full suite with optimal reliability"
        } else if self.level == 4 {
            "Complete NIST suite"
        } else if self.level == 3 {
            "Most NIST tests"
        } else if self.level == 2 {
            "Basic + Block tests"
        } else if self.level == 1 {
            "Basic tests (Frequency, Runs, FFT)"
        } else {
            "Too few bits for NIST tests"
        };
        String::from_str(s)
    }
}

/// The label of each tier level.
pub open spec fn spec_tier_name(level: u8) -> Seq<char> {
    if level == 5 {
        "Comprehensive"@
    } else if level == 4 {
        "Full"@
    } else if level == 3 {
        "Standard"@
    } else if level == 2 {
        "Light"@
    } else if level == 1 {
        "Minimal"@
    } else {
        "Insufficient"@
    }
}

/// The description of each tier level.
pub open spec fn spec_tier_description(level: u8) -> Seq<char> {
    if level == 5 {
        "Full suite with optimal reliability"@
    } else if level == 4 {
        "Complete NIST suite"@
    } else if level == 3 {
        "Most NIST tests"@
    } else if level == 2 {
        "Basic + Block tests"@
    } else if level == 1 {
        "Basic tests (Frequency, Runs, FFT)"@
    } else {
        "Too few bits for NIST tests"@
    }
}

/// Map a bitstream length to the highest tier it satisfies; level 0
/// with a recommendation of 100 bits when even the first tier is out of
/// reach.
pub fn determine_tier(bit_count: usize) -> (t: TierDescriptor)
    ensures
        t.level == tier_level_for(bit_count as nat),
        t.min_bits as nat == tier_min_bits(t.level),
        t.recommended_bits as nat == tier_recommended_bits(t.level),
{
    if bit_count >= 1_000_000 {
        TierDescriptor { level: 5, min_bits: 1_000_000, recommended_bits: 10_000_000 }
    } else if bit_count >= 100_000 {
        TierDescriptor { level: 4, min_bits: 100_000, recommended_bits: 1_000_000 }
    } else if bit_count >= 10_000 {
        TierDescriptor { level: 3, min_bits: 10_000, recommended_bits: 100_000 }
    } else if bit_count >= 1_000 {
        TierDescriptor { level: 2, min_bits: 1_000, recommended_bits: 10_000 }
    } else if bit_count >= 100 {
        TierDescriptor { level: 1, min_bits: 100, recommended_bits: 1_000 }
    } else {
        TierDescriptor { level: 0, min_bits: 0, recommended_bits: 100 }
    }
}

/// The statistical test primitives the runner can dispatch to.
#[derive(Debug, PartialEq, Eq, Structural, Clone, Copy)]
pub enum TestKind {
    Frequency,
    Runs,
    Fft,
    Universal,
    CumulativeSumsForward,
    CumulativeSumsReverse,
    BlockFrequency,
    NonOverlappingTemplate,
    OverlappingTemplate,
    LongestRun,
    Rank,
    ApproximateEntropy,
    SerialFirst,
    SerialSecond,
    RandomExcursions,
    RandomExcursionsVariant,
    LinearComplexity,
}

/// One entry of the test table: which primitive, its display name, the
/// tier it needs and its own minimum bit count, if any.
#[derive(Debug)]
pub struct NistTestDefinition {
    pub name: String,
    pub tier: u8,
    pub min_bits: Option<usize>,
    pub kind: TestKind,
}

/// Whether a test with the given gates runs at this tier and length.
pub open spec fn spec_should_run(tier: u8, min_bits: Option<usize>, tier_level: u8, bit_count: nat) -> bool {
    &&& tier_level >= tier
    &&& (min_bits matches Some(m) ==> bit_count >= m)
}

impl NistTestDefinition {
    /// Whether this test runs at the given tier and bit count.
    pub fn should_run(&self, tier_level: u8, bit_count: usize) -> (r: bool)
        ensures
            r == spec_should_run(self.tier, self.min_bits, tier_level, bit_count as nat),
    {
        if tier_level < self.tier {
            return false;
        }
        if let Some(m) = self.min_bits {
            if bit_count < m {
                return false;
            }
        }
        true
    }
}

/// How one test is to be executed at a given length: directly, with a
/// computed parameter, or not at all because its own precondition is
/// not statistically meaningful yet.
#[derive(Debug, PartialEq, Eq, Structural, Clone, Copy)]
pub enum TestPlan {
    Run,
    RunWith { parameter: usize },
    Skip,
}

/// The parameter plan of each test kind at a given length.
pub open spec fn spec_parameter_plan(kind: TestKind, bit_count: nat) -> TestPlan {
    match kind {
        TestKind::BlockFrequency => {
            let block = if bit_count >= 1_000 {
                100 as nat
            } else {
                bit_count / 10
            };
            if block > 0 {
                TestPlan::RunWith { parameter: block as usize }
            } else {
                TestPlan::Skip
            }
        },
        TestKind::NonOverlappingTemplate => TestPlan::RunWith { parameter: 9 },
        TestKind::OverlappingTemplate => TestPlan::RunWith { parameter: 9 },
        TestKind::ApproximateEntropy => {
            let m = if bit_count / 100 < 10 {
                bit_count / 100
            } else {
                10 as nat
            };
            if m >= 2 {
                TestPlan::RunWith { parameter: m as usize }
            } else {
                TestPlan::Skip
            }
        },
        TestKind::SerialFirst | TestKind::SerialSecond => {
            let m = if bit_count / 100 < 16 {
                bit_count / 100
            } else {
                16 as nat
            };
            if m >= 2 {
                TestPlan::RunWith { parameter: m as usize }
            } else {
                TestPlan::Skip
            }
        },
        TestKind::LinearComplexity => {
            let block = if bit_count / 100 < 500 {
                bit_count / 100
            } else {
                500 as nat
            };
            if block >= 100 {
                TestPlan::RunWith { parameter: block as usize }
            } else {
                TestPlan::Skip
            }
        },
        _ => TestPlan::Run,
    }
}

/// Compute how a test kind is to be executed on this many bits.
pub fn parameter_plan(kind: &TestKind, bit_count: usize) -> (r: TestPlan)
    ensures
        r == spec_parameter_plan(*kind, bit_count as nat),
{
    match kind {
        TestKind::BlockFrequency => {
            let block: usize = if bit_count >= 1_000 {
                100
            } else {
                bit_count / 10
            };
            if block > 0 {
                TestPlan::RunWith { parameter: block }
            } else {
                TestPlan::Skip
            }
        },
        TestKind::NonOverlappingTemplate => TestPlan::RunWith { parameter: 9 },
        TestKind::OverlappingTemplate => TestPlan::RunWith { parameter: 9 },
        TestKind::ApproximateEntropy => {
            let q = bit_count / 100;
            let m: usize = if q < 10 {
                q
            } else {
                10
            };
            if m >= 2 {
                TestPlan::RunWith { parameter: m }
            } else {
                TestPlan::Skip
            }
        },
        TestKind::SerialFirst | TestKind::SerialSecond => {
            let q = bit_count / 100;
            let m: usize = if q < 16 {
                q
            } else {
                16
            };
            if m >= 2 {
                TestPlan::RunWith { parameter: m }
            } else {
                TestPlan::Skip
            }
        },
        TestKind::LinearComplexity => {
            let q = bit_count / 100;
            let block: usize = if q < 500 {
                q
            } else {
                500
            };
            if block >= 100 {
                TestPlan::RunWith { parameter: block }
            } else {
                TestPlan::Skip
            }
        },
        _ => TestPlan::Run,
    }
}

/// The full test table: the single source of truth for every available
/// test, its tier and its own minimum bit count.
pub fn get_all_tests() -> (r: Vec<NistTestDefinition>)
    ensures
        r@.len() == 17,
        r@[0].kind == TestKind::Frequency && r@[0].tier == 1 && r@[0].min_bits is None
            && r@[0].name@ == "Frequency"@,
        r@[1].kind == TestKind::Runs && r@[1].tier == 1 && r@[1].min_bits is None
            && r@[1].name@ == "Runs"@,
        r@[2].kind == TestKind::Fft && r@[2].tier == 1 && r@[2].min_bits is None
            && r@[2].name@ == "FFT"@,
        r@[3].kind == TestKind::Universal && r@[3].tier == 1 && r@[3].min_bits == Some(1000usize)
            && r@[3].name@ == "Universal"@,
        r@[4].kind == TestKind::CumulativeSumsForward && r@[4].tier == 1 && r@[4].min_bits is None
            && r@[4].name@ == "CumulativeSums-Forward"@,
        r@[5].kind == TestKind::CumulativeSumsReverse && r@[5].tier == 1 && r@[5].min_bits is None
            && r@[5].name@ == "CumulativeSums-Reverse"@,
        r@[6].kind == TestKind::BlockFrequency && r@[6].tier == 2 && r@[6].min_bits is None
            && r@[6].name@ == "BlockFrequency"@,
        r@[7].kind == TestKind::NonOverlappingTemplate && r@[7].tier == 2 && r@[7].min_bits is None
            && r@[7].name@ == "NonOverlappingTemplate"@,
        r@[8].kind == TestKind::OverlappingTemplate && r@[8].tier == 2 && r@[8].min_bits is None
            && r@[8].name@ == "OverlappingTemplate"@,
        r@[9].kind == TestKind::LongestRun && r@[9].tier == 3 && r@[9].min_bits is None
            && r@[9].name@ == "LongestRun"@,
        r@[10].kind == TestKind::Rank && r@[10].tier == 3 && r@[10].min_bits is None
            && r@[10].name@ == "Rank"@,
        r@[11].kind == TestKind::ApproximateEntropy && r@[11].tier == 3 && r@[11].min_bits
            == Some(200usize) && r@[11].name@ == "ApproximateEntropy"@,
        r@[12].kind == TestKind::SerialFirst && r@[12].tier == 3 && r@[12].min_bits
            == Some(200usize) && r@[12].name@ == "Serial-1"@,
        r@[13].kind == TestKind::SerialSecond && r@[13].tier == 3 && r@[13].min_bits
            == Some(200usize) && r@[13].name@ == "Serial-2"@,
        r@[14].kind == TestKind::RandomExcursions && r@[14].tier == 4 && r@[14].min_bits is None
            && r@[14].name@ == "RandomExcursions"@,
        r@[15].kind == TestKind::RandomExcursionsVariant && r@[15].tier == 4 && r@[15].min_bits
            is None && r@[15].name@ == "RandomExcursionsVariant"@,
        r@[16].kind == TestKind::LinearComplexity && r@[16].tier == 4 && r@[16].min_bits
            == Some(10000usize) && r@[16].name@ == "LinearComplexity"@,
{
    let mut r: Vec<NistTestDefinition> = Vec::new();
    r.push(NistTestDefinition {
        name: String::from_str("Frequency"),
        tier: 1,
        min_bits: None,
        kind: TestKind::Frequency,
    });
    r.push(NistTestDefinition {
        name: String::from_str("Runs"),
        tier: 1,
        min_bits: None,
        kind: TestKind::Runs,
    });
    r.push(NistTestDefinition {
        name: String::from_str("FFT"),
        tier: 1,
        min_bits: None,
        kind: TestKind::Fft,
    });
    r.push(NistTestDefinition {
        name: String::from_str("Universal"),
        tier: 1,
        min_bits: Some(1000),
        kind: TestKind::Universal,
    });
    r.push(NistTestDefinition {
        name: String::from_str("CumulativeSums-Forward"),
        tier: 1,
        min_bits: None,
        kind: TestKind::CumulativeSumsForward,
    });
    r.push(NistTestDefinition {
        name: String::from_str("CumulativeSums-Reverse"),
        tier: 1,
        min_bits: None,
        kind: TestKind::CumulativeSumsReverse,
    });
    r.push(NistTestDefinition {
        name: String::from_str("BlockFrequency"),
        tier: 2,
        min_bits: None,
        kind: TestKind::BlockFrequency,
    });
    r.push(NistTestDefinition {
        name: String::from_str("NonOverlappingTemplate"),
        tier: 2,
        min_bits: None,
        kind: TestKind::NonOverlappingTemplate,
    });
    r.push(NistTestDefinition {
        name: String::from_str("OverlappingTemplate"),
        tier: 2,
        min_bits: None,
        kind: TestKind::OverlappingTemplate,
    });
    r.push(NistTestDefinition {
        name: String::from_str("LongestRun"),
        tier: 3,
        min_bits: None,
        kind: TestKind::LongestRun,
    });
    r.push(NistTestDefinition {
        name: String::from_str("Rank"),
        tier: 3,
        min_bits: None,
        kind: TestKind::Rank,
    });
    r.push(NistTestDefinition {
        name: String::from_str("ApproximateEntropy"),
        tier: 3,
        min_bits: Some(200),
        kind: TestKind::ApproximateEntropy,
    });
    r.push(NistTestDefinition {
        name: String::from_str("Serial-1"),
        tier: 3,
        min_bits: Some(200),
        kind: TestKind::SerialFirst,
    });
    r.push(NistTestDefinition {
        name: String::from_str("Serial-2"),
        tier: 3,
        min_bits: Some(200),
        kind: TestKind::SerialSecond,
    });
    r.push(NistTestDefinition {
        name: String::from_str("RandomExcursions"),
        tier: 4,
        min_bits: None,
        kind: TestKind::RandomExcursions,
    });
    r.push(NistTestDefinition {
        name: String::from_str("RandomExcursionsVariant"),
        tier: 4,
        min_bits: None,
        kind: TestKind::RandomExcursionsVariant,
    });
    r.push(NistTestDefinition {
        name: String::from_str("LinearComplexity"),
        tier: 4,
        min_bits: Some(10000),
        kind: TestKind::LinearComplexity,
    });
    r
}

/// The tier check at the head of a test run: too few bits for the first
/// tier is the signal to fall back to the simplified analyzer.
pub fn check_tier(bit_count: usize) -> (r: Result<TierDescriptor, crate::errors::EncodeError>)
    ensures
        bit_count >= 100 ==> (r matches Ok(t) && t.level == tier_level_for(bit_count as nat)
            && t.level >= 1 && t.min_bits as nat == tier_min_bits(t.level)
            && t.recommended_bits as nat == tier_recommended_bits(t.level)),
        bit_count < 100 ==> r == Result::<TierDescriptor, crate::errors::EncodeError>::Err(
            crate::errors::EncodeError::InsufficientData { bit_count },
        ),
{
    let tier = determine_tier(bit_count);
    if tier.level == 0 {
        Err(crate::errors::EncodeError::InsufficientData { bit_count })
    } else {
        Ok(tier)
    }
}

} // verus!
