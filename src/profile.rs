use vstd::prelude::*;

verus! {

/// What a profiling run measured.
#[derive(Clone, Copy, Debug, PartialEq, Eq, Structural)]
pub enum ProfileMode {
    HeapSummaryAllocated,
    HeapSummaryRetained,
    HeapFlameAllocated,
    HeapFlameRetained,
    Statement,
    Coverage,
    Bytecode,
    BytecodePairs,
    TimeFlame,
    Typecheck,
}

/// The name of a profile mode, as given on a command line.
pub open spec fn mode_name(m: ProfileMode) -> Seq<char> {
    match m {
        ProfileMode::HeapSummaryAllocated => "heap-summary-allocated"@,
        ProfileMode::HeapSummaryRetained => "heap-summary-retained"@,
        ProfileMode::HeapFlameAllocated => "heap-flame-allocated"@,
        ProfileMode::HeapFlameRetained => "heap-flame-retained"@,
        ProfileMode::Statement => "statement"@,
        ProfileMode::Coverage => "coverage"@,
        ProfileMode::Bytecode => "bytecode"@,
        ProfileMode::BytecodePairs => "bytecode-pairs"@,
        ProfileMode::TimeFlame => "time-flame"@,
        ProfileMode::Typecheck => "typecheck"@,
    }
}

impl ProfileMode {
    /// The name of the mode (see `mode_name`).
    pub fn name(&self) -> (r: &'static str)
        ensures
            r@ == mode_name(*self),
    {
        match self {
            ProfileMode::HeapSummaryAllocated => "heap-summary-allocated",
            ProfileMode::HeapSummaryRetained => "heap-summary-retained",
            ProfileMode::HeapFlameAllocated => "heap-flame-allocated",
            ProfileMode::HeapFlameRetained => "heap-flame-retained",
            ProfileMode::Statement => "statement",
            ProfileMode::Coverage => "coverage",
            ProfileMode::Bytecode => "bytecode",
            ProfileMode::BytecodePairs => "bytecode-pairs",
            ProfileMode::TimeFlame => "time-flame",
            ProfileMode::Typecheck => "typecheck",
        }
    }
}

/// Collected profiling data, already rendered to text (e.g. CSV or a
/// flame graph).
#[derive(Clone, Debug)]
pub struct ProfileData {
    pub profile_mode: ProfileMode,
    pub profile: String,
}

impl ProfileData {
    /// Profiling data of mode `profile_mode` rendered as `profile`.
    pub fn new(profile_mode: ProfileMode, profile: String) -> (r: ProfileData)
        ensures
            r.profile_mode == profile_mode,
            r.profile@ == profile@,
    {
        ProfileData { profile_mode, profile }
    }

    /// The profile's text.
    pub fn gen(&self) -> (r: String)
        ensures
            r@ == self.profile@,
    {
        self.profile.clone()
    }
}

} // verus!
