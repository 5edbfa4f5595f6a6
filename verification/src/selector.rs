//! The closed sets of hash backends and of input data patterns.

use crate::text::{lemma_text_lt_at, lemma_text_lt_irreflexive, text_lt};
use vstd::prelude::*;

verus! {

/// One hash backend that the harness can time.
#[derive(Clone, Copy, Debug, PartialEq, Eq, Structural)]
pub enum ImplKind {
    Blake3Single,
    Blake3Parallel,
    Blake2b256,
    Blake2s256,
}

/// One way of filling an input buffer.
#[derive(Clone, Copy, Debug, PartialEq, Eq, Structural)]
pub enum Pattern {
    Random,
    Zero,
    Repeat16,
}

impl ImplKind {
    /// The backends that are timed when none is chosen, in run order. The
    /// multithreaded backend sits in second place and only on request.
    pub open spec fn all_spec(include_parallel: bool) -> Seq<ImplKind> {
        if include_parallel {
            seq![
                ImplKind::Blake3Single,
                ImplKind::Blake3Parallel,
                ImplKind::Blake2b256,
                ImplKind::Blake2s256,
            ]
        } else {
            seq![ImplKind::Blake3Single, ImplKind::Blake2b256, ImplKind::Blake2s256]
        }
    }

    /// The text under which a backend appears in reports.
    pub open spec fn name_spec(self) -> Seq<char> {
        match self {
            ImplKind::Blake3Single => "blake3_single"@,
            ImplKind::Blake3Parallel => "blake3_parallel"@,
            ImplKind::Blake2b256 => "blake2b_256"@,
            ImplKind::Blake2s256 => "blake2s_256v1"@,
        }
    }

    /// Place of a backend when backends are put in the order of their names.
    pub open spec fn name_rank(self) -> nat {
        match self {
            ImplKind::Blake2b256 => 0,
            ImplKind::Blake2s256 => 1,
            ImplKind::Blake3Parallel => 2,
            ImplKind::Blake3Single => 3,
        }
    }

    /// Place of this backend in the order of names.
    pub fn rank(self) -> (r: u8)
        ensures
            r == self.name_rank(),
    {
        match self {
            ImplKind::Blake2b256 => 0,
            ImplKind::Blake2s256 => 1,
            ImplKind::Blake3Parallel => 2,
            ImplKind::Blake3Single => 3,
        }
    }

    /// The backends that are timed when none is chosen.
    pub fn all(include_parallel: bool) -> (v: Vec<ImplKind>)
        ensures
            v@ == Self::all_spec(include_parallel),
    {
        let mut v: Vec<ImplKind> = Vec::new();
        v.push(ImplKind::Blake3Single);
        v.push(ImplKind::Blake2b256);
        v.push(ImplKind::Blake2s256);
        if include_parallel {
            v.insert(1, ImplKind::Blake3Parallel);
        }
        assert(v@ =~= Self::all_spec(include_parallel));
        v
    }

    /// The name of this backend in reports.
    pub fn name(self) -> (s: &'static str)
        ensures
            s@ == self.name_spec(),
    {
        match self {
            ImplKind::Blake3Single => "blake3_single",
            ImplKind::Blake3Parallel => "blake3_parallel",
            ImplKind::Blake2b256 => "blake2b_256",
            ImplKind::Blake2s256 => "blake2s_256v1",
        }
    }
}

impl Pattern {
    /// Every pattern, in the order in which buffers are made.
    pub open spec fn all_spec() -> Seq<Pattern> {
        seq![Pattern::Random, Pattern::Zero, Pattern::Repeat16]
    }

    /// The text under which a pattern appears in reports.
    pub open spec fn name_spec(self) -> Seq<char> {
        match self {
            Pattern::Random => "random"@,
            Pattern::Zero => "zero"@,
            Pattern::Repeat16 => "repeat16"@,
        }
    }

    /// Place of a pattern when patterns are put in the order of their names.
    pub open spec fn name_rank(self) -> nat {
        match self {
            Pattern::Random => 0,
            Pattern::Repeat16 => 1,
            Pattern::Zero => 2,
        }
    }

    /// Place of this pattern in the order of names.
    pub fn rank(self) -> (r: u8)
        ensures
            r == self.name_rank(),
    {
        match self {
            Pattern::Random => 0,
            Pattern::Repeat16 => 1,
            Pattern::Zero => 2,
        }
    }

    /// Every pattern.
    pub fn all() -> (v: &'static [Pattern])
        ensures
            v@ == Self::all_spec(),
    {
        &[Pattern::Random, Pattern::Zero, Pattern::Repeat16]
    }

    /// The name of this pattern in reports.
    pub fn name(self) -> (s: &'static str)
        ensures
            s@ == self.name_spec(),
    {
        match self {
            Pattern::Random => "random",
            Pattern::Zero => "zero",
            Pattern::Repeat16 => "repeat16",
        }
    }
}

/// Ranks order the patterns as their names do.
pub proof fn lemma_pattern_rank_orders_names(a: Pattern, b: Pattern)
    ensures
        a.name_rank() < b.name_rank() <==> text_lt(a.name_spec(), b.name_spec()),
        a.name_rank() == b.name_rank() <==> a == b,
{
    reveal_strlit("random");
    reveal_strlit("repeat16");
    reveal_strlit("zero");
    let random = Pattern::Random.name_spec();
    let repeat = Pattern::Repeat16.name_spec();
    let zero = Pattern::Zero.name_spec();
    lemma_text_lt_at(random, repeat, 1);
    lemma_text_lt_at(random, zero, 0);
    lemma_text_lt_at(repeat, zero, 0);
    lemma_text_lt_irreflexive(a.name_spec());
}

/// Ranks order the backends as their names do.
pub proof fn lemma_impl_rank_orders_names(a: ImplKind, b: ImplKind)
    ensures
        a.name_rank() < b.name_rank() <==> text_lt(a.name_spec(), b.name_spec()),
        a.name_rank() == b.name_rank() <==> a == b,
{
    reveal_strlit("blake3_single");
    reveal_strlit("blake3_parallel");
    reveal_strlit("blake2b_256");
    reveal_strlit("blake2s_256v1");
    let b2b = ImplKind::Blake2b256.name_spec();
    let b2s = ImplKind::Blake2s256.name_spec();
    let b3p = ImplKind::Blake3Parallel.name_spec();
    let b3s = ImplKind::Blake3Single.name_spec();
    lemma_text_lt_at(b2b, b2s, 6);
    lemma_text_lt_at(b2b, b3p, 5);
    lemma_text_lt_at(b2b, b3s, 5);
    lemma_text_lt_at(b2s, b3p, 5);
    lemma_text_lt_at(b2s, b3s, 5);
    lemma_text_lt_at(b3p, b3s, 7);
    lemma_text_lt_irreflexive(a.name_spec());
}

} // verus!
