//! Collision handling: which path a file gets when the wanted one may be
//! taken.
//!
//! Whether a path is taken is for the caller to find out. A [`Resolver`] names
//! the path it needs to know about, is told whether something exists there,
//! and goes on until the question is settled.

use vstd::prelude::*;
use crate::decimal::{decimal, push_decimal};
use crate::path::{append_suffix_before_ext, with_suffix};
use crate::template::CollisionStrategy;
use crate::text::{push_text, same_text};

verus! {

/// The text that the `n`-th attempt puts behind the stem: ` (n)`.
pub open spec fn suffix_text(n: nat) -> Seq<char> {
    seq![' ', '('] + decimal(n) + seq![')']
}

/// The path tried at the `n`-th attempt: the wanted path itself at first,
/// then the wanted path with ` (n)` behind its stem.
pub open spec fn candidate(desired: Seq<char>, n: nat) -> Seq<char> {
    if n == 0 {
        desired
    } else {
        with_suffix(desired, suffix_text(n))
    }
}

/// What becomes of one file.
#[derive(Debug, PartialEq, Eq)]
pub enum Resolution {
    /// It is renamed to this path.
    Target(String),
    /// It stays as it is.
    NoOp,
    /// No free name was found within the allowed number of attempts.
    Unresolved,
}

pub enum ResolutionView {
    Target(Seq<char>),
    NoOp,
    Unresolved,
}

impl View for Resolution {
    type V = ResolutionView;

    open spec fn view(&self) -> ResolutionView {
        match self {
            Resolution::Target(path) => ResolutionView::Target(path@),
            Resolution::NoOp => ResolutionView::NoOp,
            Resolution::Unresolved => ResolutionView::Unresolved,
        }
    }
}

impl Clone for Resolution {
    fn clone(&self) -> (out: Resolution)
        ensures
            out@ == self@,
    {
        match self {
            Resolution::Target(path) => Resolution::Target(path.clone()),
            Resolution::NoOp => Resolution::NoOp,
            Resolution::Unresolved => Resolution::Unresolved,
        }
    }
}

/// A file whose new path is its old one is left alone.
pub open spec fn settled(path: Seq<char>, origin: Seq<char>) -> ResolutionView {
    if path == origin {
        ResolutionView::NoOp
    } else {
        ResolutionView::Target(path)
    }
}

/// The number of the first attempt from `from` to `max` whose path is not in
/// `present`.
pub open spec fn first_free(desired: Seq<char>, present: Set<Seq<char>>, from: nat, max: nat) -> Option<nat>
    decreases max + 1 - from,
{
    if from > max {
        None
    } else if !present.contains(candidate(desired, from)) {
        Some(from)
    } else {
        first_free(desired, present, from + 1, max)
    }
}

/// The first free attempt lies in the range that was searched, and its path
/// is not taken.
pub proof fn lemma_first_free(desired: Seq<char>, present: Set<Seq<char>>, from: nat, max: nat)
    ensures
        first_free(desired, present, from, max) matches Some(n) ==> from <= n <= max
            && !present.contains(candidate(desired, n)),
    decreases max + 1 - from,
{
    if from <= max && present.contains(candidate(desired, from)) {
        lemma_first_free(desired, present, from + 1, max);
    }
}

/// What becomes of a file at `origin` that is to be at `desired` when the
/// paths in `present` are taken and at most `max` suffixes are tried.
///
/// `Overwrite` takes the wanted path whatever is there. `Skip` leaves the file
/// alone if the wanted path is taken. `Suffix` takes the wanted path if it is
/// free and otherwise the first free one among ` (1)` to ` (max)`; if none of
/// them is free the collision is unresolved. In every case a file whose new
/// path is the one it has already is left alone.
pub open spec fn resolve(
    desired: Seq<char>,
    origin: Seq<char>,
    strategy: CollisionStrategy,
    present: Set<Seq<char>>,
    max: nat,
) -> ResolutionView {
    match strategy {
        CollisionStrategy::Overwrite => settled(desired, origin),
        CollisionStrategy::Skip => if present.contains(desired) {
            ResolutionView::NoOp
        } else {
            settled(desired, origin)
        },
        CollisionStrategy::Suffix => match first_free(desired, present, 0, max) {
            Some(n) => settled(candidate(desired, n), origin),
            None => ResolutionView::Unresolved,
        },
    }
}

/// What follows from one answer.
#[derive(Debug, PartialEq, Eq)]
pub enum Decision {
    /// The question is settled.
    Final(Resolution),
    /// The attempt with this number is to be tried next.
    Retry(u32),
}

pub enum DecisionView {
    Final(ResolutionView),
    Retry(nat),
}

impl View for Decision {
    type V = DecisionView;

    open spec fn view(&self) -> DecisionView {
        match self {
            Decision::Final(r) => DecisionView::Final(r@),
            Decision::Retry(n) => DecisionView::Retry(*n as nat),
        }
    }
}

/// What follows when the path of attempt `attempt` is known to exist or not.
pub open spec fn decision(
    desired: Seq<char>,
    origin: Seq<char>,
    strategy: CollisionStrategy,
    max: nat,
    attempt: nat,
    exists: bool,
) -> DecisionView {
    if !exists {
        DecisionView::Final(settled(candidate(desired, attempt), origin))
    } else {
        match strategy {
            CollisionStrategy::Overwrite => DecisionView::Final(settled(desired, origin)),
            CollisionStrategy::Skip => DecisionView::Final(ResolutionView::NoOp),
            CollisionStrategy::Suffix => if attempt < max {
                DecisionView::Retry(attempt + 1)
            } else {
                DecisionView::Final(ResolutionView::Unresolved)
            },
        }
    }
}

/// The path of attempt `attempt`.
pub fn candidate_path(desired: &str, attempt: u32) -> (out: String)
    ensures
        out@ == candidate(desired@, attempt as nat),
{
    if attempt == 0 {
        let mut out = String::new();
        push_text(&mut out, desired);
        assert(out@ =~= desired@);
        out
    } else {
        let mut suffix = String::new();
        suffix.push(' ');
        suffix.push('(');
        push_decimal(&mut suffix, attempt as u128);
        suffix.push(')');
        assert(suffix@ =~= suffix_text(attempt as nat));
        append_suffix_before_ext(desired, suffix.as_str())
    }
}

/// The resolution that takes `path`, unless the file is there already.
pub fn settle_on(path: String, origin: &str) -> (out: Resolution)
    ensures
        out@ == settled(path@, origin@),
{
    let same = same_text(path.as_str(), origin);
    if same {
        Resolution::NoOp
    } else {
        Resolution::Target(path)
    }
}

/// What follows when the path of attempt `attempt` is known to exist or not.
pub fn decide(
    desired: &str,
    origin: &str,
    strategy: CollisionStrategy,
    max_probes: u32,
    attempt: u32,
    exists: bool,
) -> (out: Decision)
    ensures
        out@ == decision(desired@, origin@, strategy, max_probes as nat, attempt as nat, exists),
{
    if !exists {
        Decision::Final(settle_on(candidate_path(desired, attempt), origin))
    } else {
        match strategy {
            CollisionStrategy::Overwrite => Decision::Final(
                settle_on(candidate_path(desired, 0), origin),
            ),
            CollisionStrategy::Skip => Decision::Final(Resolution::NoOp),
            CollisionStrategy::Suffix => if attempt < max_probes {
                Decision::Retry(attempt + 1)
            } else {
                Decision::Final(Resolution::Unresolved)
            },
        }
    }
}

/// The state of a resolver as a mathematical value.
pub struct ResolverView {
    pub desired: Seq<char>,
    pub origin: Seq<char>,
    pub strategy: CollisionStrategy,
    pub max: nat,
    /// The number of the attempt whose path is asked about.
    pub attempt: nat,
    /// What was found, once the question is settled.
    pub verdict: Option<ResolutionView>,
}

impl ResolverView {
    /// The state before the first answer. Under `Overwrite` nothing needs to
    /// be asked.
    pub open spec fn start(
        desired: Seq<char>,
        origin: Seq<char>,
        strategy: CollisionStrategy,
        max: nat,
    ) -> ResolverView {
        ResolverView {
            desired,
            origin,
            strategy,
            max,
            attempt: 0,
            verdict: if strategy is Overwrite {
                Some(settled(desired, origin))
            } else {
                None
            },
        }
    }

    /// The path that the resolver needs to know about, if it still needs to
    /// know anything.
    pub open spec fn request(self) -> Option<Seq<char>> {
        if self.verdict is None {
            Some(candidate(self.desired, self.attempt))
        } else {
            None
        }
    }

    /// The state after the answer `exists` to the pending question. With no
    /// question pending the state stays as it is.
    pub open spec fn step(self, exists: bool) -> ResolverView {
        if self.verdict is Some {
            self
        } else {
            match decision(
                self.desired,
                self.origin,
                self.strategy,
                self.max,
                self.attempt,
                exists,
            ) {
                DecisionView::Final(r) => ResolverView { verdict: Some(r), ..self },
                DecisionView::Retry(n) => ResolverView { attempt: n, ..self },
            }
        }
    }

    /// How many answers the resolver can still ask for, at most.
    pub open spec fn budget(self) -> nat {
        if self.verdict is Some {
            0
        } else if self.attempt <= self.max {
            (self.max - self.attempt + 1) as nat
        } else {
            1
        }
    }

    /// The state in which the resolver ends when every question is answered
    /// after `present`.
    pub open spec fn settle(self, present: Set<Seq<char>>) -> ResolverView
        decreases self.budget(),
    {
        match self.request() {
            None => self,
            Some(path) => self.step(present.contains(path)).settle(present),
        }
    }
}

/// Answered truthfully, a resolver ends with the resolution that [`resolve`]
/// defines.
pub proof fn lemma_resolver_settles(
    desired: Seq<char>,
    origin: Seq<char>,
    strategy: CollisionStrategy,
    present: Set<Seq<char>>,
    max: nat,
)
    ensures
        ResolverView::start(desired, origin, strategy, max).settle(present).verdict == Some(
            resolve(desired, origin, strategy, present, max),
        ),
{
    let begin = ResolverView::start(desired, origin, strategy, max);
    match strategy {
        CollisionStrategy::Overwrite => {},
        CollisionStrategy::Skip => {
            let after = begin.step(present.contains(desired));
            assert(after.verdict is Some);
            assert(after.settle(present) == after);
        },
        CollisionStrategy::Suffix => {
            lemma_suffix_settles(begin, present);
        },
    }
}

/// Under `Suffix` a resolver that is asking about attempt `n` ends with the
/// first free attempt from `n` on.
pub proof fn lemma_suffix_settles(state: ResolverView, present: Set<Seq<char>>)
    requires
        state.strategy is Suffix,
        state.verdict is None,
        state.attempt <= state.max,
    ensures
        state.settle(present).verdict == Some(
            match first_free(state.desired, present, state.attempt, state.max) {
                Some(n) => settled(candidate(state.desired, n), state.origin),
                None => ResolutionView::Unresolved,
            },
        ),
        state.settle(present).desired == state.desired,
        state.settle(present).origin == state.origin,
    decreases state.max - state.attempt,
{
    let exists = present.contains(candidate(state.desired, state.attempt));
    let after = state.step(exists);
    if !exists {
        assert(after.settle(present) == after);
    } else if state.attempt < state.max {
        lemma_suffix_settles(after, present);
    } else {
        assert(after.settle(present) == after);
        assert(first_free(state.desired, present, state.attempt + 1, state.max) is None);
    }
}

/// A resolver for one file.
pub struct Resolver {
    desired: String,
    origin: String,
    strategy: CollisionStrategy,
    max_probes: u32,
    attempt: u32,
    verdict: Option<Resolution>,
}

impl View for Resolver {
    type V = ResolverView;

    closed spec fn view(&self) -> ResolverView {
        ResolverView {
            desired: self.desired@,
            origin: self.origin@,
            strategy: self.strategy,
            max: self.max_probes as nat,
            attempt: self.attempt as nat,
            verdict: match self.verdict {
                Some(r) => Some(r@),
                None => None,
            },
        }
    }
}

impl Resolver {
    /// A resolver for the file at `origin` that is to be at `desired`. Under
    /// `Suffix` it tries at most `max_probes` suffixes.
    pub fn new(desired: String, origin: String, strategy: CollisionStrategy, max_probes: u32) -> (out:
        Resolver)
        ensures
            out@ == ResolverView::start(desired@, origin@, strategy, max_probes as nat),
    {
        let verdict = match strategy {
            CollisionStrategy::Overwrite => Some(
                settle_on(candidate_path(desired.as_str(), 0), origin.as_str()),
            ),
            _ => None,
        };
        Resolver { desired, origin, strategy, max_probes, attempt: 0, verdict }
    }

    /// The path whose existence is to be looked up next, or `None` when the
    /// question is settled.
    pub fn request(&self) -> (out: Option<String>)
        ensures
            match out {
                Some(path) => self@.request() == Some(path@),
                None => self@.request() is None,
            },
    {
        match &self.verdict {
            Some(_) => None,
            None => Some(candidate_path(self.desired.as_str(), self.attempt)),
        }
    }

    /// Takes note of whether something exists at the path asked about. With
    /// no question pending nothing changes.
    pub fn answer(&mut self, exists: bool)
        ensures
            final(self)@ == old(self)@.step(exists),
    {
        if self.verdict.is_some() {
            return ;
        }
        match decide(
            self.desired.as_str(),
            self.origin.as_str(),
            self.strategy,
            self.max_probes,
            self.attempt,
            exists,
        ) {
            Decision::Final(r) => {
                self.verdict = Some(r);
            },
            Decision::Retry(n) => {
                self.attempt = n;
            },
        }
    }

    /// What was found, or `None` while a question is pending.
    pub fn resolution(&self) -> (out: Option<Resolution>)
        ensures
            match out {
                Some(r) => self@.verdict == Some(r@),
                None => self@.verdict is None,
            },
    {
        match &self.verdict {
            Some(r) => Some(r.clone()),
            None => None,
        }
    }
}

} // verus!
