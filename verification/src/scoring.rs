//! Scoring a finished game: how many levels the landlord's team or the other
//! team go up, given the points the non-landlord team took.

use std::collections::HashMap;

use vstd::prelude::*;
use vstd::std_specs::cmp::PartialEqSpecImpl;
use vstd::std_specs::iter::IteratorSpec;

verus! {

pub const POINTS_PER_DECK: usize = 100;

/// Why scoring parameters or a score were refused.
#[derive(Debug, Copy, Clone, PartialEq, Eq, Structural)]
pub enum ScoringError {
    /// The number of steps to turn the game over to the non-landlords is 0.
    LandlordCannotWin,
    /// The step size is 0 or more than all the points of the decks.
    StepSizeOutOfRange,
    StepSizeNotMultipleOfFive,
    /// One of the two sides has no scoring window.
    NoWindowForOneSide,
    /// The landlord's last winning window does not end where the first losing
    /// window starts.
    WindowsDoNotMeet,
    EmptyWindow,
    WindowNotMultipleOfFive,
    OverlappingWindows,
    MissingWindow,
    /// No window within reach holds the score.
    ScoreOutOfWindows,
    /// The score does not change within the range that is searched.
    NoNextRelevantScore,
}

#[derive(Debug, Copy, Clone, PartialEq, Eq, Structural)]
pub enum BonusLevelPolicy {
    NoBonusLevel,
    BonusLevelForSmallerLandlordTeam,
}

impl Default for BonusLevelPolicy {
    fn default() -> (r: Self)
        ensures
            r == BonusLevelPolicy::BonusLevelForSmallerLandlordTeam,
    {
        BonusLevelPolicy::BonusLevelForSmallerLandlordTeam
    }
}

/// The result of scoring before any bonus level.
#[derive(Debug, Copy, Clone, PartialEq, Eq, Structural)]
pub struct PartialGameScoreResult {
    pub landlord_won: bool,
    pub landlord_delta: usize,
    pub non_landlord_delta: usize,
}

impl PartialGameScoreResult {
    pub open spec fn won(self) -> bool {
        self.landlord_won
    }

    pub open spec fn landlord_levels(self) -> usize {
        self.landlord_delta
    }

    pub open spec fn non_landlord_levels(self) -> usize {
        self.non_landlord_delta
    }

    pub fn landlord_won(&self) -> (r: bool)
        ensures
            r == self.won(),
    {
        self.landlord_won
    }

    pub fn landlord_delta(&self) -> (r: usize)
        ensures
            r == self.landlord_levels(),
    {
        self.landlord_delta
    }

    pub fn non_landlord_delta(&self) -> (r: usize)
        ensures
            r == self.non_landlord_levels(),
    {
        self.non_landlord_delta
    }
}

#[derive(Debug, Copy, Clone, PartialEq, Eq, Structural)]
pub struct GameScoreResult {
    pub landlord_won: bool,
    pub landlord_bonus: bool,
    pub landlord_delta: usize,
    pub non_landlord_delta: usize,
}

/// Whether the landlord's team earns a bonus level.
pub open spec fn earns_bonus(gsr: PartialGameScoreResult, policy: BonusLevelPolicy, smaller_landlord_team_size: bool) -> bool {
    gsr.won() && policy == BonusLevelPolicy::BonusLevelForSmallerLandlordTeam && smaller_landlord_team_size
}

/// A result with the bonus level added when earned.
pub open spec fn with_bonus(gsr: PartialGameScoreResult, policy: BonusLevelPolicy, smaller_landlord_team_size: bool) -> GameScoreResult {
    let bonus = earns_bonus(gsr, policy, smaller_landlord_team_size);
    GameScoreResult {
        landlord_won: gsr.landlord_won,
        landlord_bonus: bonus,
        landlord_delta: (gsr.landlord_delta + (if bonus { 1int } else { 0int })) as usize,
        non_landlord_delta: gsr.non_landlord_delta,
    }
}

impl GameScoreResult {
    /// Adds the bonus level that a smaller landlord team earns by winning,
    /// when the policy grants one.
    pub fn new(gsr: PartialGameScoreResult, bonus_level_policy: BonusLevelPolicy, smaller_landlord_team_size: bool) -> (r: GameScoreResult)
        requires
            gsr.landlord_levels() < usize::MAX,
        ensures
            r.landlord_won == gsr.won(),
            r.non_landlord_delta == gsr.non_landlord_levels(),
            r.landlord_bonus == earns_bonus(gsr, bonus_level_policy, smaller_landlord_team_size),
            r.landlord_delta == gsr.landlord_levels() + (if r.landlord_bonus { 1int } else { 0int }),
            r == with_bonus(gsr, bonus_level_policy, smaller_landlord_team_size),
    {
        let PartialGameScoreResult { non_landlord_delta, landlord_delta, landlord_won } = gsr;
        if landlord_won && bonus_level_policy == BonusLevelPolicy::BonusLevelForSmallerLandlordTeam && smaller_landlord_team_size {
            GameScoreResult { non_landlord_delta, landlord_delta: landlord_delta + 1, landlord_won, landlord_bonus: true }
        } else {
            GameScoreResult { non_landlord_delta, landlord_delta, landlord_won, landlord_bonus: false }
        }
    }
}

/// How points turn into levels: the size of a step per deck (with
/// adjustments by number of decks), the steps the non-landlords need to take
/// over, and the steps in which neither side goes up.
#[derive(Debug)]
pub struct GameScoringParameters {
    step_size_per_deck: usize,
    step_adjustments: HashMap<usize, isize>,
    num_steps_to_non_landlord_turnover: usize,
    deadzone_size: usize,
    truncate_zero_crossing_window: bool,
    pub bonus_level_policy: BonusLevelPolicy,
}

impl Default for GameScoringParameters {
    fn default() -> (r: Self)
        ensures
            r.step_size_per_deck_spec() == 20,
            r.turnover_steps() == 2,
            r.deadzone() == 1,
            r.truncates() == true,
            r.adjustments() == Map::<usize, isize>::empty(),
            r.bonus_policy() == BonusLevelPolicy::BonusLevelForSmallerLandlordTeam,
    {
        GameScoringParameters {
            step_size_per_deck: 20,
            num_steps_to_non_landlord_turnover: 2,
            deadzone_size: 1,
            truncate_zero_crossing_window: true,
            step_adjustments: HashMap::new(),
            bonus_level_policy: BonusLevelPolicy::default(),
        }
    }
}

impl GameScoringParameters {
    pub closed spec fn step_size_per_deck_spec(self) -> usize {
        self.step_size_per_deck
    }

    pub closed spec fn adjustments(self) -> Map<usize, isize> {
        self.step_adjustments@
    }

    pub closed spec fn turnover_steps(self) -> usize {
        self.num_steps_to_non_landlord_turnover
    }

    pub closed spec fn deadzone(self) -> usize {
        self.deadzone_size
    }

    pub closed spec fn truncates(self) -> bool {
        self.truncate_zero_crossing_window
    }

    pub closed spec fn bonus_policy(self) -> BonusLevelPolicy {
        self.bonus_level_policy
    }

    pub fn bonus_level_policy(&self) -> (r: BonusLevelPolicy)
        ensures
            r == self.bonus_policy(),
    {
        self.bonus_level_policy
    }

    /// Parameters with the given step size per deck, steps to turn the game
    /// over, dead zone and truncation, no adjustments and the given bonus
    /// policy.
    pub fn with_parameters(
        step_size_per_deck: usize,
        num_steps_to_non_landlord_turnover: usize,
        deadzone_size: usize,
        truncate_zero_crossing_window: bool,
        bonus_level_policy: BonusLevelPolicy,
    ) -> (r: Self)
        ensures
            r.step_size_per_deck_spec() == step_size_per_deck,
            r.turnover_steps() == num_steps_to_non_landlord_turnover,
            r.deadzone() == deadzone_size,
            r.truncates() == truncate_zero_crossing_window,
            r.adjustments() == Map::<usize, isize>::empty(),
            r.bonus_policy() == bonus_level_policy,
    {
        GameScoringParameters {
            step_size_per_deck,
            step_adjustments: HashMap::new(),
            num_steps_to_non_landlord_turnover,
            deadzone_size,
            truncate_zero_crossing_window,
            bonus_level_policy,
        }
    }

    /// Sets the step size adjustment for a number of decks.
    pub fn set_step_adjustment(&mut self, num_decks: usize, adjustment: isize)
        ensures
            final(self).adjustments() == old(self).adjustments().insert(num_decks, adjustment),
            final(self).step_size_per_deck_spec() == old(self).step_size_per_deck_spec(),
            final(self).turnover_steps() == old(self).turnover_steps(),
            final(self).deadzone() == old(self).deadzone(),
            final(self).truncates() == old(self).truncates(),
            final(self).bonus_policy() == old(self).bonus_policy(),
    {
        broadcast use vstd::std_specs::hash::group_hash_axioms;
        self.step_adjustments.insert(num_decks, adjustment);
    }

    /// The adjustment to the step size for a number of decks (0 if none).
    pub open spec fn adjustment(self, num_decks: usize) -> int {
        if self.adjustments().contains_key(num_decks) { self.adjustments()[num_decks] as int } else { 0 }
    }

    /// The step size for a number of decks: the step size per deck for each
    /// deck, plus the adjustment.
    pub open spec fn step_size_spec(self, num_decks: usize) -> int {
        num_decks * self.step_size_per_deck_spec() + self.adjustment(num_decks)
    }

    /// What `step_size` gives: the step size unless it is 0, above all the
    /// points of the decks, or not a multiple of 5.
    pub open spec fn step_size_result(self, num_decks: usize, num_points_per_deck: usize) -> Result<usize, ScoringError> {
        let s = self.step_size_spec(num_decks);
        if s == 0 || s > num_decks * num_points_per_deck {
            Err(ScoringError::StepSizeOutOfRange)
        } else if s % 5 != 0 {
            Err(ScoringError::StepSizeNotMultipleOfFive)
        } else {
            Ok(s as usize)
        }
    }

    /// The step size for a number of decks: not 0, at most all the points of
    /// the decks, and a multiple of 5.
    pub fn step_size(&self, num_decks: usize, num_points_per_deck: usize) -> (r: Result<usize, ScoringError>)
        requires
            num_decks * num_points_per_deck <= isize::MAX,
            num_decks * self.step_size_per_deck_spec() <= isize::MAX,
            isize::MIN <= self.step_size_spec(num_decks) <= isize::MAX,
        ensures
            r == self.step_size_result(num_decks, num_points_per_deck),
    {
        broadcast use vstd::std_specs::hash::group_hash_axioms;
        proof {
            assert(0 <= num_decks * num_points_per_deck) by (nonlinear_arith);
            assert(0 <= num_decks * self.step_size_per_deck) by (nonlinear_arith);
        }
        let total_points = (num_decks * num_points_per_deck) as isize;
        let adj: isize = match self.step_adjustments.get(&num_decks) {
            Some(a) => *a,
            None => 0,
        };
        let step_size = (num_decks * self.step_size_per_deck) as isize + adj;
        if step_size == 0 || step_size > total_points {
            Err(ScoringError::StepSizeOutOfRange)
        } else if step_size % 5 != 0 {
            Err(ScoringError::StepSizeNotMultipleOfFive)
        } else {
            Ok(step_size as usize)
        }
    }
}


/// A scoring window that can give the next window beyond it.
pub trait Propagatable: Sized + Copy {
    /// Whether the next window can be computed without overflow.
    spec fn can_propagate(&self) -> bool;

    spec fn propagated(&self) -> Self;

    /// The next window beyond this one.
    fn propagate(self) -> (r: Self)
        requires
            self.can_propagate(),
        ensures
            r == self.propagated(),
    ;
}

/// A window of scores `[start, end)`.
pub trait Window: Sized + Copy {
    spec fn start_spec(&self) -> int;

    spec fn end_spec(&self) -> int;

    fn start(&self) -> (r: isize)
        ensures
            r == self.start_spec(),
    ;

    fn end(&self) -> (r: isize)
        ensures
            r == self.end_spec(),
    ;
}

/// A window of scores in which the landlord's team wins `landlord_delta`
/// levels; from `start` (inclusive) to `end` (exclusive).
#[derive(Debug, Copy, Clone, PartialEq, Eq, Structural)]
pub struct LandlordWinningScoreSegment {
    pub start: isize,
    pub end: isize,
    pub landlord_delta: usize,
}

/// A window of scores in which the non-landlord team wins
/// `non_landlord_delta` levels.
#[derive(Debug, Copy, Clone, PartialEq, Eq, Structural)]
pub struct LandlordLosingScoreSegment {
    pub start: isize,
    pub end: isize,
    pub non_landlord_delta: usize,
}

impl Propagatable for LandlordWinningScoreSegment {
    open spec fn can_propagate(&self) -> bool {
        &&& isize::MIN <= self.start - (self.end - self.start) <= isize::MAX
        &&& isize::MIN <= self.end - self.start <= isize::MAX
        &&& self.landlord_delta < usize::MAX
    }

    /// The window just below this one, as wide, worth one more level.
    open spec fn propagated(&self) -> Self {
        LandlordWinningScoreSegment {
            start: (self.start - (self.end - self.start)) as isize,
            end: self.start,
            landlord_delta: (self.landlord_delta + 1) as usize,
        }
    }

    fn propagate(self) -> (r: Self) {
        LandlordWinningScoreSegment {
            start: self.start - (self.end - self.start),
            end: self.start,
            landlord_delta: self.landlord_delta + 1,
        }
    }
}

impl Propagatable for LandlordLosingScoreSegment {
    open spec fn can_propagate(&self) -> bool {
        &&& isize::MIN <= self.end + (self.end - self.start) <= isize::MAX
        &&& isize::MIN <= self.end - self.start <= isize::MAX
        &&& self.non_landlord_delta < usize::MAX
    }

    /// The window just above this one, as wide, worth one more level.
    open spec fn propagated(&self) -> Self {
        LandlordLosingScoreSegment {
            start: self.end,
            end: (self.end + (self.end - self.start)) as isize,
            non_landlord_delta: (self.non_landlord_delta + 1) as usize,
        }
    }

    fn propagate(self) -> (r: Self) {
        LandlordLosingScoreSegment {
            start: self.end,
            end: self.end + (self.end - self.start),
            non_landlord_delta: self.non_landlord_delta + 1,
        }
    }
}

impl Window for LandlordWinningScoreSegment {
    open spec fn start_spec(&self) -> int {
        self.start as int
    }

    open spec fn end_spec(&self) -> int {
        self.end as int
    }

    fn start(&self) -> (r: isize) {
        self.start
    }

    fn end(&self) -> (r: isize) {
        self.end
    }
}

impl Window for LandlordLosingScoreSegment {
    open spec fn start_spec(&self) -> int {
        self.start as int
    }

    open spec fn end_spec(&self) -> int {
        self.end as int
    }

    fn start(&self) -> (r: isize) {
        self.start
    }

    fn end(&self) -> (r: isize) {
        self.end
    }
}

/// The windows given first, then each window propagated from the one before.
pub open spec fn stream<P: Propagatable>(init: Seq<P>, k: nat) -> P
    decreases k,
{
    if k < init.len() || k == 0 {
        init[k as int]
    } else {
        stream(init, (k - 1) as nat).propagated()
    }
}

/// Gives the windows it was made with, then keeps propagating the last one.
pub struct PropagateMore<P: Propagatable> {
    initial: Vec<P>,
    next_index: usize,
    propagatable: Option<P>,
    produced: Ghost<nat>,
}

impl<P: Propagatable> PropagateMore<P> {
    /// The windows it was made with.
    pub closed spec fn items(self) -> Seq<P> {
        self.initial@
    }

    /// How many windows it has given.
    pub closed spec fn produced(self) -> nat {
        self.produced@
    }

    /// The state matches the number of windows given so far.
    pub closed spec fn wf(self) -> bool {
        let n = self.produced@;
        let len = self.initial.len();
        &&& self.next_index <= len
        &&& (len == 0 ==> n == 0 && self.next_index == 0 && self.propagatable is None)
        &&& (n < len ==> self.next_index == n && self.propagatable == (if n == 0 { None } else { Some(self.initial@[n - 1]) }))
        &&& (len > 0 && n >= len ==> self.next_index == len && self.propagatable == Some(stream(self.initial@, (n - 1) as nat)))
    }

    pub fn new(items: Vec<P>) -> (r: Self)
        ensures
            r.wf(),
            r.items() == items@,
            r.produced() == 0,
    {
        PropagateMore { initial: items, next_index: 0, propagatable: None, produced: Ghost(0) }
    }

    /// The next window.
    pub fn next(&mut self) -> (r: Option<P>)
        requires
            old(self).wf(),
            old(self).items().len() > 0 && old(self).produced() >= old(self).items().len()
                ==> stream(old(self).items(), (old(self).produced() - 1) as nat).can_propagate(),
        ensures
            final(self).wf(),
            final(self).items() == old(self).items(),
            old(self).items().len() == 0 ==> r is None && final(self).produced() == 0,
            old(self).items().len() > 0 ==> r == Some(stream(old(self).items(), old(self).produced()))
                && final(self).produced() == old(self).produced() + 1,
    {
        if self.next_index < self.initial.len() {
            let n = self.initial[self.next_index];
            self.next_index = self.next_index + 1;
            self.propagatable = Some(n);
            self.produced = Ghost(self.produced@ + 1);
            return Some(n);
        }
        match self.propagatable {
            Some(p) => {
                let q = p.propagate();
                self.propagatable = Some(q);
                self.produced = Ghost(self.produced@ + 1);
                Some(q)
            },
            None => None,
        }
    }
}


/// Where a window goes among windows sorted by start: after every window
/// that does not start later.
pub open spec fn insert_pos<W: Window>(s: Seq<W>, x: W) -> int
    decreases s.len(),
{
    if s.len() == 0 {
        0
    } else if s.last().start_spec() <= x.start_spec() {
        s.len() as int
    } else {
        insert_pos(s.drop_last(), x)
    }
}

/// The windows sorted by start, keeping the order of windows that start
/// together.
pub open spec fn sorted_by_start<W: Window>(s: Seq<W>) -> Seq<W>
    decreases s.len(),
{
    if s.len() == 0 {
        Seq::empty()
    } else {
        let p = sorted_by_start(s.drop_last());
        p.insert(insert_pos(p, s.last()), s.last())
    }
}

proof fn lemma_insert_pos_bounds<W: Window>(s: Seq<W>, x: W)
    ensures
        0 <= insert_pos(s, x) <= s.len(),
    decreases s.len(),
{
    if s.len() > 0 {
        lemma_insert_pos_bounds(s.drop_last(), x);
    }
}

proof fn lemma_sorted_len<W: Window>(s: Seq<W>)
    ensures
        sorted_by_start(s).len() == s.len(),
    decreases s.len(),
{
    if s.len() > 0 {
        lemma_sorted_len(s.drop_last());
        lemma_insert_pos_bounds(sorted_by_start(s.drop_last()), s.last());
    }
}

/// Sorts windows by start, keeping the order of windows that start together.
fn sort_by_start<W: Window>(v: Vec<W>) -> (r: Vec<W>)
    ensures
        r@ == sorted_by_start(v@),
{
    let mut out: Vec<W> = Vec::new();
    let mut i: usize = 0;
    while i < v.len()
        invariant
            i <= v.len(),
            out@ == sorted_by_start(v@.subrange(0, i as int)),
        decreases v.len() - i,
    {
        let x = v[i];
        let xs = x.start();
        let mut pos: usize = out.len();
        assert(out@.subrange(0, out.len() as int) =~= out@);
        while pos > 0 && out[pos - 1].start() > xs
            invariant
                pos <= out.len(),
                xs == x.start_spec(),
                insert_pos(out@, x) == insert_pos(out@.subrange(0, pos as int), x),
            decreases pos,
        {
            assert(out@.subrange(0, pos as int).drop_last() =~= out@.subrange(0, pos - 1));
            pos -= 1;
        }
        proof {
            if pos == 0 {
                assert(out@.subrange(0, 0) =~= Seq::<W>::empty());
            }
            assert(v@.subrange(0, i + 1).drop_last() =~= v@.subrange(0, i as int));
            lemma_sorted_len(v@.subrange(0, i as int));
        }
        out.insert(pos, x);
        i += 1;
    }
    assert(v@.subrange(0, v.len() as int) =~= v@);
    out
}

pub open spec fn opt_int(o: Option<isize>) -> Option<int> {
    match o {
        Some(e) => Some(e as int),
        None => None,
    }
}

/// The spans `(start, end)` of windows.
pub open spec fn spans<W: Window>(s: Seq<W>) -> Seq<(int, int)> {
    s.map_values(|w: W| (w.start_spec(), w.end_spec()))
}

/// The first fault of a run of windows from the `i`th on, each of which
/// must be non-empty, start and end on multiples of 5, and start where the
/// one before ended.
pub open spec fn window_error(ws: Seq<(int, int)>, i: int, last_end: Option<int>) -> Option<ScoringError>
    decreases ws.len() - i,
{
    if i >= ws.len() || i < 0 {
        None
    } else {
        let start = ws[i].0;
        let end = ws[i].1;
        if start >= end {
            Some(ScoringError::EmptyWindow)
        } else if start % 5 != 0 || end % 5 != 0 {
            Some(ScoringError::WindowNotMultipleOfFive)
        } else if last_end matches Some(e) && start < e {
            Some(ScoringError::OverlappingWindows)
        } else if last_end matches Some(e) && start > e {
            Some(ScoringError::MissingWindow)
        } else {
            window_error(ws, i + 1, Some(end))
        }
    }
}

/// What is wrong with sorted winning and losing windows, if anything: both
/// sides need windows, the landlord's last must end where the other side's
/// first starts, and together they must tile a range of scores.
pub open spec fn windows_error(wins: Seq<LandlordWinningScoreSegment>, loses: Seq<LandlordLosingScoreSegment>) -> Option<ScoringError> {
    if wins.len() == 0 || loses.len() == 0 {
        Some(ScoringError::NoWindowForOneSide)
    } else if wins.last().end != loses[0].start {
        Some(ScoringError::WindowsDoNotMeet)
    } else {
        window_error(spans(wins) + spans(loses), 0, None)
    }
}

proof fn lemma_window_error_step(ws: Seq<(int, int)>, i: int, last: Option<int>)
    requires
        0 <= i < ws.len(),
    ensures
        window_error(seq![ws[i]], 0, last) is Some ==> window_error(ws, i, last) == window_error(seq![ws[i]], 0, last),
        window_error(seq![ws[i]], 0, last) is None ==> window_error(ws, i, last) == window_error(ws, i + 1, Some(ws[i].1)),
{
    let one = seq![ws[i]];
    assert(one[0] == ws[i]);
    assert(window_error(one, 1, Some(ws[i].1)) is None);
}

/// Checks one window against the end of the one before it.
fn check_window(start: isize, end: isize, last_end: Option<isize>) -> (r: Result<(), ScoringError>)
    ensures
        ({
            let ws = seq![(start as int, end as int)];
            r matches Err(e) ==> window_error(ws, 0, opt_int(last_end)) == Some(e)
        }),
        r is Ok ==> !(start >= end || start % 5 != 0 || end % 5 != 0 || (last_end matches Some(e) && start != e)),
{
    if start >= end {
        return Err(ScoringError::EmptyWindow);
    }
    if start % 5 != 0 || end % 5 != 0 {
        return Err(ScoringError::WindowNotMultipleOfFive);
    }
    match last_end {
        Some(e) => {
            if start < e {
                return Err(ScoringError::OverlappingWindows);
            } else if start > e {
                return Err(ScoringError::MissingWindow);
            }
        },
        None => {},
    }
    Ok(())
}

/// Scoring parameters worked out for a number of decks: the windows in which
/// the landlord's team wins, and those in which it loses.
#[derive(Debug)]
pub struct MaterializedScoringParameters {
    landlord_wins: Vec<LandlordWinningScoreSegment>,
    landlord_loses: Vec<LandlordLosingScoreSegment>,
    num_decks: usize,
    num_points_per_deck: usize,
}

impl MaterializedScoringParameters {
    pub closed spec fn wins(self) -> Seq<LandlordWinningScoreSegment> {
        self.landlord_wins@
    }

    pub closed spec fn loses(self) -> Seq<LandlordLosingScoreSegment> {
        self.landlord_loses@
    }

    pub closed spec fn decks(self) -> usize {
        self.num_decks
    }

    pub closed spec fn points_per_deck(self) -> usize {
        self.num_points_per_deck
    }

    /// Sorts the windows of each side by start and checks that they tile a
    /// range of scores, the landlord's below the other side's.
    pub fn new(
        landlord_wins: Vec<LandlordWinningScoreSegment>,
        landlord_loses: Vec<LandlordLosingScoreSegment>,
        num_decks: usize,
        num_points_per_deck: usize,
    ) -> (r: Result<Self, ScoringError>)
        ensures
            ({
                let sw = sorted_by_start(landlord_wins@);
                let sl = sorted_by_start(landlord_loses@);
                &&& r is Err <==> windows_error(sw, sl) is Some
                &&& r matches Err(e) ==> windows_error(sw, sl) == Some(e)
                &&& r matches Ok(m) ==> m.wins() == sw && m.loses() == sl && m.decks() == num_decks
                    && m.points_per_deck() == num_points_per_deck
            }),
    {
        let wins = sort_by_start(landlord_wins);
        let loses = sort_by_start(landlord_loses);
        if wins.len() == 0 || loses.len() == 0 {
            return Err(ScoringError::NoWindowForOneSide);
        }
        if wins[wins.len() - 1].end != loses[0].start {
            return Err(ScoringError::WindowsDoNotMeet);
        }
        let ghost all = spans(wins@) + spans(loses@);
        let mut last_end: Option<isize> = None;
        let mut i: usize = 0;
        while i < wins.len()
            invariant
                all == spans(wins@) + spans(loses@),
                wins@ == sorted_by_start(landlord_wins@),
                loses@ == sorted_by_start(landlord_loses@),
                i <= wins.len(),
                wins.len() > 0 && loses.len() > 0,
                wins@.last().end == loses@[0].start,
                i == 0 <==> last_end is None,
                windows_error(wins@, loses@) == window_error(all, i as int, opt_int(last_end)),
            decreases wins.len() - i,
        {
            assert(all[i as int] == (wins@[i as int].start as int, wins@[i as int].end as int));
            proof {
                lemma_window_error_step(all, i as int, opt_int(last_end));
            }
            match check_window(wins[i].start, wins[i].end, last_end) {
                Ok(()) => {},
                Err(e) => {
                    return Err(e);
                },
            }
            last_end = Some(wins[i].end);
            i += 1;
        }
        let mut j: usize = 0;
        while j < loses.len()
            invariant
                all == spans(wins@) + spans(loses@),
                wins@ == sorted_by_start(landlord_wins@),
                loses@ == sorted_by_start(landlord_loses@),
                j <= loses.len(),
                wins.len() > 0 && loses.len() > 0,
                last_end is Some,
                windows_error(wins@, loses@) == window_error(all, wins.len() + j, opt_int(last_end)),
            decreases loses.len() - j,
        {
            assert(all[wins.len() + j] == (loses@[j as int].start as int, loses@[j as int].end as int));
            proof {
                lemma_window_error_step(all, wins.len() + j, opt_int(last_end));
            }
            match check_window(loses[j].start, loses[j].end, last_end) {
                Ok(()) => {},
                Err(e) => {
                    return Err(e);
                },
            }
            last_end = Some(loses[j].end);
            j += 1;
        }
        Ok(MaterializedScoringParameters { landlord_wins: wins, landlord_loses: loses, num_decks, num_points_per_deck })
    }
}


/// The largest magnitude of a window's bounds that scoring accepts, so that
/// the fifty windows it may look at can be computed.
pub open spec fn window_bound() -> int {
    isize::MAX / 128
}

pub open spec fn win_bounded(w: LandlordWinningScoreSegment) -> bool {
    &&& -window_bound() <= w.start <= window_bound()
    &&& -window_bound() <= w.end <= window_bound()
    &&& w.landlord_delta <= window_bound()
}

pub open spec fn lose_bounded(w: LandlordLosingScoreSegment) -> bool {
    &&& -window_bound() <= w.start <= window_bound()
    &&& -window_bound() <= w.end <= window_bound()
    &&& w.non_landlord_delta <= window_bound()
}

/// The landlord's winning levels for the first of the fifty windows, from
/// the `k`th on, that holds the score.
pub open spec fn win_hit(init: Seq<LandlordWinningScoreSegment>, p: int, k: nat) -> Option<usize>
    decreases 50 - k,
{
    if k >= 50 {
        None
    } else {
        let w = stream(init, k);
        if w.start <= p && p < w.end { Some(w.landlord_delta) } else { win_hit(init, p, k + 1) }
    }
}

/// The non-landlords' winning levels for the first of the fifty windows,
/// from the `k`th on, that holds the score.
pub open spec fn lose_hit(init: Seq<LandlordLosingScoreSegment>, p: int, k: nat) -> Option<usize>
    decreases 50 - k,
{
    if k >= 50 {
        None
    } else {
        let w = stream(init, k);
        if w.start <= p && p < w.end { Some(w.non_landlord_delta) } else { lose_hit(init, p, k + 1) }
    }
}

proof fn lemma_bound_arith(j: int, b: int, d: int)
    requires
        0 <= j <= 50,
        b == isize::MAX / 128,
        d == 2 * b,
    ensures
        b + (j + 1) * d <= isize::MAX,
        (j + 1) * d == j * d + d,
        j * d >= 0,
{
    assert((j + 1) * d == j * d + d) by (nonlinear_arith);
    assert(j * d <= 50 * d) by (nonlinear_arith)
        requires
            0 <= j <= 50,
            d >= 0,
    ;
    assert(j * d >= 0) by (nonlinear_arith)
        requires
            0 <= j,
            d >= 0,
    ;
}

/// Going down from the lowest winning window keeps its width, and stays
/// within reach for fifty windows.
proof fn lemma_win_stream(init: Seq<LandlordWinningScoreSegment>, k: nat)
    requires
        init.len() >= 1,
        forall|i: int| 0 <= i < init.len() ==> win_bounded(#[trigger] init[i]),
        k <= 50,
    ensures
        k < init.len() ==> stream(init, k) == init[k as int],
        k + 1 >= init.len() ==> {
            let w = stream(init, k);
            let j = k + 1 - init.len();
            let b = window_bound();
            &&& w.end - w.start == init.last().end - init.last().start
            &&& -(b + j * (2 * b)) <= w.start <= b + j * (2 * b)
            &&& -(b + j * (2 * b)) <= w.end <= b + j * (2 * b)
            &&& w.landlord_delta <= b + j
            &&& w.can_propagate()
        },
    decreases k,
{
    let b = window_bound();
    let j = k + 1 - init.len();
    if k + 1 >= init.len() {
        lemma_bound_arith(j, b, 2 * b);
        if k < init.len() {
            assert(k == init.len() - 1);
            assert(init.last() == init[k as int]);
        } else {
            lemma_win_stream(init, (k - 1) as nat);
            lemma_bound_arith(j - 1, b, 2 * b);
        }
    }
}

/// Going up from the highest losing window keeps its width, and stays within
/// reach for fifty windows.
proof fn lemma_lose_stream(init: Seq<LandlordLosingScoreSegment>, k: nat)
    requires
        init.len() >= 1,
        forall|i: int| 0 <= i < init.len() ==> lose_bounded(#[trigger] init[i]),
        k <= 50,
    ensures
        k < init.len() ==> stream(init, k) == init[k as int],
        k + 1 >= init.len() ==> {
            let w = stream(init, k);
            let j = k + 1 - init.len();
            let b = window_bound();
            &&& w.end - w.start == init.last().end - init.last().start
            &&& -(b + j * (2 * b)) <= w.start <= b + j * (2 * b)
            &&& -(b + j * (2 * b)) <= w.end <= b + j * (2 * b)
            &&& w.non_landlord_delta <= b + j
            &&& w.can_propagate()
        },
    decreases k,
{
    let b = window_bound();
    let j = k + 1 - init.len();
    if k + 1 >= init.len() {
        lemma_bound_arith(j, b, 2 * b);
        if k < init.len() {
            assert(k == init.len() - 1);
            assert(init.last() == init[k as int]);
        } else {
            lemma_lose_stream(init, (k - 1) as nat);
            lemma_bound_arith(j - 1, b, 2 * b);
        }
    }
}

/// A copy of windows in reverse order.
fn reversed<T: Copy>(v: &Vec<T>) -> (r: Vec<T>)
    ensures
        r@ == v@.reverse(),
{
    let mut out: Vec<T> = Vec::new();
    let mut i: usize = 0;
    while i < v.len()
        invariant
            i <= v.len(),
            out.len() == i,
            forall|q: int| 0 <= q < i ==> #[trigger] out@[q] == v@[v.len() - 1 - q],
        decreases v.len() - i,
    {
        out.push(v[v.len() - 1 - i]);
        i += 1;
    }
    assert(out@ =~= v@.reverse());
    out
}

impl MaterializedScoringParameters {
    /// Every window is within reach (see `window_bound`).
    pub open spec fn bounded(self) -> bool {
        &&& forall|i: int| 0 <= i < self.wins().len() ==> win_bounded(#[trigger] self.wins()[i])
        &&& forall|i: int| 0 <= i < self.loses().len() ==> lose_bounded(#[trigger] self.loses()[i])
    }

    /// The score of a game: below the end of the landlord's last winning
    /// window the landlord's team wins the levels of the first window, going
    /// down from there, that holds the points; otherwise the other team wins
    /// those of the first window, going up. Only fifty windows are looked at.
    pub open spec fn score_spec(self, p: int) -> Result<PartialGameScoreResult, ScoringError> {
        if self.wins().len() == 0 {
            Err(ScoringError::NoWindowForOneSide)
        } else if p < self.wins().last().end {
            match win_hit(self.wins().reverse(), p, 0) {
                Some(d) => Ok(PartialGameScoreResult { landlord_won: true, landlord_delta: d, non_landlord_delta: 0 }),
                None => Err(ScoringError::ScoreOutOfWindows),
            }
        } else if self.loses().len() == 0 {
            Err(ScoringError::ScoreOutOfWindows)
        } else {
            match lose_hit(self.loses(), p, 0) {
                Some(d) => Ok(PartialGameScoreResult { landlord_won: false, landlord_delta: 0, non_landlord_delta: d }),
                None => Err(ScoringError::ScoreOutOfWindows),
            }
        }
    }

    pub fn score(&self, non_landlords_points: isize) -> (r: Result<PartialGameScoreResult, ScoringError>)
        requires
            self.bounded(),
        ensures
            r == self.score_spec(non_landlords_points as int),
            r matches Ok(g) ==> g.landlord_delta <= window_bound() + 50 && g.non_landlord_delta <= window_bound() + 50,
    {
        let p = non_landlords_points;
        let n = self.landlord_wins.len();
        if n == 0 {
            return Err(ScoringError::NoWindowForOneSide);
        }
        if p < self.landlord_wins[n - 1].end {
            let init = reversed(&self.landlord_wins);
            let ghost items = init@;
            proof {
                assert forall|i: int| 0 <= i < items.len() implies win_bounded(#[trigger] items[i]) by {
                    assert(items[i] == self.landlord_wins@[n - 1 - i]);
                }
            }
            let mut pm = PropagateMore::new(init);
            let mut k: usize = 0;
            while k < 50
                invariant
                    k <= 50,
                    pm.wf(),
                    pm.items() == items,
                    items == self.wins().reverse(),
                    items.len() >= 1,
                    self.wins().len() > 0,
                    (p as int) < self.wins().last().end,
                    forall|i: int| 0 <= i < items.len() ==> win_bounded(#[trigger] items[i]),
                    pm.produced() == k,
                    p == non_landlords_points,
                    win_hit(items, p as int, 0) == win_hit(items, p as int, k as nat),
                decreases 50 - k,
            {
                proof {
                    if k >= 1 {
                        lemma_win_stream(items, (k - 1) as nat);
                    }
                }
                let w = pm.next().unwrap();
                assert(w == stream(items, k as nat));
                if w.start <= p && p < w.end {
                    assert(win_hit(items, p as int, k as nat) == Some(w.landlord_delta));
                    proof {
                        lemma_win_stream(items, k as nat);
                    }

                    return Ok(PartialGameScoreResult { non_landlord_delta: 0, landlord_delta: w.landlord_delta, landlord_won: true });
                }
                k += 1;
            }
            Err(ScoringError::ScoreOutOfWindows)
        } else {
            let mut copy: Vec<LandlordLosingScoreSegment> = Vec::new();
            let mut q: usize = 0;
            while q < self.landlord_loses.len()
                invariant
                    q <= self.landlord_loses.len(),
                    copy@ == self.landlord_loses@.subrange(0, q as int),
                decreases self.landlord_loses.len() - q,
            {
                copy.push(self.landlord_loses[q]);
                q += 1;
                assert(copy@ =~= self.landlord_loses@.subrange(0, q as int));
            }
            assert(self.landlord_loses@.subrange(0, self.landlord_loses.len() as int) =~= self.landlord_loses@);
            if copy.len() == 0 {
                return Err(ScoringError::ScoreOutOfWindows);
            }
            let ghost items = copy@;
            let mut pm = PropagateMore::new(copy);
            let mut k: usize = 0;
            while k < 50
                invariant
                    k <= 50,
                    pm.wf(),
                    pm.items() == items,
                    items == self.loses(),
                    items.len() >= 1,
                    self.wins().len() > 0,
                    !((p as int) < self.wins().last().end),
                    forall|i: int| 0 <= i < items.len() ==> lose_bounded(#[trigger] items[i]),
                    pm.produced() == k,
                    p == non_landlords_points,
                    lose_hit(items, p as int, 0) == lose_hit(items, p as int, k as nat),
                decreases 50 - k,
            {
                proof {
                    if k >= 1 {
                        lemma_lose_stream(items, (k - 1) as nat);
                    }
                }
                let w = pm.next().unwrap();
                assert(w == stream(items, k as nat));
                if w.start <= p && p < w.end {
                    assert(lose_hit(items, p as int, k as nat) == Some(w.non_landlord_delta));
                    proof {
                        lemma_lose_stream(items, k as nat);
                    }
                    return Ok(PartialGameScoreResult { non_landlord_delta: w.non_landlord_delta, landlord_delta: 0, landlord_won: false });
                }
                k += 1;
            }
            Err(ScoringError::ScoreOutOfWindows)
        }
    }
}


impl MaterializedScoringParameters {
    /// From the `offset`th multiple of 5 above `current` on, the first score
    /// whose result differs from `gsr`, looking up to 999 steps up.
    pub open spec fn next_from(self, current: int, gsr: PartialGameScoreResult, offset: int) -> Result<(isize, PartialGameScoreResult), ScoringError>
        decreases 1000 - offset,
    {
        if offset >= 1000 || offset < 1 {
            Err(ScoringError::NoNextRelevantScore)
        } else {
            match self.score_spec(current + offset * 5) {
                Err(e) => Err(e),
                Ok(g) => if g != gsr {
                    Ok(((current + offset * 5) as isize, g))
                } else {
                    self.next_from(current, gsr, offset + 1)
                },
            }
        }
    }

    /// The next score, going up by 5, whose result differs from that of
    /// `current`, with that result.
    pub open spec fn next_relevant_spec(self, current: int) -> Result<(isize, PartialGameScoreResult), ScoringError> {
        match self.score_spec(current) {
            Err(e) => Err(e),
            Ok(g) => self.next_from(current, g, 1),
        }
    }

    pub fn next_relevant_score(&self, current_score: isize) -> (r: Result<(isize, PartialGameScoreResult), ScoringError>)
        requires
            self.bounded(),
            current_score + 5000 <= isize::MAX,
        ensures
            r == self.next_relevant_spec(current_score as int),
            r matches Ok(x) ==> x.1.landlord_delta <= window_bound() + 50,
    {
        let gsr = match self.score(current_score) {
            Ok(g) => g,
            Err(e) => {
                return Err(e);
            },
        };
        let mut offset: isize = 1;
        while offset < 1000
            invariant
                1 <= offset <= 1000,
                self.bounded(),
                current_score + 5000 <= isize::MAX,
                self.score_spec(current_score as int) == Ok::<PartialGameScoreResult, ScoringError>(gsr),
                self.next_relevant_spec(current_score as int) == self.next_from(current_score as int, gsr, offset as int),
            decreases 1000 - offset,
        {
            let next = current_score + offset * 5;
            let offset_gsr = match self.score(next) {
                Ok(g) => g,
                Err(e) => {
                    return Err(e);
                },
            };
            if gsr != offset_gsr {
                return Ok((next, offset_gsr));
            }
            offset += 1;
        }
        Err(ScoringError::NoNextRelevantScore)
    }

    /// All the points that can be scored.
    pub open spec fn total_points(self) -> int {
        self.decks() * self.points_per_deck()
    }

    /// From `current`, each next relevant score and its result, up to the
    /// first at or past all the points.
    pub open spec fn explain_from(self, current: int) -> Result<Seq<(isize, PartialGameScoreResult)>, ScoringError>
        decreases self.total_points() - current,
    {
        match self.next_relevant_spec(current) {
            Err(e) => Err(e),
            Ok(step) => if step.0 >= self.total_points() || step.0 <= current {
                Ok(seq![step])
            } else {
                match self.explain_from(step.0 as int) {
                    Ok(rest) => Ok(seq![step] + rest),
                    Err(e) => Err(e),
                }
            },
        }
    }

    /// The result for 0 points, then every score at which the result changes,
    /// up to all the points.
    pub open spec fn explain_spec(self) -> Result<Seq<(isize, PartialGameScoreResult)>, ScoringError> {
        match self.score_spec(0) {
            Err(e) => Err(e),
            Ok(g) => match self.explain_from(0) {
                Ok(rest) => Ok(seq![(0isize, g)] + rest),
                Err(e) => Err(e),
            },
        }
    }

    proof fn lemma_next_from_advances(self, current: int, gsr: PartialGameScoreResult, offset: int)
        requires
            current + 5000 <= isize::MAX,
            isize::MIN <= current,
        ensures
            self.next_from(current, gsr, offset) matches Ok(step) ==> step.0 > current && step.0 < current + 5000,
        decreases 1000 - offset,
    {
        if 1 <= offset < 1000 {
            self.lemma_next_from_advances(current, gsr, offset + 1);
        }
    }

    pub fn explain(&self) -> (r: Result<Vec<(isize, PartialGameScoreResult)>, ScoringError>)
        requires
            self.bounded(),
            0 <= self.total_points(),
            self.total_points() + 5000 <= isize::MAX,
        ensures
            r is Ok <==> self.explain_spec() is Ok,
            r matches Ok(v) ==> self.explain_spec() == Ok::<Seq<(isize, PartialGameScoreResult)>, ScoringError>(v@),
            r matches Err(e) ==> self.explain_spec() == Err::<Seq<(isize, PartialGameScoreResult)>, ScoringError>(e),
            r matches Ok(v) ==> forall|k: int| 0 <= k < v.len() ==> (#[trigger] v@[k]).1.landlord_delta <= window_bound() + 50,
    {
        proof {
            assert(0 <= self.num_decks * self.num_points_per_deck) by (nonlinear_arith);
        }
        let total_points = (self.num_decks * self.num_points_per_deck) as isize;
        let first = match self.score(0) {
            Ok(g) => g,
            Err(e) => {
                return Err(e);
            },
        };
        let mut explanatory: Vec<(isize, PartialGameScoreResult)> = Vec::new();
        explanatory.push((0, first));
        let mut current_score: isize = 0;
        loop
            invariant_except_break
                self.bounded(),
                total_points == self.total_points(),
                self.total_points() + 5000 <= isize::MAX,
                0 <= current_score < total_points || current_score == 0,
                self.score_spec(0) == Ok::<PartialGameScoreResult, ScoringError>(first),
                explanatory@.len() >= 1,
                explanatory@[0] == (0isize, first),
                forall|k: int| 0 <= k < explanatory.len() ==> (#[trigger] explanatory@[k]).1.landlord_delta <= window_bound() + 50,
                match self.explain_from(current_score as int) {
                    Ok(rest) => self.explain_from(0) == Ok::<Seq<(isize, PartialGameScoreResult)>, ScoringError>(explanatory@.drop_first() + rest),
                    Err(e) => self.explain_from(0) == Err::<Seq<(isize, PartialGameScoreResult)>, ScoringError>(e),
                },
            ensures
                self.score_spec(0) == Ok::<PartialGameScoreResult, ScoringError>(first),
                forall|k: int| 0 <= k < explanatory.len() ==> (#[trigger] explanatory@[k]).1.landlord_delta <= window_bound() + 50,
                explanatory@.len() >= 1,
                explanatory@[0] == (0isize, first),
                self.explain_from(0) == Ok::<Seq<(isize, PartialGameScoreResult)>, ScoringError>(explanatory@.drop_first()),
            decreases total_points - current_score,
        {
            proof {
                self.lemma_next_from_advances(current_score as int, first, 1);
                match self.score_spec(current_score as int) {
                    Ok(g) => {
                        self.lemma_next_from_advances(current_score as int, g, 1);
                    },
                    Err(_) => {},
                }
            }
            let (next, score) = match self.next_relevant_score(current_score) {
                Ok(x) => x,
                Err(e) => {
                    return Err(e);
                },
            };
            let ghost before = explanatory@;
            explanatory.push((next, score));
            proof {
                assert(explanatory@.drop_first() =~= before.drop_first() + seq![(next, score)]);
                if next < total_points {
                    match self.explain_from(next as int) {
                        Ok(rest) => {
                            assert(explanatory@.drop_first() + rest =~= before.drop_first() + (seq![(next, score)] + rest));
                        },
                        Err(e) => {},
                    }
                }
            }
            current_score = next;
            if current_score >= total_points {
                break;
            }
        }
        assert(explanatory@ =~= seq![(0isize, first)] + explanatory@.drop_first());
        Ok(explanatory)
    }
}


/// The windows in which the landlord's team wins, from the highest down,
/// for `n` steps to turn the game over and step size `s`. Truncated, the
/// window holding 0 points is special: it runs from `5 - s` to 5, below a
/// window from 5 to `s`.
pub open spec fn win_segments(n: int, s: int, truncate: bool) -> Seq<LandlordWinningScoreSegment> {
    if truncate {
        Seq::new((n - 1) as nat, |i: int| LandlordWinningScoreSegment {
            start: ((n - 1 - i) * s) as isize,
            end: ((n - i) * s) as isize,
            landlord_delta: (i + 1) as usize,
        }) + seq![
            LandlordWinningScoreSegment { start: 5, end: s as isize, landlord_delta: n as usize },
            LandlordWinningScoreSegment { start: (5 - s) as isize, end: 5, landlord_delta: (n + 1) as usize },
        ]
    } else {
        seq![LandlordWinningScoreSegment { start: ((n - 1) * s) as isize, end: (n * s) as isize, landlord_delta: 1 }]
    }
}

/// The windows in which the landlord's team loses: a dead zone of `d` steps
/// (if any), then a step in which the other team goes up a level.
pub open spec fn lose_segments(n: int, d: int, s: int) -> Seq<LandlordLosingScoreSegment> {
    (if d == 0 {
        Seq::empty()
    } else {
        seq![LandlordLosingScoreSegment { start: (n * s) as isize, end: ((n + d) * s) as isize, non_landlord_delta: 0 }]
    }) + seq![LandlordLosingScoreSegment { start: ((n + d) * s) as isize, end: ((n + d + 1) * s) as isize, non_landlord_delta: 1 }]
}

proof fn lemma_mul_bound(k: int, kmax: int, s: int, b: int)
    requires
        0 <= k <= kmax,
        kmax * s <= b,
        -b <= kmax * s,
        kmax * (-s) <= b,
    ensures
        -b <= k * s <= b,
{
    if s >= 0 {
        assert(0 <= k * s <= kmax * s) by (nonlinear_arith)
            requires
                0 <= k <= kmax,
                s >= 0,
        ;
    } else {
        assert(kmax * s <= k * s <= 0) by (nonlinear_arith)
            requires
                0 <= k <= kmax,
                s < 0,
        ;
        assert(kmax * (-s) == -(kmax * s)) by (nonlinear_arith);
    }
}

proof fn lemma_sorted_elements<W: Window>(s: Seq<W>)
    ensures
        forall|i: int| 0 <= i < sorted_by_start(s).len() ==> s.contains(#[trigger] sorted_by_start(s)[i]),
        sorted_by_start(s).len() == s.len(),
    decreases s.len(),
{
    lemma_sorted_len(s);
    if s.len() > 0 {
        let t = s.drop_last();
        lemma_sorted_elements(t);
        let p = sorted_by_start(t);
        let pos = insert_pos(p, s.last());
        lemma_insert_pos_bounds(p, s.last());
        assert forall|i: int| 0 <= i < sorted_by_start(s).len() implies s.contains(#[trigger] sorted_by_start(s)[i]) by {
            let q = p.insert(pos, s.last());
            assert(sorted_by_start(s) == q);
            if i < pos {
                assert(q[i] == p[i]);
                assert(t.contains(p[i]));
                let k = choose|k: int| 0 <= k < t.len() && t[k] == p[i];
                assert(s[k] == t[k]);
            } else if i == pos {
                assert(q[i] == s.last());
                assert(s[s.len() - 1] == s.last());
            } else {
                assert(q[i] == p[i - 1]);
                assert(t.contains(p[i - 1]));
                let k = choose|k: int| 0 <= k < t.len() && t[k] == p[i - 1];
                assert(s[k] == t[k]);
            }
        }
    }
}

impl GameScoringParameters {
    /// The windows that `materialize` checks, sorted: the landlord's winning
    /// windows and its losing ones.
    pub open spec fn materialized_windows(self, num_decks: usize, num_points_per_deck: usize) -> (Seq<LandlordWinningScoreSegment>, Seq<LandlordLosingScoreSegment>) {
        let s = self.step_size_spec(num_decks);
        let n = self.turnover_steps() as int;
        let d = self.deadzone() as int;
        (sorted_by_start(win_segments(n, s, self.truncates()).reverse()), sorted_by_start(lose_segments(n, d, s)))
    }

    /// Why `materialize` fails, if it does.
    pub open spec fn materialize_error(self, num_decks: usize, num_points_per_deck: usize) -> Option<ScoringError> {
        if self.turnover_steps() == 0 {
            Some(ScoringError::LandlordCannotWin)
        } else {
            match self.step_size_result(num_decks, num_points_per_deck) {
                Err(e) => Some(e),
                Ok(_) => {
                    let w = self.materialized_windows(num_decks, num_points_per_deck);
                    windows_error(w.0, w.1)
                },
            }
        }
    }

    /// The parameters are small enough that every window can be computed and
    /// scored (see `window_bound`).
    pub open spec fn in_range(self, num_decks: usize, num_points_per_deck: usize) -> bool {
        let s = self.step_size_spec(num_decks);
        let k = self.turnover_steps() + self.deadzone() + 1;
        &&& num_decks * num_points_per_deck <= isize::MAX
        &&& num_decks * self.step_size_per_deck_spec() <= isize::MAX
        &&& isize::MIN <= s <= isize::MAX
        &&& k <= window_bound()
        &&& -window_bound() <= k * s <= window_bound()
        &&& k * (-s) <= window_bound()
        &&& -window_bound() <= 5 - s <= window_bound()
    }

    /// Works the parameters out for a number of decks: the step size, then
    /// the landlord's winning windows below the turnover and its losing
    /// windows above it, checked by `MaterializedScoringParameters::new`.
    pub fn materialize(&self, num_decks: usize, num_points_per_deck: usize) -> (r: Result<MaterializedScoringParameters, ScoringError>)
        requires
            self.in_range(num_decks, num_points_per_deck),
        ensures
            r is Err <==> self.materialize_error(num_decks, num_points_per_deck) is Some,
            r matches Err(e) ==> self.materialize_error(num_decks, num_points_per_deck) == Some(e),
            r matches Ok(m) ==> {
                &&& m.wins() == self.materialized_windows(num_decks, num_points_per_deck).0
                &&& m.loses() == self.materialized_windows(num_decks, num_points_per_deck).1
                &&& m.decks() == num_decks
                &&& m.points_per_deck() == num_points_per_deck
                &&& m.bounded()
            },
    {
        if self.num_steps_to_non_landlord_turnover == 0 {
            return Err(ScoringError::LandlordCannotWin);
        }
        let su = match self.step_size(num_decks, num_points_per_deck) {
            Ok(v) => v,
            Err(e) => {
                return Err(e);
            },
        };
        let s = su as isize;
        let ghost si = self.step_size_spec(num_decks);
        assert(s == si) by {
            let x = si as isize;
            assert(x == si);
            assert(su == x as usize);
            assert(((x as usize) as isize) == x) by (bit_vector);
        }
        let n = self.num_steps_to_non_landlord_turnover;
        let d = self.deadzone_size;
        let ghost b = window_bound();
        let ghost kmax = n + d + 1;
        let mut wins: Vec<LandlordWinningScoreSegment> = Vec::new();
        if self.truncate_zero_crossing_window {
            let mut delta: usize = 1;
            let mut offset: usize = n;
            while offset >= 2
                invariant
                    1 <= offset <= n,
                    kmax == n + d + 1,
                    kmax <= b,
                    -b <= kmax * s <= b,
                    kmax * (-s) <= b,
                    b == window_bound(),
                    delta == n - offset + 1,
                    wins@ =~= Seq::new((n - offset) as nat, |i: int| LandlordWinningScoreSegment {
                        start: ((n - 1 - i) * s) as isize,
                        end: ((n - i) * s) as isize,
                        landlord_delta: (i + 1) as usize,
                    }),
                decreases offset,
            {
                proof {
                    lemma_mul_bound(offset - 1, kmax, s as int, b);
                    lemma_mul_bound(offset as int, kmax, s as int, b);
                    assert(b <= isize::MAX);
                }
                wins.push(LandlordWinningScoreSegment {
                    start: (offset as isize - 1) * s,
                    end: offset as isize * s,
                    landlord_delta: delta,
                });
                delta += 1;
                offset -= 1;
            }
            proof {
                if offset == 0 {
                    assert(false);
                }
            }
            wins.push(LandlordWinningScoreSegment { start: 5, end: s, landlord_delta: delta });
            wins.push(LandlordWinningScoreSegment { start: 5 - s, end: 5, landlord_delta: delta + 1 });
            assert(wins@ =~= win_segments(n as int, s as int, true));
        } else {
            proof {
                lemma_mul_bound(n - 1, kmax, s as int, b);
                lemma_mul_bound(n as int, kmax, s as int, b);
            }
            wins.push(LandlordWinningScoreSegment {
                start: (n - 1) as isize * s,
                end: n as isize * s,
                landlord_delta: 1,
            });
            assert(wins@ =~= win_segments(n as int, s as int, false));
        }
        proof {
            lemma_mul_bound(n as int, kmax, s as int, b);
            lemma_mul_bound(n + d, kmax, s as int, b);
            lemma_mul_bound(kmax, kmax, s as int, b);
        }
        let mut loses: Vec<LandlordLosingScoreSegment> = Vec::new();
        if d != 0 {
            loses.push(LandlordLosingScoreSegment {
                start: n as isize * s,
                end: (n + d) as isize * s,
                non_landlord_delta: 0,
            });
        }
        loses.push(LandlordLosingScoreSegment {
            start: (n + d) as isize * s,
            end: (n + d + 1) as isize * s,
            non_landlord_delta: 1,
        });
        assert(loses@ =~= lose_segments(n as int, d as int, s as int));
        let ghost wseq = wins@;
        let rev = reversed(&wins);
        proof {
            assert forall|i: int| 0 <= i < wseq.len() implies win_bounded(#[trigger] wseq[i]) by {
                lemma_mul_bound(1, kmax, s as int, b);
                if self.truncate_zero_crossing_window {
                    assert(wseq == win_segments(n as int, s as int, true));
                    if i < n - 1 {
                        lemma_mul_bound(n - 1 - i, kmax, s as int, b);
                        lemma_mul_bound(n - i, kmax, s as int, b);
                    }
                } else {
                    assert(wseq == win_segments(n as int, s as int, false));
                    lemma_mul_bound(n - 1, kmax, s as int, b);
                }
            }
            assert forall|i: int| 0 <= i < rev@.len() implies win_bounded(#[trigger] rev@[i]) by {
                assert(rev@[i] == wseq[wseq.len() - 1 - i]);
            }
            assert forall|i: int| 0 <= i < loses@.len() implies lose_bounded(#[trigger] loses@[i]) by {
            }
            lemma_sorted_elements(rev@);
            lemma_sorted_elements(loses@);
        }
        let ghost rseq = rev@;
        let ghost lseq = loses@;
        let r = MaterializedScoringParameters::new(rev, loses, num_decks, num_points_per_deck);
        proof {
            if r is Ok {
                let m = r->Ok_0;
                assert forall|i: int| 0 <= i < m.wins().len() implies win_bounded(#[trigger] m.wins()[i]) by {
                    assert(rseq.contains(sorted_by_start(rseq)[i]));
                }
                assert forall|i: int| 0 <= i < m.loses().len() implies lose_bounded(#[trigger] m.loses()[i]) by {
                    assert(lseq.contains(sorted_by_start(lseq)[i]));
                }
            }
        }
        r
    }
}


/// The levels won for a number of points: the result of the materialized
/// parameters' score, with the bonus level when earned.
pub fn compute_level_deltas(
    gsp: &GameScoringParameters,
    num_decks: usize,
    num_points_per_deck: usize,
    non_landlords_points: isize,
    smaller_landlord_team_size: bool,
) -> (r: Result<GameScoreResult, ScoringError>)
    requires
        gsp.in_range(num_decks, num_points_per_deck),
    ensures
        gsp.materialize_error(num_decks, num_points_per_deck) matches Some(e) ==> r == Err::<GameScoreResult, ScoringError>(e),
        gsp.materialize_error(num_decks, num_points_per_deck) is None ==> exists|m: MaterializedScoringParameters| {
            &&& m.wins() == gsp.materialized_windows(num_decks, num_points_per_deck).0
            &&& m.loses() == gsp.materialized_windows(num_decks, num_points_per_deck).1
            &&& r matches Err(e) ==> (#[trigger] m.score_spec(non_landlords_points as int)) == Err::<PartialGameScoreResult, ScoringError>(e)
            &&& r matches Ok(res) ==> (m.score_spec(non_landlords_points as int) matches Ok(g) && res == with_bonus(g, gsp.bonus_policy(), smaller_landlord_team_size))
        },
        r matches Ok(res) ==> res.landlord_delta <= window_bound() + 51 && res.non_landlord_delta <= window_bound() + 50,
        r matches Ok(res) ==> (res.landlord_bonus ==> res.landlord_won) && (!res.landlord_won ==> res.landlord_delta == 0),
{
    let m = match gsp.materialize(num_decks, num_points_per_deck) {
        Ok(m) => m,
        Err(e) => {
            return Err(e);
        },
    };
    let g = match m.score(non_landlords_points) {
        Ok(g) => g,
        Err(e) => {
            return Err(e);
        },
    };
    proof {
        assert(window_bound() + 50 < usize::MAX);
    }
    Ok(GameScoreResult::new(g, gsp.bonus_level_policy, smaller_landlord_team_size))
}

/// The result for 0 points and every score at which it changes, up to all
/// the points, each with the bonus level when earned.
pub fn explain_level_deltas(
    gsp: &GameScoringParameters,
    num_decks: usize,
    num_points_per_deck: usize,
    smaller_landlord_team_size: bool,
) -> (r: Result<Vec<(isize, GameScoreResult)>, ScoringError>)
    requires
        gsp.in_range(num_decks, num_points_per_deck),
        num_decks * num_points_per_deck + 5000 <= isize::MAX,
    ensures
        gsp.materialize_error(num_decks, num_points_per_deck) matches Some(e) ==> r == Err::<Vec<(isize, GameScoreResult)>, ScoringError>(e),
        gsp.materialize_error(num_decks, num_points_per_deck) is None ==> exists|m: MaterializedScoringParameters| {
            &&& m.wins() == gsp.materialized_windows(num_decks, num_points_per_deck).0
            &&& m.loses() == gsp.materialized_windows(num_decks, num_points_per_deck).1
            &&& m.decks() == num_decks
            &&& m.points_per_deck() == num_points_per_deck
            &&& (r is Ok <==> (#[trigger] m.explain_spec()) is Ok)
            &&& r matches Err(e) ==> m.explain_spec() == Err::<Seq<(isize, PartialGameScoreResult)>, ScoringError>(e)
            &&& r matches Ok(v) ==> {
                let ex = m.explain_spec()->Ok_0;
                &&& v.len() == ex.len()
                &&& forall|i: int| 0 <= i < v.len() ==> (#[trigger] v@[i]).0 == ex[i].0
                    && v@[i].1 == with_bonus(ex[i].1, gsp.bonus_policy(), smaller_landlord_team_size)
            }
        },
{
    let m = match gsp.materialize(num_decks, num_points_per_deck) {
        Ok(m) => m,
        Err(e) => {
            return Err(e);
        },
    };
    proof {
        assert(0 <= num_decks * num_points_per_deck) by (nonlinear_arith);
    }
    let explanation = match m.explain() {
        Ok(v) => v,
        Err(e) => {
            return Err(e);
        },
    };
    proof {
        assert(m.explain_spec() == Ok::<Seq<(isize, PartialGameScoreResult)>, ScoringError>(explanation@));
    }
    let mut out: Vec<(isize, GameScoreResult)> = Vec::new();
    let mut i: usize = 0;
    while i < explanation.len()
        invariant
            i <= explanation.len(),
            out.len() == i,
            forall|k: int| 0 <= k < explanation.len() ==> (#[trigger] explanation@[k]).1.landlord_delta <= window_bound() + 50,
            forall|k: int| 0 <= k < i ==> (#[trigger] out@[k]).0 == explanation@[k].0
                && out@[k].1 == with_bonus(explanation@[k].1, gsp.bonus_policy(), smaller_landlord_team_size),
        decreases explanation.len() - i,
    {
        let (pts, gsr) = explanation[i];
        proof {
            assert(window_bound() + 50 < usize::MAX);
        }
        out.push((pts, GameScoreResult::new(gsr, gsp.bonus_level_policy, smaller_landlord_team_size)));
        i += 1;
    }
    Ok(out)
}



impl GameScoringParameters {
    /// The same parameters: every setting and every adjustment equal.
    pub open spec fn same_parameters(self, other: GameScoringParameters) -> bool {
        &&& self.step_size_per_deck_spec() == other.step_size_per_deck_spec()
        &&& self.adjustments() == other.adjustments()
        &&& self.turnover_steps() == other.turnover_steps()
        &&& self.deadzone() == other.deadzone()
        &&& self.truncates() == other.truncates()
        &&& self.bonus_policy() == other.bonus_policy()
    }
}

impl MaterializedScoringParameters {
    proof fn lemma_next_from_same_windows(self, other: Self, current: int, gsr: PartialGameScoreResult, offset: int)
        requires
            self.wins() == other.wins(),
            self.loses() == other.loses(),
        ensures
            self.next_from(current, gsr, offset) == other.next_from(current, gsr, offset),
        decreases 1000 - offset,
    {
        if 1 <= offset < 1000 {
            self.lemma_next_from_same_windows(other, current, gsr, offset + 1);
        }
    }

    proof fn lemma_explain_from_same_windows(self, other: Self, current: int)
        requires
            self.wins() == other.wins(),
            self.loses() == other.loses(),
            self.decks() == other.decks(),
            self.points_per_deck() == other.points_per_deck(),
        ensures
            self.explain_from(current) == other.explain_from(current),
        decreases self.total_points() - current,
    {
        if let Ok(g) = self.score_spec(current) {
            self.lemma_next_from_same_windows(other, current, g, 1);
            if let Ok(step) = self.next_relevant_spec(current) {
                if step.0 < self.total_points() && step.0 > current {
                    self.lemma_explain_from_same_windows(other, step.0 as int);
                }
            }
        }
    }

    /// Materialized parameters with the same windows, decks and points per
    /// deck explain the same way.
    pub proof fn lemma_explain_same_windows(self, other: Self)
        requires
            self.wins() == other.wins(),
            self.loses() == other.loses(),
            self.decks() == other.decks(),
            self.points_per_deck() == other.points_per_deck(),
        ensures
            self.explain_spec() == other.explain_spec(),
    {
        self.lemma_explain_from_same_windows(other, 0);
    }
}

impl GameScoringParameters {
    /// The parameters that `default` gives.
    pub open spec fn is_default(self) -> bool {
        &&& self.step_size_per_deck_spec() == 20
        &&& self.turnover_steps() == 2
        &&& self.deadzone() == 1
        &&& self.truncates()
        &&& self.adjustments() == Map::<usize, isize>::empty()
        &&& self.bonus_policy() == BonusLevelPolicy::BonusLevelForSmallerLandlordTeam
    }

    /// Materialized parameters with the windows that `materialize` gives for a
    /// number of decks.
    pub open spec fn materialized_for(self, num_decks: usize, num_points_per_deck: usize) -> MaterializedScoringParameters {
        choose|m: MaterializedScoringParameters| {
            &&& m.wins() == self.materialized_windows(num_decks, num_points_per_deck).0
            &&& m.loses() == self.materialized_windows(num_decks, num_points_per_deck).1
            &&& m.decks() == num_decks
            &&& m.points_per_deck() == num_points_per_deck
        }
    }

    /// Why the parameters cannot be used with a number of decks, if they
    /// cannot: they do not materialize, or the materialized windows cannot be
    /// explained from 0 up to all the points.
    pub open spec fn acceptance_error(self, num_decks: usize, num_points_per_deck: usize) -> Option<ScoringError> {
        match self.materialize_error(num_decks, num_points_per_deck) {
            Some(e) => Some(e),
            None => match self.materialized_for(num_decks, num_points_per_deck).explain_spec() {
                Err(e) => Some(e),
                Ok(_) => None,
            },
        }
    }

    /// Materializes the parameters and explains the result, to check that
    /// every score can be worked out with them.
    pub fn check_acceptance(&self, num_decks: usize, num_points_per_deck: usize) -> (r: Result<(), ScoringError>)
        requires
            self.in_range(num_decks, num_points_per_deck),
            num_decks * num_points_per_deck + 5000 <= isize::MAX,
        ensures
            r == match self.acceptance_error(num_decks, num_points_per_deck) {
                Some(e) => Err::<(), ScoringError>(e),
                None => Ok(()),
            },
            self.materialize_error(num_decks, num_points_per_deck) is None ==> exists|m: MaterializedScoringParameters| {
                &&& m.wins() == self.materialized_windows(num_decks, num_points_per_deck).0
                &&& m.loses() == self.materialized_windows(num_decks, num_points_per_deck).1
                &&& m.decks() == num_decks
                &&& m.points_per_deck() == num_points_per_deck
            },
    {
        let m = match self.materialize(num_decks, num_points_per_deck) {
            Ok(m) => m,
            Err(e) => {
                return Err(e);
            },
        };
        proof {
            let c = self.materialized_for(num_decks, num_points_per_deck);
            m.lemma_explain_same_windows(c);
        }
        match m.explain() {
            Ok(_) => Ok(()),
            Err(e) => Err(e),
        }
    }

    /// The default parameters are within reach for any number of decks whose
    /// points, with some room to spare, are.
    pub proof fn lemma_default_in_range(self, num_decks: usize)
        requires
            self.is_default(),
            num_decks * 100 + 5000 <= window_bound(),
        ensures
            self.in_range(num_decks, 100),
    {
        assert(self.adjustment(num_decks) == 0);
        let s = self.step_size_spec(num_decks);
        let nd = num_decks as int;
        assert(s == nd * 20);
        assert(0 <= nd * 20 <= nd * 100 && 4 * (nd * 20) <= nd * 100) by (nonlinear_arith)
            requires
                nd >= 0,
        ;
    }
}

/// Whether two adjustment tables hold the same adjustments: equal sizes, and
/// each number of decks of the first adjusted the same way in the second.
fn same_adjustments(a: &HashMap<usize, isize>, b: &HashMap<usize, isize>) -> (r: bool)
    ensures
        r == (a@ == b@),
{
    broadcast use vstd::std_specs::hash::group_hash_axioms;
    if a.len() != b.len() {
        return false;
    }
    for k in it: a.keys()
        invariant
            a@.len() == b@.len(),
            it.seq() == vstd::std_specs::hash::spec_keys_iter(a).remaining(),
            forall|i: int| #![trigger it.seq()[i]] 0 <= i < it.index() ==> b@.contains_key(*it.seq()[i]) && b@[*it.seq()[i]] == a@[*it.seq()[i]],
    {
        match b.get(k) {
            Some(v) => {
                if *v != *a.get(k).unwrap() {
                    return false;
                }
            },
            None => {
                return false;
            },
        }
    }
    proof {
        let s = vstd::std_specs::hash::spec_keys_iter(a).remaining();
        assert forall|k: usize| a@.dom().contains(k) implies b@.contains_key(k) && b@[k] == a@[k] by {
            assert(s.unref().to_set().contains(k));
            assert(s.unref().contains(k));
            let i = choose|i: int| 0 <= i < s.unref().len() && s.unref()[i] == k;
            assert(*s[i] == k);
        }
        vstd::set_lib::lemma_subset_equality(a@.dom(), b@.dom());
        assert(a@ =~= b@);
    }
    true
}

impl PartialEq for GameScoringParameters {
    fn eq(&self, other: &Self) -> (r: bool) {
        self.step_size_per_deck == other.step_size_per_deck
            && same_adjustments(&self.step_adjustments, &other.step_adjustments)
            && self.num_steps_to_non_landlord_turnover == other.num_steps_to_non_landlord_turnover
            && self.deadzone_size == other.deadzone_size
            && self.truncate_zero_crossing_window == other.truncate_zero_crossing_window
            && self.bonus_level_policy == other.bonus_level_policy
    }
}

impl PartialEqSpecImpl for GameScoringParameters {
    open spec fn obeys_eq_spec() -> bool {
        true
    }

    open spec fn eq_spec(&self, other: &Self) -> bool {
        self.same_parameters(*other)
    }
}

impl Eq for GameScoringParameters {
}

impl Clone for GameScoringParameters {
    fn clone(&self) -> (r: Self)
        ensures
            r.same_parameters(*self),
    {
        GameScoringParameters {
            step_size_per_deck: self.step_size_per_deck,
            step_adjustments: self.step_adjustments.clone(),
            num_steps_to_non_landlord_turnover: self.num_steps_to_non_landlord_turnover,
            deadzone_size: self.deadzone_size,
            truncate_zero_crossing_window: self.truncate_zero_crossing_window,
            bonus_level_policy: self.bonus_level_policy,
        }
    }
}


/// Only a landlord team that won earns a bonus level: a result with the
/// bonus added never has a bonus for a lost game, a lost game keeps its
/// levels as they were, and a won game by a smaller landlord team under the
/// bonus policy gains exactly one level more.
pub proof fn law_bonus_only_for_a_win(gsr: PartialGameScoreResult, policy: BonusLevelPolicy, smaller_landlord_team_size: bool)
    requires
        gsr.landlord_delta < usize::MAX,
    ensures
        with_bonus(gsr, policy, smaller_landlord_team_size).landlord_won == gsr.landlord_won,
        with_bonus(gsr, policy, smaller_landlord_team_size).landlord_bonus ==> gsr.landlord_won,
        !gsr.landlord_won ==> !with_bonus(gsr, policy, smaller_landlord_team_size).landlord_bonus
            && with_bonus(gsr, policy, smaller_landlord_team_size).landlord_delta == gsr.landlord_delta,
        gsr.landlord_won && policy == BonusLevelPolicy::BonusLevelForSmallerLandlordTeam && smaller_landlord_team_size
            ==> with_bonus(gsr, policy, smaller_landlord_team_size).landlord_bonus
                && with_bonus(gsr, policy, smaller_landlord_team_size).landlord_delta == gsr.landlord_delta + 1,
        !(policy == BonusLevelPolicy::BonusLevelForSmallerLandlordTeam && smaller_landlord_team_size)
            ==> with_bonus(gsr, policy, smaller_landlord_team_size).landlord_delta == gsr.landlord_delta,
        with_bonus(gsr, policy, smaller_landlord_team_size).non_landlord_delta == gsr.non_landlord_delta,
{
}

/// Scoring a game either way: the side that loses gains no level, so a lost
/// game gives the landlord's team no level and a won game gives the other
/// team none.
pub proof fn law_losers_gain_nothing(m: MaterializedScoringParameters, p: int)
    ensures
        m.score_spec(p) matches Ok(g) ==> (!g.landlord_won ==> g.landlord_delta == 0) && (g.landlord_won ==> g.non_landlord_delta == 0),
{
}

} // verus!
