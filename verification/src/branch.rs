//! Suspended branches of an execution, and what an execution hands out.
use crate::action::{
    intents_view, requests_view, settled_view, spawns_view, IntentView, RequestView, ResolvedView,
    SkillEffectRequest, SkillEffectResolved, SkillEffectSpawn, SkillIntent, SpawnView,
};
use crate::context::{ContextView, SignalView, SkillContext, SkillRuntimeSignal};
use crate::value::SkillExpr;
use vstd::prelude::*;

verus! {

/// A timer that runs out once. Times are in nanoseconds.
#[derive(Clone, Copy, Debug, PartialEq, Eq, Structural)]
pub struct SkillTimer {
    pub duration: u128,
    pub elapsed: u128,
    pub finished: bool,
}

/// A timer that has not been started.
pub open spec fn fresh_timer(duration: u128) -> SkillTimer {
    SkillTimer { duration, elapsed: 0, finished: false }
}

/// A timer after some time. A timer that has run out stays as it is.
pub open spec fn ticked(t: SkillTimer, delta: u128) -> SkillTimer {
    if t.finished {
        t
    } else if t.elapsed + delta >= t.duration {
        SkillTimer { duration: t.duration, elapsed: t.duration, finished: true }
    } else {
        SkillTimer {
            duration: t.duration,
            elapsed: (t.elapsed + delta) as u128,
            finished: false,
        }
    }
}

impl SkillTimer {
    pub fn new(duration: u128) -> (r: SkillTimer)
        ensures
            r == fresh_timer(duration),
    {
        SkillTimer { duration, elapsed: 0, finished: false }
    }

    /// The timer after some time.
    pub fn tick(self, delta: u128) -> (r: SkillTimer)
        ensures
            r == ticked(self, delta),
    {
        if self.finished {
            return self;
        }
        let done: bool = self.elapsed >= self.duration || delta >= self.duration - self.elapsed;
        if done {
            SkillTimer { duration: self.duration, elapsed: self.duration, finished: true }
        } else {
            SkillTimer {
                duration: self.duration,
                elapsed: self.elapsed + delta,
                finished: false,
            }
        }
    }
}

/// What a branch does next.
#[derive(Debug)]
pub enum SkillContinuation {
    Node(u64),
    DelayThen { seconds: SkillExpr, node: u64 },
}

pub enum FrameView {
    Node(u64),
    DelayThen { seconds: Seq<char>, node: u64 },
}

impl SkillContinuation {
    pub open spec fn view(&self) -> FrameView {
        match self {
            SkillContinuation::Node(node) => FrameView::Node(*node),
            SkillContinuation::DelayThen { seconds, node } => FrameView::DelayThen {
                seconds: seconds@,
                node: *node,
            },
        }
    }

    /// The node that is run in the end.
    pub fn node(&self) -> (r: u64)
        ensures
            r == match self@ {
                FrameView::Node(node) => node,
                FrameView::DelayThen { seconds, node } => node,
            },
    {
        match self {
            SkillContinuation::Node(node) => *node,
            SkillContinuation::DelayThen { node, .. } => *node,
        }
    }
}

impl Clone for SkillContinuation {
    fn clone(&self) -> (r: SkillContinuation)
        ensures
            r == *self,
    {
        match self {
            SkillContinuation::Node(node) => SkillContinuation::Node(*node),
            SkillContinuation::DelayThen { seconds, node } => SkillContinuation::DelayThen {
                seconds: seconds.clone(),
                node: *node,
            },
        }
    }
}

pub open spec fn frames_view(s: Seq<SkillContinuation>) -> Seq<FrameView> {
    Seq::new(s.len(), |i: int| s[i]@)
}

/// A copy of the frames from a place on.
pub fn copy_frames(l: &Vec<SkillContinuation>, from: usize) -> (r: Vec<SkillContinuation>)
    requires
        from <= l@.len(),
    ensures
        r@ == l@.subrange(from as int, l@.len() as int),
{
    let mut out: Vec<SkillContinuation> = Vec::new();
    let n: usize = l.len();
    let mut i: usize = from;
    while i < n
        invariant
            from <= i <= n,
            n == l@.len(),
            out@ == l@.subrange(from as int, i as int),
        decreases n - i,
    {
        out.push(l[i].clone());
        i = i + 1;
        assert(out@ =~= l@.subrange(from as int, i as int));
    }
    out
}

/// What a branch waits for.
#[derive(Debug)]
pub enum SkillWait {
    Delay(SkillTimer),
    Signal(String),
    EffectResolved { request_id: u64 },
}

pub enum WaitView {
    Delay(SkillTimer),
    Signal(Seq<char>),
    EffectResolved { request_id: u64 },
}

impl SkillWait {
    pub open spec fn view(&self) -> WaitView {
        match self {
            SkillWait::Delay(t) => WaitView::Delay(*t),
            SkillWait::Signal(name) => WaitView::Signal(name@),
            SkillWait::EffectResolved { request_id } => WaitView::EffectResolved {
                request_id: *request_id,
            },
        }
    }
}

impl Clone for SkillWait {
    fn clone(&self) -> (r: SkillWait)
        ensures
            r == *self,
    {
        match self {
            SkillWait::Delay(t) => SkillWait::Delay(*t),
            SkillWait::Signal(name) => SkillWait::Signal(name.clone()),
            SkillWait::EffectResolved { request_id } => SkillWait::EffectResolved {
                request_id: *request_id,
            },
        }
    }
}

/// A suspended branch.
#[derive(Debug)]
pub struct SkillBranch {
    pub wait: SkillWait,
    pub continuation: Vec<SkillContinuation>,
    pub ctx: SkillContext,
}

pub struct BranchView {
    pub wait: WaitView,
    pub continuation: Seq<FrameView>,
    pub ctx: ContextView,
}

impl SkillBranch {
    pub open spec fn view(&self) -> BranchView {
        BranchView {
            wait: self.wait@,
            continuation: frames_view(self.continuation@),
            ctx: self.ctx@,
        }
    }
}

impl Clone for SkillBranch {
    fn clone(&self) -> (r: SkillBranch)
        ensures
            r@ == self@,
    {
        let continuation = copy_frames(&self.continuation, 0);
        assert(continuation@ =~= self.continuation@);
        SkillBranch { wait: self.wait.clone(), continuation, ctx: self.ctx.clone() }
    }
}

pub open spec fn branches_view(s: Seq<SkillBranch>) -> Seq<BranchView> {
    Seq::new(s.len(), |i: int| s[i]@)
}

/// A copy of a list of branches.
pub fn copy_branches(l: &Vec<SkillBranch>) -> (r: Vec<SkillBranch>)
    ensures
        branches_view(r@) == branches_view(l@),
{
    let mut out: Vec<SkillBranch> = Vec::new();
    let n: usize = l.len();
    let mut i: usize = 0;
    while i < n
        invariant
            i <= n,
            n == l@.len(),
            out@.len() == i,
            forall|j: int| 0 <= j < i ==> (#[trigger] out@[j])@ == l@[j]@,
        decreases n - i,
    {
        out.push(l[i].clone());
        i = i + 1;
    }
    assert(branches_view(out@) =~= branches_view(l@));
    out
}

pub open spec fn signals_view(s: Seq<SkillRuntimeSignal>) -> Seq<SignalView> {
    Seq::new(s.len(), |i: int| s[i]@)
}

/// What an execution hands out.
#[derive(Debug)]
pub struct ExecutionOutput {
    pub branches: Vec<SkillBranch>,
    pub intents: Vec<SkillIntent>,
    pub signals: Vec<SkillRuntimeSignal>,
    pub effect_requests: Vec<SkillEffectRequest>,
    pub effect_resolved: Vec<SkillEffectResolved>,
    pub effects: Vec<SkillEffectSpawn>,
}

#[verifier::ext_equal]
pub struct OutputView {
    pub branches: Seq<BranchView>,
    pub intents: Seq<IntentView>,
    pub signals: Seq<SignalView>,
    pub effect_requests: Seq<RequestView>,
    pub effect_resolved: Seq<ResolvedView>,
    pub effects: Seq<SpawnView>,
}

/// Nothing.
pub open spec fn no_output() -> OutputView {
    OutputView {
        branches: Seq::empty(),
        intents: Seq::empty(),
        signals: Seq::empty(),
        effect_requests: Seq::empty(),
        effect_resolved: Seq::empty(),
        effects: Seq::empty(),
    }
}

/// One output behind another.
pub open spec fn both(a: OutputView, b: OutputView) -> OutputView {
    OutputView {
        branches: a.branches + b.branches,
        intents: a.intents + b.intents,
        signals: a.signals + b.signals,
        effect_requests: a.effect_requests + b.effect_requests,
        effect_resolved: a.effect_resolved + b.effect_resolved,
        effects: a.effects + b.effects,
    }
}

/// An output of one branch alone.
pub open spec fn one_branch(b: BranchView) -> OutputView {
    OutputView { branches: seq![b], ..no_output() }
}

/// An output of one signal alone.
pub open spec fn one_signal(s: SignalView) -> OutputView {
    OutputView { signals: seq![s], ..no_output() }
}

impl ExecutionOutput {
    pub open spec fn view(&self) -> OutputView {
        OutputView {
            branches: branches_view(self.branches@),
            intents: intents_view(self.intents@),
            signals: signals_view(self.signals@),
            effect_requests: requests_view(self.effect_requests@),
            effect_resolved: settled_view(self.effect_resolved@),
            effects: spawns_view(self.effects@),
        }
    }

    pub fn new() -> (r: ExecutionOutput)
        ensures
            r@ == no_output(),
    {
        let r = ExecutionOutput {
            branches: Vec::new(),
            intents: Vec::new(),
            signals: Vec::new(),
            effect_requests: Vec::new(),
            effect_resolved: Vec::new(),
            effects: Vec::new(),
        };
        assert(r@ =~= no_output());
        r
    }

    /// An output of one branch alone.
    pub fn of_branch(branch: SkillBranch) -> (r: ExecutionOutput)
        ensures
            r@ == one_branch(branch@),
    {
        let mut r = ExecutionOutput::new();
        r.branches.push(branch);
        assert(r@ =~= one_branch(branch@));
        r
    }

    /// An output of one signal alone.
    pub fn of_signal(signal: SkillRuntimeSignal) -> (r: ExecutionOutput)
        ensures
            r@ == one_signal(signal@),
    {
        let mut r = ExecutionOutput::new();
        r.signals.push(signal);
        assert(r@ =~= one_signal(signal@));
        r
    }

    /// Puts another output behind this one.
    pub fn extend(&mut self, other: ExecutionOutput)
        ensures
            final(self)@ == both(old(self)@, other@),
    {
        let ghost before = self@;
        let ghost more = other@;
        let mut other = other;
        let ghost (b, i, s) = (other.branches@, other.intents@, other.signals@);
        let ghost (q, v, e) = (
            other.effect_requests@,
            other.effect_resolved@,
            other.effects@,
        );
        self.branches.append(&mut other.branches);
        self.intents.append(&mut other.intents);
        self.signals.append(&mut other.signals);
        self.effect_requests.append(&mut other.effect_requests);
        self.effect_resolved.append(&mut other.effect_resolved);
        self.effects.append(&mut other.effects);
        assert(self@.branches =~= before.branches + branches_view(b));
        assert(self@.intents =~= before.intents + intents_view(i));
        assert(self@.signals =~= before.signals + signals_view(s));
        assert(self@.effect_requests =~= before.effect_requests + requests_view(q));
        assert(self@.effect_resolved =~= before.effect_resolved + settled_view(v));
        assert(self@.effects =~= before.effects + spawns_view(e));
        assert(self@ =~= both(before, more));
    }
}

} // verus!
