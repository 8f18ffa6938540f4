//! Skill definitions and compiled skills.
use crate::context::SkillTags;
use crate::graph::{GraphView, SkillGraph};
use crate::keys::{add_key, copy_keys, key_list, no_keys};
use crate::value::{
    args_view, copy_args, copy_node, ArgsView, NodeView, SkillArgs, SkillExpr, SkillId, SkillNode,
};
use vstd::prelude::*;

verus! {

/// What a caster must have before a skill starts.
#[derive(Debug)]
pub enum SkillRequirement {
    /// An amount of a resource, which is spent.
    Cost { resource: String, amount: SkillExpr },
    /// That the skill is not cooling down; it cools down for this long afterwards.
    Cooldown { seconds: SkillExpr },
}

pub enum RequirementView {
    Cost { resource: Seq<char>, amount: Seq<char> },
    Cooldown { seconds: Seq<char> },
}

impl SkillRequirement {
    pub open spec fn view(&self) -> RequirementView {
        match self {
            SkillRequirement::Cost { resource, amount } => RequirementView::Cost {
                resource: resource@,
                amount: amount@,
            },
            SkillRequirement::Cooldown { seconds } => RequirementView::Cooldown {
                seconds: seconds@,
            },
        }
    }
}

impl Clone for SkillRequirement {
    fn clone(&self) -> (r: SkillRequirement)
        ensures
            r == *self,
    {
        match self {
            SkillRequirement::Cost { resource, amount } => SkillRequirement::Cost {
                resource: resource.clone(),
                amount: amount.clone(),
            },
            SkillRequirement::Cooldown { seconds } => SkillRequirement::Cooldown {
                seconds: seconds.clone(),
            },
        }
    }
}

pub open spec fn requirements_view(s: Seq<SkillRequirement>) -> Seq<RequirementView> {
    Seq::new(s.len(), |i: int| s[i]@)
}

/// A copy of a list of requirements.
pub fn copy_requirements(l: &Vec<SkillRequirement>) -> (r: Vec<SkillRequirement>)
    ensures
        r@ == l@,
{
    let mut out: Vec<SkillRequirement> = Vec::new();
    let n: usize = l.len();
    let mut i: usize = 0;
    while i < n
        invariant
            i <= n,
            n == l@.len(),
            out@ == l@.subrange(0, i as int),
        decreases n - i,
    {
        out.push(l[i].clone());
        i = i + 1;
        assert(out@ =~= l@.subrange(0, i as int));
    }
    assert(out@ =~= l@);
    out
}

/// The contents of a list of texts.
pub open spec fn strings_view(s: Seq<String>) -> Seq<Seq<char>> {
    Seq::new(s.len(), |i: int| s[i]@)
}

/// A copy of a list of texts.
pub fn copy_strings(l: &Vec<String>) -> (r: Vec<String>)
    ensures
        r@ == l@,
{
    let mut out: Vec<String> = Vec::new();
    let n: usize = l.len();
    let mut i: usize = 0;
    while i < n
        invariant
            i <= n,
            n == l@.len(),
            out@ == l@.subrange(0, i as int),
        decreases n - i,
    {
        out.push(l[i].clone());
        i = i + 1;
        assert(out@ =~= l@.subrange(0, i as int));
    }
    assert(out@ =~= l@);
    out
}

/// The members of a list, each where it first occurs.
pub open spec fn first_occurrences(l: Seq<Seq<char>>) -> Seq<Seq<char>>
    decreases l.len(),
{
    if l.len() == 0 {
        Seq::empty()
    } else {
        let before = first_occurrences(l.drop_last());
        if before.contains(l.last()) {
            before
        } else {
            before.push(l.last())
        }
    }
}

/// The set of the texts in a list, in the order in which they first occur.
pub fn tag_set(l: &Vec<String>) -> (r: SkillTags)
    ensures
        key_list(r) == first_occurrences(strings_view(l@)),
{
    let mut out: SkillTags = no_keys();
    let ghost s = strings_view(l@);
    let n: usize = l.len();
    let mut i: usize = 0;
    assert(s.subrange(0, 0) =~= Seq::empty());
    while i < n
        invariant
            i <= n,
            n == l@.len(),
            s == strings_view(l@),
            key_list(out) == first_occurrences(s.subrange(0, i as int)),
        decreases n - i,
    {
        let _ = add_key(&mut out, l[i].clone());
        i = i + 1;
        proof {
            let p = s.subrange(0, i as int);
            assert(p.drop_last() =~= s.subrange(0, i - 1));
            assert(p.last() == l@[i - 1]@);
        }
    }
    assert(s.subrange(0, n as int) =~= s);
    out
}

/// The cast model of a skill that names none.
pub fn default_cast_model() -> (r: String)
    ensures
        r@ == "direct"@,
{
    "direct".to_owned()
}

/// A skill as it is written.
#[derive(Debug)]
pub struct SkillDef {
    pub id: SkillId,
    pub tags: Vec<String>,
    pub cast_model: String,
    pub requirements: Vec<SkillRequirement>,
    pub params: SkillArgs,
    pub modifiers: Vec<String>,
    pub body: SkillNode,
}

pub struct DefView {
    pub id: Seq<char>,
    pub tags: Seq<Seq<char>>,
    pub cast_model: Seq<char>,
    pub requirements: Seq<RequirementView>,
    pub params: ArgsView,
    pub modifiers: Seq<Seq<char>>,
    pub body: NodeView,
}

impl SkillDef {
    pub open spec fn view(&self) -> DefView {
        DefView {
            id: self.id@,
            tags: strings_view(self.tags@),
            cast_model: self.cast_model@,
            requirements: requirements_view(self.requirements@),
            params: args_view(self.params),
            modifiers: strings_view(self.modifiers@),
            body: self.body@,
        }
    }
}

impl Clone for SkillDef {
    fn clone(&self) -> (r: SkillDef)
        ensures
            r@ == self@,
    {
        SkillDef {
            id: self.id.clone(),
            tags: copy_strings(&self.tags),
            cast_model: self.cast_model.clone(),
            requirements: copy_requirements(&self.requirements),
            params: copy_args(&self.params),
            modifiers: copy_strings(&self.modifiers),
            body: copy_node(&self.body),
        }
    }
}

/// What a skill does once its cast model and its modifiers have been applied.
#[derive(Debug)]
pub struct SkillPlan {
    pub root: SkillNode,
    pub stats: SkillArgs,
}

pub struct PlanView {
    pub root: NodeView,
    pub stats: ArgsView,
}

impl SkillPlan {
    pub open spec fn view(&self) -> PlanView {
        PlanView { root: self.root@, stats: args_view(self.stats) }
    }

    pub fn new(root: SkillNode, stats: SkillArgs) -> (r: SkillPlan)
        ensures
            r@ == (PlanView { root: root@, stats: args_view(stats) }),
    {
        SkillPlan { root, stats }
    }
}

/// A compiled skill.
#[derive(Debug)]
pub struct SkillCompiled {
    pub id: SkillId,
    pub tags: SkillTags,
    pub cast_model: String,
    pub requirements: Vec<SkillRequirement>,
    pub plan: SkillPlan,
    pub graph: SkillGraph,
}

pub struct CompiledView {
    pub id: Seq<char>,
    pub tags: Seq<Seq<char>>,
    pub cast_model: Seq<char>,
    pub requirements: Seq<RequirementView>,
    pub plan: PlanView,
    pub graph: GraphView,
}

impl SkillCompiled {
    pub open spec fn view(&self) -> CompiledView {
        CompiledView {
            id: self.id@,
            tags: key_list(self.tags),
            cast_model: self.cast_model@,
            requirements: requirements_view(self.requirements@),
            plan: self.plan@,
            graph: self.graph@,
        }
    }
}

impl Clone for SkillPlan {
    fn clone(&self) -> (r: SkillPlan)
        ensures
            r@ == self@,
    {
        SkillPlan { root: copy_node(&self.root), stats: copy_args(&self.stats) }
    }
}

impl Clone for SkillCompiled {
    fn clone(&self) -> (r: SkillCompiled)
        ensures
            r@ == self@,
            r.id == self.id,
    {
        SkillCompiled {
            id: self.id.clone(),
            tags: copy_keys(&self.tags),
            cast_model: self.cast_model.clone(),
            requirements: copy_requirements(&self.requirements),
            plan: self.plan.clone(),
            graph: self.graph.clone(),
        }
    }
}

/// The law of tags: a skill has each of its tags once, none is lost and none is added, and they
/// stand in the order in which they first occur.
pub proof fn law_tags_are_kept(l: Seq<Seq<char>>, tag: Seq<char>)
    ensures
        first_occurrences(l).contains(tag) <==> l.contains(tag),
        first_occurrences(l).no_duplicates(),
        l.no_duplicates() ==> first_occurrences(l) == l,
    decreases l.len(),
{
    if l.len() > 0 {
        let p = l.drop_last();
        let before = first_occurrences(p);
        law_tags_are_kept(p, tag);
        law_tags_are_kept(p, l.last());
        assert(l =~= p.push(l.last()));
        if l.contains(tag) && tag != l.last() {
            let i = l.index_of(tag);
            assert(p[i] == tag);
        }
        if p.contains(tag) {
            let i = p.index_of(tag);
            assert(l[i] == tag);
        }
        assert(l.contains(l.last())) by {
            assert(l[l.len() - 1] == l.last());
        }
        let after = first_occurrences(l);
        if !before.contains(l.last()) {
            assert(after[before.len() as int] == l.last());
            if before.contains(tag) {
                let i = before.index_of(tag);
                assert(after[i] == tag);
            }
            if after.contains(tag) {
                let i = after.index_of(tag);
                if i < before.len() {
                    assert(before[i] == tag);
                }
            }
        }
        if l.no_duplicates() {
            assert(p.no_duplicates());
            if p.contains(l.last()) {
                let i = p.index_of(l.last());
                assert(l[i] == l[l.len() - 1]);
            }
        }
    }
}

} // verus!
