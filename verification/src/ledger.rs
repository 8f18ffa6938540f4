//! Numbers that belong to an owner under a name: resource pools and cooldowns.
use crate::error::{ErrorView, SkillError};
use crate::number::{ask_result, num_lt, num_zero, NumberOp, NumberTable, NumbersView, SkillNumber};
use crate::text::same_text;
use crate::value::SkillId;
use vstd::prelude::*;

verus! {

/// An owner and a name.
pub type LedgerKey = (u64, Seq<char>);

/// Numbers by owner and name.
pub type LedgerMap = Map<LedgerKey, SkillNumber>;

#[derive(Debug)]
struct LedgerEntry {
    owner: u64,
    name: String,
    value: SkillNumber,
}

/// A table of numbers by owner and name.
#[derive(Debug)]
pub struct Ledger {
    entries: Vec<LedgerEntry>,
}

spec fn entry_at(s: Seq<LedgerEntry>, key: LedgerKey, i: int) -> bool {
    0 <= i < s.len() && s[i].owner == key.0 && s[i].name@ == key.1
}

spec fn has_entry(s: Seq<LedgerEntry>, key: LedgerKey) -> bool {
    exists|i: int| entry_at(s, key, i)
}

spec fn entry_value(s: Seq<LedgerEntry>, key: LedgerKey) -> SkillNumber {
    s[choose|i: int| entry_at(s, key, i)].value
}

spec fn entries_map(s: Seq<LedgerEntry>) -> LedgerMap {
    Map::new(|key: LedgerKey| has_entry(s, key), |key: LedgerKey| entry_value(s, key))
}

spec fn no_double(s: Seq<LedgerEntry>) -> bool {
    forall|i: int, j: int|
        0 <= i < s.len() && 0 <= j < s.len() && (#[trigger] s[i]).owner == (#[trigger] s[j]).owner
            && s[i].name@ == s[j].name@ ==> i == j
}

proof fn lemma_entry(s: Seq<LedgerEntry>, key: LedgerKey, i: int)
    requires
        no_double(s),
        entry_at(s, key, i),
    ensures
        has_entry(s, key),
        entry_value(s, key) == s[i].value,
{
    let j = choose|j: int| entry_at(s, key, j);
    assert(entry_at(s, key, j));
    assert(s[i].owner == s[j].owner);
}

/// The number of an owner under a name; zero where there is none.
pub open spec fn amount(m: LedgerMap, owner: u64, name: Seq<char>) -> SkillNumber {
    if m.contains_key((owner, name)) {
        m[(owner, name)]
    } else {
        num_zero()
    }
}

impl Ledger {
    #[verifier::type_invariant]
    spec fn sound(self) -> bool {
        no_double(self.entries@)
    }

    pub closed spec fn view(&self) -> LedgerMap {
        entries_map(self.entries@)
    }

    pub fn new() -> (r: Ledger)
        ensures
            r@ == LedgerMap::empty(),
    {
        let r = Ledger { entries: Vec::new() };
        assert(r@ =~= LedgerMap::empty()) by {
            assert forall|key: LedgerKey| !has_entry(r.entries@, key) by {}
        }
        r
    }

    fn place(&self, owner: u64, name: &str) -> (r: Option<usize>)
        ensures
            match r {
                Some(i) => entry_at(self.entries@, (owner, name@), i as int),
                None => !has_entry(self.entries@, (owner, name@)),
            },
    {
        let n: usize = self.entries.len();
        let mut i: usize = 0;
        while i < n
            invariant
                i <= n,
                n == self.entries@.len(),
                forall|j: int| 0 <= j < i ==> !entry_at(self.entries@, (owner, name@), j),
            decreases n - i,
        {
            if self.entries[i].owner == owner && same_text(self.entries[i].name.as_str(), name) {
                return Some(i);
            }
            i = i + 1;
        }
        None
    }

    /// The number of an owner under a name; zero where there is none.
    pub fn get(&self, owner: u64, name: &str) -> (r: SkillNumber)
        ensures
            r == amount(self@, owner, name@),
    {
        proof {
            use_type_invariant(self);
        }
        match self.place(owner, name) {
            Some(i) => {
                proof {
                    lemma_entry(self.entries@, (owner, name@), i as int);
                }
                self.entries[i].value
            },
            None => SkillNumber::zero(),
        }
    }

    fn with(self, owner: u64, name: String, value: SkillNumber) -> (r: Ledger)
        ensures
            r@ == self@.insert((owner, name@), value),
    {
        let found = self.place(owner, name.as_str());
        proof {
            use_type_invariant(&self);
        }
        let Ledger { mut entries } = self;
        let ghost before = entries@;
        let ghost key = (owner, name@);
        match found {
            Some(i) => {
                let mut entry = LedgerEntry { owner, name, value };
                std::mem::swap(&mut entries[i], &mut entry);
            },
            None => {
                entries.push(LedgerEntry { owner, name, value });
            },
        }
        proof {
            let now = entries@;
            let place = match found {
                Some(i) => i as int,
                None => before.len() as int,
            };
            assert(now[place].owner == owner && now[place].name@ == name@ && now[place].value
                == value);
            assert forall|i: int| 0 <= i < before.len() && i != place implies #[trigger] now[i]
                == before[i] by {}
            assert forall|i: int, j: int|
                0 <= i < now.len() && 0 <= j < now.len() && (#[trigger] now[i]).owner == (
                #[trigger] now[j]).owner && now[i].name@ == now[j].name@ implies i == j by {
                if i != place && j == place {
                    assert(entry_at(before, key, i));
                    if found is Some {
                        assert(before[i].owner == before[place].owner);
                    }
                } else if j != place && i == place {
                    assert(entry_at(before, key, j));
                    if found is Some {
                        assert(before[j].owner == before[place].owner);
                    }
                } else if i != place && j != place {
                    assert(before[i].owner == before[j].owner);
                }
            }
            assert forall|k: LedgerKey| has_entry(now, k) == (has_entry(before, k) || k
                == key) by {
                if has_entry(now, k) {
                    let i = choose|i: int| entry_at(now, k, i);
                    if i != place {
                        assert(entry_at(before, k, i));
                    }
                }
                if has_entry(before, k) && k != key {
                    let i = choose|i: int| entry_at(before, k, i);
                    assert(entry_at(now, k, i));
                }
                if k == key {
                    assert(entry_at(now, k, place));
                }
            }
            assert forall|k: LedgerKey| has_entry(now, k) implies #[trigger] entry_value(now, k)
                == (if k == key {
                value
            } else {
                entry_value(before, k)
            }) by {
                if k == key {
                    assert(entry_at(now, k, place));
                    lemma_entry(now, k, place);
                } else {
                    let i = choose|i: int| entry_at(before, k, i);
                    assert(entry_at(before, k, i));
                    assert(entry_at(now, k, i));
                    lemma_entry(now, k, i);
                    lemma_entry(before, k, i);
                }
            }
            assert(entries_map(now) =~= entries_map(before).insert(key, value));
        }
        Ledger { entries }
    }

    /// Sets the number of an owner under a name.
    pub fn set(&mut self, owner: u64, name: String, value: SkillNumber)
        ensures
            final(self)@ == old(self)@.insert((owner, name@), value),
    {
        let mut whole = Ledger::new();
        std::mem::swap(&mut whole, self);
        *self = whole.with(owner, name, value);
    }

    /// The same table once more.
    pub fn copy(&self) -> (r: Ledger)
        ensures
            r@ == self@,
    {
        let mut entries: Vec<LedgerEntry> = Vec::new();
        let n: usize = self.entries.len();
        let mut i: usize = 0;
        while i < n
            invariant
                i <= n,
                n == self.entries@.len(),
                entries@ == self.entries@.subrange(0, i as int),
            decreases n - i,
        {
            let e = &self.entries[i];
            entries.push(LedgerEntry { owner: e.owner, name: e.name.clone(), value: e.value });
            i = i + 1;
            assert(entries@ =~= self.entries@.subrange(0, i as int));
        }
        assert(entries@ =~= self.entries@);
        proof {
            use_type_invariant(self);
        }
        Ledger { entries }
    }

    /// The table with every number less by an amount, in single precision, without those that are
    /// not above zero then.
    pub fn reduced(&self, by: SkillNumber, numbers: &NumberTable) -> (r: Result<Ledger, SkillError>)
        ensures
            match r {
                Ok(l) => all_answered(self@, by, numbers@) && l@ == reduced_map(
                    self@,
                    by,
                    numbers@,
                ),
                Err(e) => asks_for_one(self@, by, numbers@, e@),
            },
    {
        proof {
            use_type_invariant(self);
        }
        let mut entries: Vec<LedgerEntry> = Vec::new();
        let ghost s = self.entries@;
        let ghost mut from = Seq::<int>::empty();
        let n: usize = self.entries.len();
        let mut i: usize = 0;
        while i < n
            invariant
                i <= n,
                s == self.entries@,
                n == s.len(),
                no_double(s),
                from.len() == entries@.len(),
                forall|j: int| 0 <= j < from.len() ==> 0 <= #[trigger] from[j] < i,
                forall|j: int, k: int|
                    0 <= j < k < from.len() ==> (#[trigger] from[j]) < (#[trigger] from[k]),
                forall|j: int|
                    0 <= j < from.len() ==> (#[trigger] entries@[j]).owner == s[from[j]].owner
                        && entries@[j].name@ == s[from[j]].name@ && left_after(
                        s[from[j]].value,
                        by,
                        numbers@,
                    ) == Some(entries@[j].value),
                forall|k: int|
                    0 <= k < i && left_after((#[trigger] s[k]).value, by, numbers@) is Some ==> exists|
                        j: int,
                    |
                        0 <= j < from.len() && #[trigger] from[j] == k,
                forall|k: int|
                    0 <= k < i ==> ask_result(
                        numbers@,
                        NumberOp::SubSingle,
                        (#[trigger] s[k]).value,
                        by,
                    ) is Ok,
            decreases n - i,
        {
            let e = &self.entries[i];
            match numbers.result(NumberOp::SubSingle, e.value, by) {
                Ok(value) => {
                    if SkillNumber::zero().less(value) {
                        let ghost before = from;
                        entries.push(
                            LedgerEntry { owner: e.owner, name: e.name.clone(), value },
                        );
                        proof {
                            from = from.push(i as int);
                            assert(from[before.len() as int] == i);
                            assert forall|k: int|
                                0 <= k < i + 1 && left_after(
                                    (#[trigger] s[k]).value,
                                    by,
                                    numbers@,
                                ) is Some implies exists|j: int|
                                0 <= j < from.len() && #[trigger] from[j] == k by {
                                if k < i {
                                    let j = choose|j: int|
                                        0 <= j < before.len() && #[trigger] before[j] == k;
                                    assert(from[j] == k);
                                }
                            }
                        }
                    }
                },
                Err(q) => {
                    proof {
                        let key = (s[i as int].owner, s[i as int].name@);
                        assert(entry_at(s, key, i as int));
                        lemma_entry(s, key, i as int);
                        assert(self@.contains_key(key));
                    }
                    return Err(SkillError::Unanswered(q));
                },
            }
            i = i + 1;
        }
        proof {
            let now = entries@;
            assert forall|a: int, b: int|
                0 <= a < now.len() && 0 <= b < now.len() && (#[trigger] now[a]).owner == (
                #[trigger] now[b]).owner && now[a].name@ == now[b].name@ implies a == b by {
                assert(s[from[a]].owner == s[from[b]].owner);
                assert(from[a] == from[b]);
            }
            assert forall|key: LedgerKey| self@.contains_key(key) implies ask_result(
                numbers@,
                NumberOp::SubSingle,
                #[trigger] self@[key],
                by,
            ) is Ok by {
                let k = choose|k: int| entry_at(s, key, k);
                assert(entry_at(s, key, k));
                lemma_entry(s, key, k);
            }
            assert forall|key: LedgerKey|
                has_entry(now, key) == (self@.contains_key(key) && left_after(
                    self@[key],
                    by,
                    numbers@,
                ) is Some) by {
                if has_entry(now, key) {
                    let j = choose|j: int| entry_at(now, key, j);
                    assert(entry_at(now, key, j));
                    assert(entry_at(s, key, from[j]));
                    lemma_entry(s, key, from[j]);
                }
                if self@.contains_key(key) && left_after(self@[key], by, numbers@) is Some {
                    let k = choose|k: int| entry_at(s, key, k);
                    assert(entry_at(s, key, k));
                    lemma_entry(s, key, k);
                    assert(left_after(s[k].value, by, numbers@) is Some);
                    let j = choose|j: int| 0 <= j < from.len() && #[trigger] from[j] == k;
                    assert(from[j] == k);
                    assert(entry_at(now, key, j));
                }
            }
            assert forall|key: LedgerKey| has_entry(now, key) implies #[trigger] entry_value(
                now,
                key,
            ) == left_after(self@[key], by, numbers@)->0 by {
                let j = choose|j: int| entry_at(now, key, j);
                assert(entry_at(now, key, j));
                lemma_entry(now, key, j);
                assert(entry_at(s, key, from[j]));
                lemma_entry(s, key, from[j]);
            }
            assert(entries_map(now) =~= reduced_map(self@, by, numbers@));
        }
        Ok(Ledger { entries })
    }
}

/// What is left of a number, where something above zero is.
pub open spec fn left_after(value: SkillNumber, by: SkillNumber, n: NumbersView) -> Option<
    SkillNumber,
> {
    match ask_result(n, NumberOp::SubSingle, value, by) {
        Ok(x) => if num_lt(num_zero(), x) {
            Some(x)
        } else {
            None
        },
        Err(_) => None,
    }
}

/// The host knows what is left of each number.
pub open spec fn all_answered(m: LedgerMap, by: SkillNumber, n: NumbersView) -> bool {
    forall|key: LedgerKey|
        m.contains_key(key) ==> ask_result(n, NumberOp::SubSingle, #[trigger] m[key], by) is Ok
}

/// The error asks what is left of one of the numbers.
pub open spec fn asks_for_one(m: LedgerMap, by: SkillNumber, n: NumbersView, e: ErrorView) -> bool {
    exists|key: LedgerKey| #[trigger]
        m.contains_key(key) && ask_result(n, NumberOp::SubSingle, m[key], by) is Err && e
            == ErrorView::Unanswered(ask_result(n, NumberOp::SubSingle, m[key], by)->Err_0)
}

/// What is left of every number, without those of which nothing is.
pub open spec fn reduced_map(m: LedgerMap, by: SkillNumber, n: NumbersView) -> LedgerMap {
    Map::new(
        |key: LedgerKey| m.contains_key(key) && left_after(m[key], by, n) is Some,
        |key: LedgerKey| left_after(m[key], by, n)->0,
    )
}

/// Resources by owner and name.
#[derive(Debug)]
pub struct SkillResourcePools {
    values: Ledger,
}

impl SkillResourcePools {
    pub closed spec fn view(&self) -> LedgerMap {
        self.values@
    }

    pub fn new() -> (r: SkillResourcePools)
        ensures
            r@ == LedgerMap::empty(),
    {
        SkillResourcePools { values: Ledger::new() }
    }

    /// How much of a resource an owner has.
    pub fn get(&self, owner: u64, resource: &str) -> (r: SkillNumber)
        ensures
            r == amount(self@, owner, resource@),
    {
        self.values.get(owner, resource)
    }

    /// Sets how much of a resource an owner has.
    pub fn set(&mut self, owner: u64, resource: String, value: SkillNumber)
        ensures
            final(self)@ == old(self)@.insert((owner, resource@), value),
    {
        self.values.set(owner, resource, value);
    }

    /// Gives an owner more of a resource.
    pub fn add(
        &mut self,
        owner: u64,
        resource: String,
        more: SkillNumber,
        numbers: &NumberTable,
    ) -> (r: Result<(), SkillError>)
        ensures
            match ask_result(
                numbers@,
                NumberOp::Add,
                amount(old(self)@, owner, resource@),
                more,
            ) {
                Ok(x) => r is Ok && final(self)@ == old(self)@.insert((owner, resource@), x),
                Err(q) => r matches Err(e) && e@ == ErrorView::Unanswered(q) && *final(self)
                    == *old(self),
            },
    {
        let current = self.get(owner, resource.as_str());
        match numbers.result(NumberOp::Add, current, more) {
            Ok(x) => {
                self.set(owner, resource, x);
                Ok(())
            },
            Err(q) => Err(SkillError::Unanswered(q)),
        }
    }

    /// The same pools once more.
    pub fn copy(&self) -> (r: SkillResourcePools)
        ensures
            r@ == self@,
    {
        SkillResourcePools { values: self.values.copy() }
    }
}

/// What is left of cooldowns, by owner and skill.
#[derive(Debug)]
pub struct SkillCooldowns {
    remaining: Ledger,
}

/// The cooldowns after one was started. One of no length is not started.
pub open spec fn started(m: LedgerMap, owner: u64, skill: Seq<char>, seconds: SkillNumber) -> LedgerMap {
    if num_lt(num_zero(), seconds) {
        m.insert((owner, skill), seconds)
    } else {
        m
    }
}

impl SkillCooldowns {
    pub closed spec fn view(&self) -> LedgerMap {
        self.remaining@
    }

    pub fn new() -> (r: SkillCooldowns)
        ensures
            r@ == LedgerMap::empty(),
    {
        SkillCooldowns { remaining: Ledger::new() }
    }

    /// For how long a skill of an owner still cools down.
    pub fn remaining(&self, owner: u64, skill: &SkillId) -> (r: SkillNumber)
        ensures
            r == amount(self@, owner, skill@),
    {
        self.remaining.get(owner, skill.0.as_str())
    }

    /// Lets a skill of an owner cool down.
    pub fn start(&mut self, owner: u64, skill: SkillId, seconds: SkillNumber)
        ensures
            final(self)@ == started(old(self)@, owner, skill@, seconds),
    {
        if SkillNumber::zero().less(seconds) {
            self.remaining.set(owner, skill.0, seconds);
        }
    }

    /// Lets time pass. A cooldown that is over is forgotten.
    pub fn tick(&mut self, delta_seconds: SkillNumber, numbers: &NumberTable) -> (r: Result<
        (),
        SkillError,
    >)
        ensures
            match r {
                Ok(_) => all_answered(old(self)@, delta_seconds, numbers@) && final(self)@
                    == reduced_map(old(self)@, delta_seconds, numbers@),
                Err(e) => *final(self) == *old(self) && asks_for_one(
                    old(self)@,
                    delta_seconds,
                    numbers@,
                    e@,
                ),
            },
    {
        match self.remaining.reduced(delta_seconds, numbers) {
            Ok(l) => {
                self.remaining = l;
                Ok(())
            },
            Err(e) => Err(e),
        }
    }

    /// The same cooldowns once more.
    pub fn copy(&self) -> (r: SkillCooldowns)
        ensures
            r@ == self@,
    {
        SkillCooldowns { remaining: self.remaining.copy() }
    }
}

/// Lets time pass for all cooldowns.
pub fn tick_skill_cooldowns(
    delta_seconds: SkillNumber,
    cooldowns: &mut SkillCooldowns,
    numbers: &NumberTable,
) -> (r: Result<(), SkillError>)
    ensures
        match r {
            Ok(_) => all_answered(old(cooldowns)@, delta_seconds, numbers@) && final(cooldowns)@
                == reduced_map(old(cooldowns)@, delta_seconds, numbers@),
            Err(e) => *final(cooldowns) == *old(cooldowns) && asks_for_one(
                old(cooldowns)@,
                delta_seconds,
                numbers@,
                e@,
            ),
        },
{
    cooldowns.tick(delta_seconds, numbers)
}

} // verus!
