//! The names of skill files.
use crate::decimal::{decimal, decimal_text, law_decimal_is_unique};
use crate::text::{ends_with, same_text, text_ends_with};
use vstd::prelude::*;

verus! {

/// The end of the name of a skill file.
pub open spec fn skill_suffix() -> Seq<char> {
    ".skill.ron"@
}

/// Whether a file with this name holds a skill.
pub fn is_skill_file(name: &str) -> (r: bool)
    ensures
        r == ends_with(name@, skill_suffix()),
{
    text_ends_with(name, ".skill.ron")
}

/// The name of the new skill file with a number; the first one has none.
pub open spec fn new_name(index: nat) -> Seq<char> {
    if index < 2 {
        "new_skill.skill.ron"@
    } else {
        "new_skill_"@ + decimal(index) + ".skill.ron"@
    }
}

proof fn lemma_names_differ(a: nat, b: nat)
    requires
        2 <= a,
        2 <= b,
        new_name(a) == new_name(b),
    ensures
        a == b,
{
    let (x, y) = (new_name(a), new_name(b));
    let p = "new_skill_"@.len() as int;
    let q = ".skill.ron"@.len() as int;
    assert(x.subrange(p, x.len() - q) =~= decimal(a));
    assert(y.subrange(p, y.len() - q) =~= decimal(b));
    law_decimal_is_unique(a, b);
}

/// The contents of a list of names.
pub open spec fn is_taken(taken: Seq<String>, name: Seq<char>) -> bool {
    exists|i: int| 0 <= i < taken.len() && (#[trigger] taken[i])@ == name
}

fn name_taken(taken: &Vec<String>, name: &str) -> (r: bool)
    ensures
        r == is_taken(taken@, name@),
{
    let n: usize = taken.len();
    let mut i: usize = 0;
    while i < n
        invariant
            i <= n,
            n == taken@.len(),
            forall|j: int| 0 <= j < i ==> (#[trigger] taken@[j])@ != name@,
        decreases n - i,
    {
        if same_text(taken[i].as_str(), name) {
            return true;
        }
        i = i + 1;
    }
    false
}

/// The place of a taken name.
spec fn place_of(taken: Seq<String>, name: Seq<char>) -> int {
    choose|i: int| 0 <= i < taken.len() && (#[trigger] taken[i])@ == name
}

/// The places of the taken names with the numbers from two up to below `k`.
spec fn places(taken: Seq<String>, k: nat) -> Set<int>
    decreases k,
{
    if k <= 2 {
        Set::empty()
    } else {
        places(taken, (k - 1) as nat).insert(place_of(taken, new_name((k - 1) as nat)))
    }
}

proof fn lemma_places(taken: Seq<String>, k: nat)
    requires
        2 <= k,
        forall|j: nat| 2 <= j < k ==> is_taken(taken, #[trigger] new_name(j)),
    ensures
        places(taken, k).finite(),
        places(taken, k).len() == k - 2,
        forall|i: int| places(taken, k).contains(i) ==> 0 <= i < taken.len(),
        forall|i: int| #[trigger]
            places(taken, k).contains(i) ==> exists|j: nat|
                2 <= j < k && taken[i]@ == #[trigger] new_name(j),
    decreases k,
{
    if k > 2 {
        let m = (k - 1) as nat;
        lemma_places(taken, m);
        let p = place_of(taken, new_name(m));
        assert(is_taken(taken, new_name(m)));
        assert(0 <= p < taken.len() && taken[p]@ == new_name(m));
        if places(taken, m).contains(p) {
            let j = choose|j: nat| 2 <= j < m && taken[p]@ == #[trigger] new_name(j);
            lemma_names_differ(j, m);
        }
        assert forall|i: int| #[trigger] places(taken, k).contains(i) implies exists|j: nat|
            2 <= j < k && taken[i]@ == #[trigger] new_name(j) by {
            if i == p {
                assert(2 <= m < k && taken[i]@ == new_name(m));
            } else {
                let j = choose|j: nat| 2 <= j < m && taken[i]@ == #[trigger] new_name(j);
                assert(2 <= j < k && taken[i]@ == new_name(j));
            }
        }
    }
}

proof fn lemma_few_places(s: Set<int>, n: nat)
    requires
        s.finite(),
        forall|i: int| s.contains(i) ==> 0 <= i < n,
    ensures
        s.len() <= n,
    decreases n,
{
    if n == 0 {
        if s.len() > 0 {
            let i = s.choose();
            assert(s.contains(i));
        }
    } else {
        lemma_few_places(s.remove(n - 1), (n - 1) as nat);
    }
}

/// The name is the first that is free, by number.
pub open spec fn first_free(taken: Seq<String>, name: Seq<char>) -> bool {
    if !is_taken(taken, new_name(1)) {
        name == new_name(1)
    } else {
        exists|k: nat|
            2 <= k && name == #[trigger] new_name(k) && !is_taken(taken, name) && forall|j: nat|
                2 <= j < k ==> is_taken(taken, #[trigger] new_name(j))
    }
}

/// The first free name for a new skill file in a directory with these names.
pub fn next_new_skill_path(taken: &Vec<String>) -> (r: String)
    requires
        taken@.len() + 3 <= usize::MAX,
    ensures
        first_free(taken@, r@),
{
    let base: String = "new_skill.skill.ron".to_owned();
    if !name_taken(taken, base.as_str()) {
        return base;
    }
    let mut index: usize = 2;
    loop
        invariant
            2 <= index <= taken@.len() + 2,
            taken@.len() + 3 <= usize::MAX,
            is_taken(taken@, new_name(1)),
            forall|j: nat| 2 <= j < index ==> is_taken(taken@, #[trigger] new_name(j)),
        decreases taken@.len() + 3 - index,
    {
        let mut candidate: String = "new_skill_".to_owned();
        candidate.append(decimal_text(index as u64).as_str());
        candidate.append(".skill.ron");
        assert(candidate@ == new_name(index as nat));
        if !name_taken(taken, candidate.as_str()) {
            return candidate;
        }
        proof {
            assert forall|j: nat| 2 <= j < index + 1 implies is_taken(
                taken@,
                #[trigger] new_name(j),
            ) by {
                if j == index {
                    assert(new_name(j) == candidate@);
                }
            }
            lemma_places(taken@, (index + 1) as nat);
            lemma_few_places(places(taken@, (index + 1) as nat), taken@.len());
        }
        index = index + 1;
    }
}

/// One text comes before another, or is the same: by the first place in which they differ, and a
/// beginning before the whole.
pub open spec fn text_le(a: Seq<char>, b: Seq<char>) -> bool
    decreases a.len(),
{
    if a.len() == 0 {
        true
    } else if b.len() == 0 {
        false
    } else if a[0] != b[0] {
        (a[0] as u32) < (b[0] as u32)
    } else {
        text_le(a.subrange(1, a.len() as int), b.subrange(1, b.len() as int))
    }
}

/// Whether one text comes before another or is the same.
pub fn text_before(a: &str, b: &str) -> (r: bool)
    ensures
        r == text_le(a@, b@),
{
    let n: usize = a.unicode_len();
    let m: usize = b.unicode_len();
    let mut i: usize = 0;
    assert(a@.subrange(0, n as int) =~= a@);
    assert(b@.subrange(0, m as int) =~= b@);
    while i < n && i < m
        invariant
            i <= n,
            i <= m,
            n == a@.len(),
            m == b@.len(),
            text_le(a@, b@) == text_le(
                a@.subrange(i as int, n as int),
                b@.subrange(i as int, m as int),
            ),
        decreases n - i,
    {
        let (x, y) = (a.get_char(i), b.get_char(i));
        if x != y {
            return (x as u32) < (y as u32);
        }
        proof {
            let (s, t) = (a@.subrange(i as int, n as int), b@.subrange(i as int, m as int));
            assert(s[0] == x && t[0] == y);
            assert(s.subrange(1, s.len() as int) =~= a@.subrange(i + 1, n as int));
            assert(t.subrange(1, t.len() as int) =~= b@.subrange(i + 1, m as int));
        }
        i = i + 1;
    }
    i >= n
}

} // verus!
