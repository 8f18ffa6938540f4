//! Verified helpers on text: equality, prefixes, substrings and decimal digits.
use vstd::prelude::*;
use vstd::string::*;

verus! {

/// The characters with the Unicode property `White_Space`.
pub open spec fn white_space(c: char) -> bool {
    let n = c as u32;
    ||| 0x9 <= n <= 0xd
    ||| n == 0x20
    ||| n == 0x85
    ||| n == 0xa0
    ||| n == 0x1680
    ||| 0x2000 <= n <= 0x200a
    ||| n == 0x2028
    ||| n == 0x2029
    ||| n == 0x202f
    ||| n == 0x205f
    ||| n == 0x3000
}

/// Whether a character has the Unicode property `White_Space`.
pub fn is_whitespace(c: char) -> (r: bool)
    ensures
        r == white_space(c),
{
    let n: u32 = c as u32;
    (0x9 <= n && n <= 0xd) || n == 0x20 || n == 0x85 || n == 0xa0 || n == 0x1680 || (0x2000 <= n
        && n <= 0x200a) || n == 0x2028 || n == 0x2029 || n == 0x202f || n == 0x205f || n == 0x3000
}

/// The characters `'0'` to `'9'`.
pub open spec fn is_digit(c: char) -> bool {
    '0' <= c && c <= '9'
}

/// The ASCII letters.
pub open spec fn is_letter(c: char) -> bool {
    ('a' <= c && c <= 'z') || ('A' <= c && c <= 'Z')
}

pub fn digit(c: char) -> (r: bool)
    ensures
        r == is_digit(c),
{
    '0' <= c && c <= '9'
}

pub fn letter(c: char) -> (r: bool)
    ensures
        r == is_letter(c),
{
    ('a' <= c && c <= 'z') || ('A' <= c && c <= 'Z')
}

/// Compares two texts character by character.
pub fn same_text(a: &str, b: &str) -> (r: bool)
    ensures
        r == (a@ == b@),
{
    a.to_owned() == b.to_owned()
}

/// `t` begins with `p`.
pub open spec fn begins_with(t: Seq<char>, p: Seq<char>) -> bool {
    p.len() <= t.len() && t.subrange(0, p.len() as int) == p
}

/// `t` ends with `p`.
pub open spec fn ends_with(t: Seq<char>, p: Seq<char>) -> bool {
    p.len() <= t.len() && t.subrange(t.len() - p.len(), t.len() as int) == p
}

/// `p` stands in `t` at offset `i`.
pub open spec fn occurs_at(t: Seq<char>, p: Seq<char>, i: int) -> bool {
    0 <= i && i + p.len() <= t.len() && t.subrange(i, i + p.len()) == p
}

/// `p` stands somewhere in `t`.
pub open spec fn occurs_in(t: Seq<char>, p: Seq<char>) -> bool {
    exists|i: int| occurs_at(t, p, i)
}

pub fn text_begins_with(t: &str, p: &str) -> (r: bool)
    ensures
        r == begins_with(t@, p@),
{
    let n: usize = p.unicode_len();
    if n <= t.unicode_len() {
        same_text(t.substring_char(0, n), p)
    } else {
        false
    }
}

pub fn text_ends_with(t: &str, p: &str) -> (r: bool)
    ensures
        r == ends_with(t@, p@),
{
    let n: usize = p.unicode_len();
    let m: usize = t.unicode_len();
    if n <= m {
        same_text(t.substring_char(m - n, m), p)
    } else {
        false
    }
}

pub fn text_contains(t: &str, p: &str) -> (r: bool)
    ensures
        r == occurs_in(t@, p@),
{
    let n: usize = p.unicode_len();
    let m: usize = t.unicode_len();
    if n > m {
        return false;
    }
    let mut i: usize = 0;
    while i <= m - n
        invariant
            n == p@.len(),
            m == t@.len(),
            n <= m,
            i <= m - n + 1,
            forall|j: int| 0 <= j < i ==> !occurs_at(t@, p@, j),
        decreases m - n + 1 - i,
    {
        if same_text(t.substring_char(i, i + n), p) {
            assert(occurs_at(t@, p@, i as int));
            return true;
        }
        if i == m - n {
            return false;
        }
        i += 1;
    }
    false
}

/// The characters of a text, in order.
pub fn chars_of(t: &str) -> (r: Vec<char>)
    ensures
        r@ == t@,
{
    let n: usize = t.unicode_len();
    let mut out: Vec<char> = Vec::new();
    let mut i: usize = 0;
    while i < n
        invariant
            n == t@.len(),
            i <= n,
            out@ == t@.subrange(0, i as int),
        decreases n - i,
    {
        out.push(t.get_char(i));
        i += 1;
        assert(out@ =~= t@.subrange(0, i as int));
    }
    assert(out@ =~= t@);
    out
}

/// The offset of the first `.` in `t`, or its length if there is none.
pub open spec fn first_dot(t: Seq<char>) -> int
    decreases t.len(),
{
    if t.len() == 0 || t[0] == '.' {
        0
    } else {
        1 + first_dot(t.subrange(1, t.len() as int))
    }
}

/// What `first_dot` finds: nothing before it is a dot, and it is a dot or the end.
pub proof fn lemma_first_dot(t: Seq<char>)
    ensures
        0 <= first_dot(t) <= t.len(),
        forall|i: int| 0 <= i < first_dot(t) ==> t[i] != '.',
        first_dot(t) < t.len() ==> t[first_dot(t)] == '.',
    decreases t.len(),
{
    if t.len() == 0 || t[0] == '.' {
    } else {
        let rest = t.subrange(1, t.len() as int);
        lemma_first_dot(rest);
        assert forall|i: int| 0 <= i < first_dot(t) implies t[i] != '.' by {
            if i > 0 {
                assert(rest[i - 1] == t[i]);
            }
        }
    }
}

/// `first_dot` is the only offset with the property of [`lemma_first_dot`].
pub proof fn lemma_first_dot_unique(t: Seq<char>, k: int)
    requires
        0 <= k <= t.len(),
        forall|i: int| 0 <= i < k ==> t[i] != '.',
        k < t.len() ==> t[k] == '.',
    ensures
        first_dot(t) == k,
{
    lemma_first_dot(t);
    if first_dot(t) < k {
        assert(t[first_dot(t)] != '.');
    } else if first_dot(t) > k {
        assert(t[k] != '.');
    }
}

/// Finds the first dot of a text.
pub fn find_dot(t: &str) -> (r: usize)
    ensures
        r == first_dot(t@),
{
    let n: usize = t.unicode_len();
    let mut i: usize = 0;
    while i < n
        invariant
            n == t@.len(),
            i <= n,
            forall|j: int| 0 <= j < i ==> t@[j] != '.',
        decreases n - i,
    {
        if t.get_char(i) == '.' {
            proof {
                lemma_first_dot_unique(t@, i as int);
            }
            return i;
        }
        i += 1;
    }
    proof {
        lemma_first_dot_unique(t@, n as int);
    }
    n
}

} // verus!
