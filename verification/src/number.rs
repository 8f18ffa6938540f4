//! Numbers as IEEE 754 binary64 bit patterns, and the arithmetic that the host answers for.
//!
//! The library compares and negates numbers itself, which their bits decide. Rounded arithmetic,
//! parsing and printing are the host's: a function that needs such a result looks it up in a
//! [`NumberTable`] and, where the table has none, stops with the [`NumberQuestion`] it needs
//! answered. The host answers it and asks again.
use vstd::prelude::*;

verus! {

/// A binary64 number, by its bits.
#[derive(Clone, Copy, Debug)]
pub struct SkillNumber {
    pub bits: u64,
}

/// The bits without the sign.
pub open spec fn magnitude(n: SkillNumber) -> int {
    if n.bits >= 0x8000_0000_0000_0000 {
        n.bits - 0x8000_0000_0000_0000
    } else {
        n.bits as int
    }
}

/// A number that is no number: all exponent bits set and a fraction that is not zero.
pub open spec fn is_nan(n: SkillNumber) -> bool {
    magnitude(n) > 0x7ff0_0000_0000_0000
}

/// An integer that orders the numbers as their values do; both zeros have `0`.
pub open spec fn order_key(n: SkillNumber) -> int {
    if n.bits >= 0x8000_0000_0000_0000 {
        -magnitude(n)
    } else {
        magnitude(n)
    }
}

/// `a == b` on floating-point numbers.
pub open spec fn num_eq(a: SkillNumber, b: SkillNumber) -> bool {
    !is_nan(a) && !is_nan(b) && order_key(a) == order_key(b)
}

/// `a < b` on floating-point numbers.
pub open spec fn num_lt(a: SkillNumber, b: SkillNumber) -> bool {
    !is_nan(a) && !is_nan(b) && order_key(a) < order_key(b)
}

/// `a <= b` on floating-point numbers.
pub open spec fn num_le(a: SkillNumber, b: SkillNumber) -> bool {
    !is_nan(a) && !is_nan(b) && order_key(a) <= order_key(b)
}

/// `-a`: the sign bit flipped.
pub open spec fn num_neg(a: SkillNumber) -> SkillNumber {
    SkillNumber {
        bits: if a.bits >= 0x8000_0000_0000_0000 {
            (a.bits - 0x8000_0000_0000_0000) as u64
        } else {
            (a.bits + 0x8000_0000_0000_0000) as u64
        },
    }
}

/// The larger of two numbers; one that is no number loses to one that is.
pub open spec fn num_max(a: SkillNumber, b: SkillNumber) -> SkillNumber {
    if is_nan(a) || num_lt(a, b) {
        b
    } else {
        a
    }
}

/// Zero.
pub open spec fn num_zero() -> SkillNumber {
    SkillNumber { bits: 0 }
}

/// One.
pub open spec fn num_one() -> SkillNumber {
    SkillNumber { bits: 0x3ff0_0000_0000_0000 }
}

/// The distance from one to the next larger number.
pub open spec fn num_epsilon() -> SkillNumber {
    SkillNumber { bits: 0x3cb0_0000_0000_0000 }
}

impl SkillNumber {
    pub fn zero() -> (r: SkillNumber)
        ensures
            r == num_zero(),
    {
        SkillNumber { bits: 0 }
    }

    pub fn one() -> (r: SkillNumber)
        ensures
            r == num_one(),
    {
        SkillNumber { bits: 0x3ff0_0000_0000_0000 }
    }

    pub fn epsilon() -> (r: SkillNumber)
        ensures
            r == num_epsilon(),
    {
        SkillNumber { bits: 0x3cb0_0000_0000_0000 }
    }

    fn size(self) -> (r: u64)
        ensures
            r == magnitude(self),
    {
        if self.bits >= 0x8000_0000_0000_0000 {
            self.bits - 0x8000_0000_0000_0000
        } else {
            self.bits
        }
    }

    fn key(self) -> (r: i128)
        ensures
            r == order_key(self),
    {
        if self.bits >= 0x8000_0000_0000_0000 {
            -(self.size() as i128)
        } else {
            self.size() as i128
        }
    }

    pub fn not_a_number(self) -> (r: bool)
        ensures
            r == is_nan(self),
    {
        self.size() > 0x7ff0_0000_0000_0000
    }

    pub fn equals(self, other: SkillNumber) -> (r: bool)
        ensures
            r == num_eq(self, other),
    {
        !self.not_a_number() && !other.not_a_number() && self.key() == other.key()
    }

    pub fn less(self, other: SkillNumber) -> (r: bool)
        ensures
            r == num_lt(self, other),
    {
        !self.not_a_number() && !other.not_a_number() && self.key() < other.key()
    }

    pub fn at_most(self, other: SkillNumber) -> (r: bool)
        ensures
            r == num_le(self, other),
    {
        !self.not_a_number() && !other.not_a_number() && self.key() <= other.key()
    }

    pub fn negated(self) -> (r: SkillNumber)
        ensures
            r == num_neg(self),
    {
        if self.bits >= 0x8000_0000_0000_0000 {
            SkillNumber { bits: self.bits - 0x8000_0000_0000_0000 }
        } else {
            SkillNumber { bits: self.bits + 0x8000_0000_0000_0000 }
        }
    }

    pub fn larger(self, other: SkillNumber) -> (r: SkillNumber)
        ensures
            r == num_max(self, other),
    {
        if self.not_a_number() || self.less(other) {
            other
        } else {
            self
        }
    }
}

impl PartialEq for SkillNumber {
    fn eq(&self, other: &Self) -> (r: bool) {
        self.equals(*other)
    }
}

impl vstd::std_specs::cmp::PartialEqSpecImpl for SkillNumber {
    open spec fn obeys_eq_spec() -> bool {
        true
    }

    open spec fn eq_spec(&self, other: &Self) -> bool {
        num_eq(*self, *other)
    }
}

/// An operation on one or two numbers whose result is rounded to a number.
#[derive(Clone, Copy, Debug, PartialEq, Eq, Structural)]
pub enum NumberOp {
    Add,
    Sub,
    Mul,
    Div,
    /// Rounds the first number to single precision; the second is not used.
    Single,
    /// Subtracts two single-precision numbers and rounds to single precision.
    SubSingle,
}

/// Something about numbers that only the host can answer.
#[derive(Debug)]
pub enum NumberQuestion {
    /// The result of an operation.
    Result(NumberOp, SkillNumber, SkillNumber),
    /// The number that a decimal text denotes, if it denotes one.
    Parse(String),
    /// The text of a number.
    Show(SkillNumber),
    /// A number of seconds, rounded to single precision, in nanoseconds.
    Span(SkillNumber),
    /// The whole part of a number, as a count.
    Count(SkillNumber),
}

/// A question, by its content.
pub enum QuestionView {
    Result(NumberOp, SkillNumber, SkillNumber),
    Parse(Seq<char>),
    Show(SkillNumber),
    Span(SkillNumber),
    Count(SkillNumber),
}

impl NumberQuestion {
    pub open spec fn view(&self) -> QuestionView {
        match self {
            NumberQuestion::Result(op, a, b) => QuestionView::Result(*op, *a, *b),
            NumberQuestion::Parse(t) => QuestionView::Parse(t@),
            NumberQuestion::Show(a) => QuestionView::Show(*a),
            NumberQuestion::Span(a) => QuestionView::Span(*a),
            NumberQuestion::Count(a) => QuestionView::Count(*a),
        }
    }

    /// The same question.
    pub fn copy(&self) -> (r: NumberQuestion)
        ensures
            r@ == self@,
    {
        match self {
            NumberQuestion::Result(op, a, b) => NumberQuestion::Result(*op, *a, *b),
            NumberQuestion::Parse(t) => NumberQuestion::Parse(t.clone()),
            NumberQuestion::Show(a) => NumberQuestion::Show(*a),
            NumberQuestion::Span(a) => NumberQuestion::Span(*a),
            NumberQuestion::Count(a) => NumberQuestion::Count(*a),
        }
    }
}

/// What the host has answered so far, question by question. A later answer to the same question
/// takes the place of an earlier one.
pub struct NumbersView {
    pub results: Map<(NumberOp, SkillNumber, SkillNumber), SkillNumber>,
    pub parsed: Map<Seq<char>, Option<SkillNumber>>,
    pub shown: Map<SkillNumber, Seq<char>>,
    pub spans: Map<SkillNumber, u128>,
    pub counts: Map<SkillNumber, usize>,
}

/// The answers of the host.
#[derive(Debug)]
pub struct NumberTable {
    results: Vec<(NumberOp, SkillNumber, SkillNumber, SkillNumber)>,
    parsed: Vec<(String, Option<SkillNumber>)>,
    shown: Vec<(SkillNumber, String)>,
    spans: Vec<(SkillNumber, u128)>,
    counts: Vec<(SkillNumber, usize)>,
}

spec fn results_map(s: Seq<(NumberOp, SkillNumber, SkillNumber, SkillNumber)>) -> Map<
    (NumberOp, SkillNumber, SkillNumber),
    SkillNumber,
>
    decreases s.len(),
{
    if s.len() == 0 {
        Map::empty()
    } else {
        results_map(s.drop_last()).insert((s.last().0, s.last().1, s.last().2), s.last().3)
    }
}

spec fn parsed_map(s: Seq<(String, Option<SkillNumber>)>) -> Map<Seq<char>, Option<SkillNumber>>
    decreases s.len(),
{
    if s.len() == 0 {
        Map::empty()
    } else {
        parsed_map(s.drop_last()).insert(s.last().0@, s.last().1)
    }
}

spec fn shown_map(s: Seq<(SkillNumber, String)>) -> Map<SkillNumber, Seq<char>>
    decreases s.len(),
{
    if s.len() == 0 {
        Map::empty()
    } else {
        shown_map(s.drop_last()).insert(s.last().0, s.last().1@)
    }
}

spec fn number_map<A>(s: Seq<(SkillNumber, A)>) -> Map<SkillNumber, A>
    decreases s.len(),
{
    if s.len() == 0 {
        Map::empty()
    } else {
        number_map(s.drop_last()).insert(s.last().0, s.last().1)
    }
}

fn same_bits(a: SkillNumber, b: SkillNumber) -> (r: bool)
    ensures
        r == (a == b),
{
    a.bits == b.bits
}

fn find_number<A: Copy>(s: &Vec<(SkillNumber, A)>, key: SkillNumber) -> (r: Option<A>)
    ensures
        match r {
            Some(a) => number_map(s@).contains_key(key) && number_map(s@)[key] == a,
            None => !number_map(s@).contains_key(key),
        },
{
    let mut i: usize = s.len();
    assert(s@.subrange(0, s@.len() as int) =~= s@);
    while i > 0
        invariant
            i <= s@.len(),
            number_map(s@).contains_key(key) == number_map(
                s@.subrange(0, i as int),
            ).contains_key(key),
            number_map(s@).contains_key(key) ==> number_map(s@)[key] == number_map(
                s@.subrange(0, i as int),
            )[key],
        decreases i,
    {
        let ghost head = s@.subrange(0, i as int);
        assert(head.drop_last() =~= s@.subrange(0, i - 1));
        assert(head.last() == s@[i - 1]);
        i -= 1;
        if same_bits(s[i].0, key) {
            return Some(s[i].1);
        }
    }
    None
}

impl NumberTable {
    pub closed spec fn view(&self) -> NumbersView {
        NumbersView {
            results: results_map(self.results@),
            parsed: parsed_map(self.parsed@),
            shown: shown_map(self.shown@),
            spans: number_map(self.spans@),
            counts: number_map(self.counts@),
        }
    }

    /// A table without answers.
    pub fn new() -> (r: NumberTable)
        ensures
            r@.results == Map::<(NumberOp, SkillNumber, SkillNumber), SkillNumber>::empty(),
            r@.parsed == Map::<Seq<char>, Option<SkillNumber>>::empty(),
            r@.shown == Map::<SkillNumber, Seq<char>>::empty(),
            r@.spans == Map::<SkillNumber, u128>::empty(),
            r@.counts == Map::<SkillNumber, usize>::empty(),
    {
        NumberTable {
            results: Vec::new(),
            parsed: Vec::new(),
            shown: Vec::new(),
            spans: Vec::new(),
            counts: Vec::new(),
        }
    }

    pub fn learn_result(&mut self, op: NumberOp, a: SkillNumber, b: SkillNumber, result: SkillNumber)
        ensures
            final(self)@ == (NumbersView {
                results: old(self)@.results.insert((op, a, b), result),
                ..old(self)@
            }),
    {
        self.results.push((op, a, b, result));
        assert(self.results@.drop_last() =~= old(self).results@);
    }

    pub fn learn_parsed(&mut self, t: String, result: Option<SkillNumber>)
        ensures
            final(self)@ == (NumbersView {
                parsed: old(self)@.parsed.insert(t@, result),
                ..old(self)@
            }),
    {
        self.parsed.push((t, result));
        assert(self.parsed@.drop_last() =~= old(self).parsed@);
    }

    pub fn learn_shown(&mut self, a: SkillNumber, result: String)
        ensures
            final(self)@ == (NumbersView {
                shown: old(self)@.shown.insert(a, result@),
                ..old(self)@
            }),
    {
        self.shown.push((a, result));
        assert(self.shown@.drop_last() =~= old(self).shown@);
    }

    pub fn learn_span(&mut self, a: SkillNumber, nanos: u128)
        ensures
            final(self)@ == (NumbersView {
                spans: old(self)@.spans.insert(a, nanos),
                ..old(self)@
            }),
    {
        self.spans.push((a, nanos));
        assert(self.spans@.drop_last() =~= old(self).spans@);
    }

    pub fn learn_count(&mut self, a: SkillNumber, count: usize)
        ensures
            final(self)@ == (NumbersView {
                counts: old(self)@.counts.insert(a, count),
                ..old(self)@
            }),
    {
        self.counts.push((a, count));
        assert(self.counts@.drop_last() =~= old(self).counts@);
    }

    /// The result of an operation, or the question to ask for it.
    pub fn result(&self, op: NumberOp, a: SkillNumber, b: SkillNumber) -> (r: Result<
        SkillNumber,
        NumberQuestion,
    >)
        ensures
            asked(r) == ask_result(self@, op, a, b),
    {
        let s = &self.results;
        let mut i: usize = s.len();
        assert(s@.subrange(0, s@.len() as int) =~= s@);
        while i > 0
            invariant
                s == self.results,
                i <= s@.len(),
                results_map(s@).contains_key((op, a, b)) == results_map(
                    s@.subrange(0, i as int),
                ).contains_key((op, a, b)),
                results_map(s@).contains_key((op, a, b)) ==> results_map(s@)[(op, a, b)]
                    == results_map(s@.subrange(0, i as int))[(op, a, b)],
            decreases i,
        {
            let ghost head = s@.subrange(0, i as int);
            assert(head.drop_last() =~= s@.subrange(0, i - 1));
            assert(head.last() == s@[i - 1]);
            i -= 1;
            if s[i].0 == op && same_bits(s[i].1, a) && same_bits(s[i].2, b) {
                return Ok(s[i].3);
            }
        }
        Err(NumberQuestion::Result(op, a, b))
    }

    /// The number that a text denotes, `None` if it denotes none, or the question to ask for it.
    pub fn parse(&self, t: &String) -> (r: Result<Option<SkillNumber>, NumberQuestion>)
        ensures
            asked(r) == ask_parse(self@, t@),
    {
        let s = &self.parsed;
        let mut i: usize = s.len();
        assert(s@.subrange(0, s@.len() as int) =~= s@);
        while i > 0
            invariant
                s == self.parsed,
                i <= s@.len(),
                parsed_map(s@).contains_key(t@) == parsed_map(
                    s@.subrange(0, i as int),
                ).contains_key(t@),
                parsed_map(s@).contains_key(t@) ==> parsed_map(s@)[t@] == parsed_map(
                    s@.subrange(0, i as int),
                )[t@],
            decreases i,
        {
            let ghost head = s@.subrange(0, i as int);
            assert(head.drop_last() =~= s@.subrange(0, i - 1));
            assert(head.last() == s@[i - 1]);
            i -= 1;
            if s[i].0 == *t {
                return Ok(s[i].1);
            }
        }
        Err(NumberQuestion::Parse(t.clone()))
    }

    /// The text of a number, or the question to ask for it.
    pub fn show(&self, a: SkillNumber) -> (r: Result<String, NumberQuestion>)
        ensures
            asked_text(r) == ask_show(self@, a),
    {
        let s = &self.shown;
        let mut i: usize = s.len();
        assert(s@.subrange(0, s@.len() as int) =~= s@);
        while i > 0
            invariant
                s == self.shown,
                i <= s@.len(),
                shown_map(s@).contains_key(a) == shown_map(s@.subrange(0, i as int)).contains_key(
                    a,
                ),
                shown_map(s@).contains_key(a) ==> shown_map(s@)[a] == shown_map(
                    s@.subrange(0, i as int),
                )[a],
            decreases i,
        {
            let ghost head = s@.subrange(0, i as int);
            assert(head.drop_last() =~= s@.subrange(0, i - 1));
            assert(head.last() == s@[i - 1]);
            i -= 1;
            if same_bits(s[i].0, a) {
                return Ok(s[i].1.clone());
            }
        }
        Err(NumberQuestion::Show(a))
    }

    /// A number of seconds in nanoseconds, or the question to ask for it.
    pub fn span(&self, a: SkillNumber) -> (r: Result<u128, NumberQuestion>)
        ensures
            asked(r) == ask_span(self@, a),
    {
        match find_number(&self.spans, a) {
            Some(v) => Ok(v),
            None => Err(NumberQuestion::Span(a)),
        }
    }

    /// The whole part of a number as a count, or the question to ask for it.
    pub fn count(&self, a: SkillNumber) -> (r: Result<usize, NumberQuestion>)
        ensures
            asked(r) == ask_count(self@, a),
    {
        match find_number(&self.counts, a) {
            Some(v) => Ok(v),
            None => Err(NumberQuestion::Count(a)),
        }
    }
}

/// An answer or a question, by content.
pub open spec fn asked<T>(r: Result<T, NumberQuestion>) -> Result<T, QuestionView> {
    match r {
        Ok(v) => Ok(v),
        Err(q) => Err(q@),
    }
}

/// A text or a question, by content.
pub open spec fn asked_text(r: Result<String, NumberQuestion>) -> Result<Seq<char>, QuestionView> {
    match r {
        Ok(v) => Ok(v@),
        Err(q) => Err(q@),
    }
}

/// What the table says of an operation.
pub open spec fn ask_result(
    n: NumbersView,
    op: NumberOp,
    a: SkillNumber,
    b: SkillNumber,
) -> Result<SkillNumber, QuestionView> {
    if n.results.contains_key((op, a, b)) {
        Ok(n.results[(op, a, b)])
    } else {
        Err(QuestionView::Result(op, a, b))
    }
}

/// What the table says of a decimal text.
pub open spec fn ask_parse(n: NumbersView, t: Seq<char>) -> Result<
    Option<SkillNumber>,
    QuestionView,
> {
    if n.parsed.contains_key(t) {
        Ok(n.parsed[t])
    } else {
        Err(QuestionView::Parse(t))
    }
}

/// What the table says of the text of a number.
pub open spec fn ask_show(n: NumbersView, a: SkillNumber) -> Result<Seq<char>, QuestionView> {
    if n.shown.contains_key(a) {
        Ok(n.shown[a])
    } else {
        Err(QuestionView::Show(a))
    }
}

/// What the table says of a number of seconds.
pub open spec fn ask_span(n: NumbersView, a: SkillNumber) -> Result<u128, QuestionView> {
    if n.spans.contains_key(a) {
        Ok(n.spans[a])
    } else {
        Err(QuestionView::Span(a))
    }
}

/// What the table says of the whole part of a number.
pub open spec fn ask_count(n: NumbersView, a: SkillNumber) -> Result<usize, QuestionView> {
    if n.counts.contains_key(a) {
        Ok(n.counts[a])
    } else {
        Err(QuestionView::Count(a))
    }
}

} // verus!
