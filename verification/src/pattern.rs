//! The XML Schema regular-expression subset that pattern facets use:
//! literals, escapes, character classes with ranges and negation, groups,
//! alternation and the `?`, `*`, `+`, `{n}`, `{n,}` and `{n,m}` quantifiers.
//!
//! A pattern is anchored to the whole value. Matching computes, for a
//! starting position, every position a match can end at, so alternation and
//! variable repetition need no backtracking.

use vstd::prelude::*;
use crate::text::{alnum, chars_of, digit, is_alnum, is_digit};
use crate::value::{all_digits, digits_value};

verus! {

/// One member of a character class.
#[derive(Debug, Clone, Copy)]
pub enum ClassItem {
    Single(char),
    Range(char, char),
}

/// A parsed pattern.
#[derive(Debug)]
pub enum Pattern {
    /// One position repeated between `min` and `max` times.
    Repeat { inner: Box<Pattern>, min: usize, max: Option<usize> },
    Sequence(Vec<Pattern>),
    Alternation(Vec<Pattern>),
    Class { negated: bool, items: Vec<ClassItem> },
    Literal(char),
}

/// The mathematical form of a pattern: sub-patterns as sequences.
pub enum PatternModel {
    Repeat { inner: Box<PatternModel>, min: usize, max: Option<usize> },
    Sequence(Seq<PatternModel>),
    Alternation(Seq<PatternModel>),
    Class { negated: bool, items: Seq<ClassItem> },
    Literal(char),
}

/// The model of a pattern.
pub open spec fn model(p: Pattern) -> PatternModel
    decreases p, 1int, 0int,
{
    match p {
        Pattern::Repeat { inner, min, max } => PatternModel::Repeat { inner: Box::new(model(*inner)), min, max },
        Pattern::Sequence(parts) => PatternModel::Sequence(models(p, parts@.len() as int)),
        Pattern::Alternation(parts) => PatternModel::Alternation(models(p, parts@.len() as int)),
        Pattern::Class { negated, items } => PatternModel::Class { negated, items: items@ },
        Pattern::Literal(c) => PatternModel::Literal(c),
    }
}

/// The model of a literal.
proof fn lemma_model_literal(c: char)
    ensures
        model(Pattern::Literal(c)) == PatternModel::Literal(c),
{
}

/// The models of the first `k` sub-patterns of a sequence or alternation.
pub open spec fn models(p: Pattern, k: int) -> Seq<PatternModel>
    decreases p, 0int, k,
{
    match p {
        Pattern::Sequence(parts) => if k <= 0 || k > parts@.len() {
            Seq::empty()
        } else {
            proof {
                lemma_part_decreases(p, k - 1);
            }
            models(p, k - 1).push(model(parts@[k - 1]))
        },
        Pattern::Alternation(parts) => if k <= 0 || k > parts@.len() {
            Seq::empty()
        } else {
            proof {
                lemma_part_decreases(p, k - 1);
            }
            models(p, k - 1).push(model(parts@[k - 1]))
        },
        _ => Seq::empty(),
    }
}

/// The model of a sequence or alternation holds the models of its parts.
pub proof fn lemma_models(p: Pattern, k: int)
    requires
        match p {
            Pattern::Sequence(parts) => 0 <= k <= parts@.len(),
            Pattern::Alternation(parts) => 0 <= k <= parts@.len(),
            _ => false,
        },
    ensures
        models(p, k).len() == k,
        forall|i: int|
            0 <= i < k ==> #[trigger] models(p, k)[i] == match p {
                Pattern::Sequence(parts) => model(parts@[i]),
                Pattern::Alternation(parts) => model(parts@[i]),
                _ => arbitrary(),
            },
    decreases k,
{
    if k > 0 {
        lemma_models(p, k - 1);
    }
}

pub open spec fn item_hit(item: ClassItem, c: char) -> bool {
    match item {
        ClassItem::Single(x) => x == c,
        ClassItem::Range(low, high) => low <= c && c <= high,
    }
}

/// Whether some item of a class admits `c`.
pub open spec fn class_hit(items: Seq<ClassItem>, c: char) -> bool {
    exists|i: int| 0 <= i < items.len() && #[trigger] item_hit(items[i], c)
}

/// A sub-pattern lies below the pattern that holds it.
pub proof fn lemma_part_decreases(p: Pattern, i: int)
    ensures
        match p {
            Pattern::Sequence(parts) => 0 <= i < parts@.len() ==> decreases_to!(p => parts@[i]),
            Pattern::Alternation(parts) => 0 <= i < parts@.len() ==> decreases_to!(p => parts@[i]),
            _ => true,
        },
{
    match p {
        Pattern::Sequence(parts) => {
            if 0 <= i < parts@.len() {
                assert(decreases_to!(p => parts));
                assert(decreases_to!(parts => parts@));
                assert(decreases_to!(parts@ => parts@[i]));
            }
        },
        Pattern::Alternation(parts) => {
            if 0 <= i < parts@.len() {
                assert(decreases_to!(p => parts));
                assert(decreases_to!(parts => parts@));
                assert(decreases_to!(parts@ => parts@[i]));
            }
        },
        _ => {},
    }
}

/// A sub-pattern model lies below the model that holds it.
pub proof fn lemma_model_part_decreases(p: PatternModel, i: int)
    ensures
        match p {
            PatternModel::Sequence(parts) => 0 <= i < parts.len() ==> decreases_to!(p => parts[i]),
            PatternModel::Alternation(parts) => 0 <= i < parts.len() ==> decreases_to!(p => parts[i]),
            _ => true,
        },
{
    match p {
        PatternModel::Sequence(parts) => {
            if 0 <= i < parts.len() {
                assert(decreases_to!(p => parts));
                assert(decreases_to!(parts => parts[i]));
            }
        },
        PatternModel::Alternation(parts) => {
            if 0 <= i < parts.len() {
                assert(decreases_to!(p => parts));
                assert(decreases_to!(parts => parts[i]));
            }
        },
        _ => {},
    }
}

/// The positions at which a match of `p` begun at `start` can end.
pub open spec fn reach(p: PatternModel, input: Seq<char>, start: int) -> Set<int>
    decreases p, 1int, 0int,
{
    match p {
        PatternModel::Literal(c) => if 0 <= start < input.len() && input[start] == c {
            set![start + 1]
        } else {
            Set::empty()
        },
        PatternModel::Class { negated, items } => if 0 <= start < input.len() && class_hit(items, input[start]) != negated {
            set![start + 1]
        } else {
            Set::empty()
        },
        PatternModel::Sequence(parts) => sequence_reach(p, input, start, parts.len() as int),
        PatternModel::Alternation(branches) => alternation_reach(p, input, start, branches.len() as int),
        PatternModel::Repeat { .. } => repeat_reach(p, input, start, input.len() + 1int),
    }
}

/// The positions reachable by one match of `p` from some position of `from`
/// no greater than `q`; with `advance`, matches that consume nothing are left out.
pub open spec fn reach_from(p: PatternModel, input: Seq<char>, from: Set<int>, q: int, advance: bool) -> Set<int>
    decreases p, 2int, q + 1,
{
    if q < 0 {
        Set::empty()
    } else {
        let here = if from.contains(q) {
            if advance {
                reach(p, input, q).remove(q)
            } else {
                reach(p, input, q)
            }
        } else {
            Set::empty()
        };
        reach_from(p, input, from, q - 1, advance).union(here)
    }
}

/// The end positions of the first `k` parts of a sequence.
pub open spec fn sequence_reach(p: PatternModel, input: Seq<char>, start: int, k: int) -> Set<int>
    decreases p, 0int, k,
{
    match p {
        PatternModel::Sequence(parts) => if k <= 0 || k > parts.len() {
            set![start]
        } else {
            proof {
                lemma_model_part_decreases(p, k - 1);
            }
            reach_from(parts[k - 1], input, sequence_reach(p, input, start, k - 1), input.len() as int, false)
        },
        _ => Set::empty(),
    }
}

/// The end positions of the first `k` branches of an alternation.
pub open spec fn alternation_reach(p: PatternModel, input: Seq<char>, start: int, k: int) -> Set<int>
    decreases p, 0int, k,
{
    match p {
        PatternModel::Alternation(branches) => if k <= 0 || k > branches.len() {
            Set::empty()
        } else {
            proof {
                lemma_model_part_decreases(p, k - 1);
            }
            alternation_reach(p, input, start, k - 1).union(reach(branches[k - 1], input, start))
        },
        _ => Set::empty(),
    }
}

/// The positions reached after exactly `k` advancing repetitions.
pub open spec fn repetitions(p: PatternModel, input: Seq<char>, start: int, k: int) -> Set<int>
    decreases p, 0int, k,
{
    match p {
        PatternModel::Repeat { inner, .. } => if k <= 0 {
            set![start]
        } else {
            reach_from(*inner, input, repetitions(p, input, start, k - 1), input.len() as int, true)
        },
        _ => Set::empty(),
    }
}

/// Whether a repetition count lies within the bounds of a repeat.
pub open spec fn count_allowed(min: usize, max: Option<usize>, k: int) -> bool {
    min <= k && match max {
        Some(m) => k <= m,
        None => true,
    }
}

/// The positions reached after an allowed number of repetitions up to `k`.
pub open spec fn repeat_reach(p: PatternModel, input: Seq<char>, start: int, k: int) -> Set<int>
    decreases p, 0int, k + 1,
{
    match p {
        PatternModel::Repeat { min, max, .. } => if k < 0 {
            Set::empty()
        } else {
            let here = if count_allowed(min, max, k) {
                repetitions(p, input, start, k)
            } else {
                Set::empty()
            };
            repeat_reach(p, input, start, k - 1).union(here)
        },
        _ => Set::empty(),
    }
}

/// The positions a list of positions holds.
pub open spec fn ends_of(v: Seq<usize>) -> Set<int> {
    Set::new(|e: int| exists|i: int| 0 <= i < v.len() && v[i] as int == e)
}

/// `reach_from` is the union, over the positions of `from` up to `q`, of
/// what one match reaches from each.
pub proof fn lemma_reach_from(p: PatternModel, input: Seq<char>, from: Set<int>, q: int, advance: bool)
    ensures
        forall|e: int|
            #[trigger] reach_from(p, input, from, q, advance).contains(e) <==> exists|r: int|
                0 <= r <= q && from.contains(r) && reach(p, input, r).contains(e) && !(advance && e == r),
    decreases q + 1,
{
    if q >= 0 {
        lemma_reach_from(p, input, from, q - 1, advance);
        assert forall|e: int| #[trigger] reach_from(p, input, from, q, advance).contains(e) <==> exists|r: int|
            0 <= r <= q && from.contains(r) && reach(p, input, r).contains(e) && !(advance && e == r) by {
            if reach_from(p, input, from, q, advance).contains(e) {
                if !reach_from(p, input, from, q - 1, advance).contains(e) {
                    assert(from.contains(q) && reach(p, input, q).contains(e) && !(advance && e == q));
                }
            }
            if exists|r: int| 0 <= r <= q && from.contains(r) && reach(p, input, r).contains(e) && !(advance && e == r) {
                let r = choose|r: int| 0 <= r <= q && from.contains(r) && reach(p, input, r).contains(e) && !(advance && e == r);
                if r < q {
                    assert(reach_from(p, input, from, q - 1, advance).contains(e));
                }
            }
        }
    }
}

/// Once no position is reached, further repetitions reach none.
pub proof fn lemma_repetitions_stay_empty(p: PatternModel, input: Seq<char>, start: int, c: int, j: int)
    requires
        p is Repeat,
        0 <= c <= j,
        repetitions(p, input, start, c) =~= Set::<int>::empty(),
    ensures
        repetitions(p, input, start, j) =~= Set::<int>::empty(),
    decreases j - c,
{
    if j > c {
        lemma_repetitions_stay_empty(p, input, start, c, j - 1);
        if let PatternModel::Repeat { inner, .. } = p {
            let before = repetitions(p, input, start, j - 1);
            lemma_reach_from(*inner, input, before, input.len() as int, true);
            assert(repetitions(p, input, start, j) == reach_from(*inner, input, before, input.len() as int, true));
            assert forall|e: int| !repetitions(p, input, start, j).contains(e) by {
                assert(!reach_from(*inner, input, before, input.len() as int, true).contains(e));
            }
        }
    }
}

/// Whether `j` repetitions are not allowed or reach nothing.
pub open spec fn adds_nothing(p: PatternModel, input: Seq<char>, start: int, j: int) -> bool {
    match p {
        PatternModel::Repeat { min, max, .. } => !count_allowed(min, max, j) || repetitions(p, input, start, j) =~= Set::<int>::empty(),
        _ => true,
    }
}

/// Counts past `c` that are not allowed or reach nothing add nothing.
pub proof fn lemma_repeat_tail(p: PatternModel, input: Seq<char>, start: int, c: int, k: int)
    requires
        p is Repeat,
        0 <= c <= k,
        forall|j: int| c < j <= k ==> #[trigger] adds_nothing(p, input, start, j),
    ensures
        repeat_reach(p, input, start, k) == repeat_reach(p, input, start, c),
    decreases k - c,
{
    if k > c {
        lemma_repeat_tail(p, input, start, c, k - 1);
        assert(adds_nothing(p, input, start, k));
        assert(repeat_reach(p, input, start, k) =~= repeat_reach(p, input, start, k - 1));
    }
}


/// Taking one more position adds exactly that position.
proof fn lemma_ends_of_take(v: Seq<usize>, i: int)
    requires
        0 <= i < v.len(),
    ensures
        ends_of(v.take(i + 1)) =~= ends_of(v.take(i)).insert(v[i] as int),
{
    assert(v.take(i + 1)[i] == v[i]);
    assert forall|x: int| ends_of(v.take(i + 1)).contains(x) implies ends_of(v.take(i)).insert(v[i] as int).contains(x) by {
        let z = choose|z: int| 0 <= z < i + 1 && #[trigger] v.take(i + 1)[z] as int == x;
        if z < i {
            assert(v.take(i)[z] == v.take(i + 1)[z]);
        }
    }
    assert forall|x: int| ends_of(v.take(i)).contains(x) implies ends_of(v.take(i + 1)).contains(x) by {
        let z = choose|z: int| 0 <= z < i && #[trigger] v.take(i)[z] as int == x;
        assert(v.take(i + 1)[z] == v.take(i)[z]);
    }
}

/// Adds `e` to a list of positions unless it is already there.
fn add_end(ends: &mut Vec<usize>, e: usize)
    ensures
        ends_of(final(ends)@) == ends_of(old(ends)@).insert(e as int),
        old(ends)@.no_duplicates() ==> final(ends)@.no_duplicates(),
        forall|i: int| 0 <= i < final(ends)@.len() ==> #[trigger] final(ends)@[i] == e || old(ends)@.contains(final(ends)@[i]),
{
    let mut i: usize = 0;
    while i < ends.len()
        invariant
            i <= ends@.len(),
            forall|j: int| 0 <= j < i ==> ends@[j] != e,
        decreases ends.len() - i,
    {
        if ends[i] == e {
            assert(ends_of(ends@) =~= ends_of(ends@).insert(e as int));
            return;
        }
        i = i + 1;
    }
    let ghost before = ends@;
    ends.push(e);
    assert(ends@.drop_last() == before);
    assert(ends_of(ends@) =~= ends_of(before).insert(e as int)) by {
        assert forall|x: int| ends_of(ends@).contains(x) implies ends_of(before).insert(e as int).contains(x) by {
            let k = choose|k: int| 0 <= k < ends@.len() && ends@[k] as int == x;
            if k < before.len() {
                assert(before[k] == ends@[k]);
            }
        }
        assert forall|x: int| ends_of(before).insert(e as int).contains(x) implies ends_of(ends@).contains(x) by {
            if x == e as int {
                assert(ends@[before.len() as int] == e);
            } else {
                let k = choose|k: int| 0 <= k < before.len() && before[k] as int == x;
                assert(ends@[k] == before[k]);
            }
        }
    }
    assert forall|i: int| 0 <= i < ends@.len() implies #[trigger] ends@[i] == e || before.contains(ends@[i]) by {
        if i < before.len() {
            assert(ends@[i] == before[i]);
        }
    }
}

fn class_admits(items: &Vec<ClassItem>, c: char) -> (r: bool)
    ensures
        r == class_hit(items@, c),
{
    let mut i: usize = 0;
    while i < items.len()
        invariant
            i <= items@.len(),
            forall|j: int| 0 <= j < i ==> !item_hit(#[trigger] items@[j], c),
        decreases items.len() - i,
    {
        let hit = match items[i] {
            ClassItem::Single(x) => x == c,
            ClassItem::Range(low, high) => low <= c && c <= high,
        };
        if hit {
            assert(item_hit(items@[i as int], c));
            return true;
        }
        i = i + 1;
    }
    false
}

pub open spec fn below_max_spec(max: Option<usize>, count: usize) -> bool {
    match max {
        Some(m) => count < m,
        None => true,
    }
}

/// Whether another repetition is within the upper bound.
fn below_max(max: Option<usize>, count: usize) -> (r: bool)
    ensures
        r == below_max_spec(max, count),
{
    match max {
        Some(m) => count < m,
        None => true,
    }
}

/// Every position one match of `p` reaches from some position of `from`;
/// with `advance`, matches that consume nothing are left out.
fn step_from(p: &Pattern, input: &Vec<char>, from: &Vec<usize>, advance: bool) -> (r: Vec<usize>)
    requires
        forall|i: int| 0 <= i < from@.len() ==> #[trigger] from@[i] <= input@.len(),
    ensures
        ends_of(r@) == reach_from(model(*p), input@, ends_of(from@), input@.len() as int, advance),
        r@.no_duplicates(),
        forall|i: int|
            0 <= i < r@.len() ==> #[trigger] r@[i] <= input@.len() && exists|j: int|
                0 <= j < from@.len() && from@[j] <= r@[i] && (advance ==> from@[j] < r@[i]),
    decreases *p, 1int,
{
    let ghost n = input@.len() as int;
    let mut next: Vec<usize> = Vec::new();
    let mut k: usize = 0;
    while k < from.len()
        invariant
            k <= from@.len(),
            n == input@.len(),
            forall|i: int| 0 <= i < from@.len() ==> #[trigger] from@[i] <= input@.len(),
            next@.no_duplicates(),
            forall|e: int|
                #[trigger] ends_of(next@).contains(e) <==> exists|j: int|
                    0 <= j < k && reach(model(*p), input@, from@[j] as int).contains(e) && !(advance && e == from@[j]),
            forall|i: int|
                0 <= i < next@.len() ==> #[trigger] next@[i] <= input@.len() && exists|j: int|
                    0 <= j < from@.len() && from@[j] <= next@[i] && (advance ==> from@[j] < next@[i]),
        decreases from.len() - k,
    {
        let q = from[k];
        let ends = match_at(p, input, q);
        let ghost mid = next@;
        let mut i: usize = 0;
        while i < ends.len()
            invariant
                k < from@.len(),
                q == from@[k as int],
                i <= ends@.len(),
                n == input@.len(),
                forall|x: int| 0 <= x < ends@.len() ==> q <= #[trigger] ends@[x] <= input@.len(),
                ends_of(ends@) == reach(model(*p), input@, q as int),
                next@.no_duplicates(),
                forall|e: int|
                    #[trigger] ends_of(next@).contains(e) <==> (exists|j: int|
                        0 <= j < k && reach(model(*p), input@, from@[j] as int).contains(e) && !(advance && e == from@[j])) || (exists|x: int|
                        0 <= x < i && ends@[x] as int == e && !(advance && e == q)),
                forall|y: int|
                    0 <= y < next@.len() ==> #[trigger] next@[y] <= input@.len() && exists|j: int|
                        0 <= j < from@.len() && from@[j] <= next@[y] && (advance ==> from@[j] < next@[y]),
            decreases ends.len() - i,
        {
            let e = ends[i];
            if !advance || e != q {
                let ghost prior = next@;
                add_end(&mut next, e);
                proof {
                    assert forall|y: int| 0 <= y < next@.len() implies #[trigger] next@[y] <= input@.len() && exists|j: int|
                        0 <= j < from@.len() && from@[j] <= next@[y] && (advance ==> from@[j] < next@[y]) by {
                        if next@[y] != e {
                            let z = choose|z: int| 0 <= z < prior.len() && prior[z] == next@[y];
                            assert(prior[z] <= input@.len());
                        } else {
                            assert(from@[k as int] <= next@[y]);
                        }
                    }
                }
            }
            proof {
                assert forall|e2: int| #[trigger] ends_of(next@).contains(e2) <==> (exists|j: int|
                    0 <= j < k && reach(model(*p), input@, from@[j] as int).contains(e2) && !(advance && e2 == from@[j])) || (exists|x: int|
                    0 <= x < i + 1 && ends@[x] as int == e2 && !(advance && e2 == q)) by {
                    if e2 == e as int && !(advance && e2 == q) {
                        assert(ends@[i as int] as int == e2);
                    }
                }
            }
            i = i + 1;
        }
        proof {
            assert forall|e: int| #[trigger] ends_of(next@).contains(e) <==> exists|j: int|
                0 <= j < k + 1 && reach(model(*p), input@, from@[j] as int).contains(e) && !(advance && e == from@[j]) by {
                if exists|x: int| 0 <= x < ends@.len() && ends@[x] as int == e && !(advance && e == q) {
                    assert(ends_of(ends@).contains(e));
                    assert(reach(model(*p), input@, from@[k as int] as int).contains(e));
                }
                if reach(model(*p), input@, from@[k as int] as int).contains(e) && !(advance && e == from@[k as int]) {
                    assert(ends_of(ends@).contains(e));
                }
            }
        }
        k = k + 1;
    }
    proof {
        lemma_reach_from(model(*p), input@, ends_of(from@), n, advance);
        assert forall|e: int| ends_of(next@).contains(e) <==> reach_from(model(*p), input@, ends_of(from@), n, advance).contains(e) by {
            if ends_of(next@).contains(e) {
                let j = choose|j: int| 0 <= j < from@.len() && reach(model(*p), input@, from@[j] as int).contains(e) && !(advance && e == from@[j]);
                assert(ends_of(from@).contains(from@[j] as int));
            }
            if reach_from(model(*p), input@, ends_of(from@), n, advance).contains(e) {
                let r = choose|r: int| 0 <= r <= n && ends_of(from@).contains(r) && reach(model(*p), input@, r).contains(e) && !(advance && e == r);
                let j = choose|j: int| 0 <= j < from@.len() && from@[j] as int == r;
                assert(reach(model(*p), input@, from@[j] as int).contains(e));
            }
        }
        assert(ends_of(next@) =~= reach_from(model(*p), input@, ends_of(from@), n, advance));
    }
    next
}

/// Every position at which a match of `p` begun at `start` can end.
fn match_at(p: &Pattern, input: &Vec<char>, start: usize) -> (r: Vec<usize>)
    requires
        start <= input@.len(),
    ensures
        ends_of(r@) == reach(model(*p), input@, start as int),
        r@.no_duplicates(),
        forall|i: int| 0 <= i < r@.len() ==> start <= #[trigger] r@[i] <= input@.len(),
    decreases *p, 0int,
{
    match p {
        Pattern::Literal(expected) => {
            if start < input.len() && input[start] == *expected {
                let r = vec![start + 1];
                assert(ends_of(r@) =~= set![start + 1]) by {
                    assert(r@[0] == start + 1);
                }
                r
            } else {
                let r: Vec<usize> = Vec::new();
                assert(ends_of(r@) =~= Set::<int>::empty());
                r
            }
        },
        Pattern::Class { negated, items } => {
            if start < input.len() && class_admits(items, input[start]) != *negated {
                let r = vec![start + 1];
                assert(ends_of(r@) =~= set![start + 1]) by {
                    assert(r@[0] == start + 1);
                }
                r
            } else {
                let r: Vec<usize> = Vec::new();
                assert(ends_of(r@) =~= Set::<int>::empty());
                r
            }
        },
        Pattern::Sequence(parts) => {
            proof {
                lemma_models(*p, parts@.len() as int);
            }
            let mut positions = vec![start];
            assert(ends_of(positions@) =~= sequence_reach(model(*p), input@, start as int, 0)) by {
                assert(positions@[0] == start);
            }
            let mut k: usize = 0;
            while k < parts.len()
                invariant
                    *p == Pattern::Sequence(*parts),
                    model(*p) == PatternModel::Sequence(models(*p, parts@.len() as int)),
                    models(*p, parts@.len() as int).len() == parts@.len(),
                    forall|i: int| 0 <= i < parts@.len() ==> #[trigger] models(*p, parts@.len() as int)[i] == model(parts@[i]),
                    k <= parts@.len(),
                    start <= input@.len(),
                    ends_of(positions@) == sequence_reach(model(*p), input@, start as int, k as int),
                    positions@.no_duplicates(),
                    forall|i: int| 0 <= i < positions@.len() ==> start <= #[trigger] positions@[i] <= input@.len(),
                decreases parts.len() - k,
            {
                proof {
                    lemma_part_decreases(*p, k as int);
                }
                let next = step_from(&parts[k], input, &positions, false);
                proof {
                    assert(models(*p, parts@.len() as int)[k as int] == model(parts@[k as int]));
                    assert forall|i: int| 0 <= i < next@.len() implies start <= #[trigger] next@[i] <= input@.len() by {
                        let j = choose|j: int| 0 <= j < positions@.len() && positions@[j] <= next@[i];
                        assert(start <= positions@[j]);
                    }
                }
                positions = next;
                k = k + 1;
            }
            positions
        },
        Pattern::Alternation(branches) => {
            proof {
                lemma_models(*p, branches@.len() as int);
            }
            let mut ends: Vec<usize> = Vec::new();
            assert(ends_of(ends@) =~= alternation_reach(model(*p), input@, start as int, 0));
            let mut k: usize = 0;
            while k < branches.len()
                invariant
                    *p == Pattern::Alternation(*branches),
                    model(*p) == PatternModel::Alternation(models(*p, branches@.len() as int)),
                    models(*p, branches@.len() as int).len() == branches@.len(),
                    forall|i: int| 0 <= i < branches@.len() ==> #[trigger] models(*p, branches@.len() as int)[i] == model(branches@[i]),
                    k <= branches@.len(),
                    start <= input@.len(),
                    ends_of(ends@) == alternation_reach(model(*p), input@, start as int, k as int),
                    ends@.no_duplicates(),
                    forall|i: int| 0 <= i < ends@.len() ==> start <= #[trigger] ends@[i] <= input@.len(),
                decreases branches.len() - k,
            {
                proof {
                    lemma_part_decreases(*p, k as int);
                }
                let found = match_at(&branches[k], input, start);
                assert(models(*p, branches@.len() as int)[k as int] == model(branches@[k as int]));
                let ghost base = ends_of(ends@);
                let mut i: usize = 0;
                while i < found.len()
                    invariant
                        i <= found@.len(),
                        start <= input@.len(),
                        ends@.no_duplicates(),
                        forall|x: int| 0 <= x < found@.len() ==> start <= #[trigger] found@[x] <= input@.len(),
                        forall|x: int| 0 <= x < ends@.len() ==> start <= #[trigger] ends@[x] <= input@.len(),
                        ends_of(ends@) == base.union(ends_of(found@.take(i as int))),
                    decreases found.len() - i,
                {
                    let e = found[i];
                    add_end(&mut ends, e);
                    proof {
                        lemma_ends_of_take(found@, i as int);
                        assert(ends_of(ends@) =~= base.union(ends_of(found@.take(i + 1))));
                    }
                    i = i + 1;
                }
                assert(found@.take(found@.len() as int) == found@);
                assert(ends_of(ends@) =~= alternation_reach(model(*p), input@, start as int, k + 1));
                k = k + 1;
            }
            ends
        },
        Pattern::Repeat { inner, min, max } => {
            let ghost n = input@.len() as int;
            let mut ends: Vec<usize> = Vec::new();
            let mut frontier = vec![start];
            let mut count: usize = 0;
            if *min == 0 {
                ends.push(start);
            }
            proof {
                assert(frontier@[0] == start);
                assert(ends_of(frontier@) =~= repetitions(model(*p), input@, start as int, 0));
                assert(repeat_reach(model(*p), input@, start as int, -1) =~= Set::<int>::empty());
                if *min == 0 {
                    assert(ends@[0] == start);
                }
                assert(ends_of(ends@) =~= repeat_reach(model(*p), input@, start as int, 0));
            }
            while frontier.len() > 0 && below_max(*max, count)
                invariant
                    *p == (Pattern::Repeat { inner: *inner, min: *min, max: *max }),
                    start <= input@.len(),
                    n == input@.len(),
                    count <= n + 1,
                    ends_of(frontier@) == repetitions(model(*p), input@, start as int, count as int),
                    ends_of(ends@) == repeat_reach(model(*p), input@, start as int, count as int),
                    frontier@.no_duplicates(),
                    ends@.no_duplicates(),
                    forall|i: int| 0 <= i < frontier@.len() ==> start + count <= #[trigger] frontier@[i] <= input@.len(),
                    forall|i: int| 0 <= i < ends@.len() ==> start <= #[trigger] ends@[i] <= input@.len(),
                ensures
                    frontier@.len() == 0 || !below_max_spec(*max, count) || repetitions(model(*p), input@, start as int, count + 1) =~= Set::<int>::empty(),
                decreases n + 1 - count,
            {
                assert(start + count <= frontier@[0] <= n);
                let next = step_from(inner, input, &frontier, true);
                if next.len() == 0 {
                    assert(repetitions(model(*p), input@, start as int, count + 1) =~= Set::<int>::empty()) by {
                        assert(ends_of(next@) =~= Set::<int>::empty());
                    }
                    break;
                }
                assert(start + count < next@[0] <= n) by {
                    let j = choose|j: int| 0 <= j < frontier@.len() && frontier@[j] <= next@[0] && frontier@[j] < next@[0];
                    assert(start + count <= frontier@[j]);
                }
                count = count + 1;
                proof {
                    assert forall|i: int| 0 <= i < next@.len() implies start + count <= #[trigger] next@[i] <= input@.len() by {
                        let j = choose|j: int| 0 <= j < frontier@.len() && frontier@[j] <= next@[i] && frontier@[j] < next@[i];
                        assert(start + count - 1 <= frontier@[j]);
                    }
                    assert(ends_of(next@) == repetitions(model(*p), input@, start as int, count as int));
                }
                let ghost base = ends_of(ends@);
                if count >= *min {
                    let mut i: usize = 0;
                    while i < next.len()
                        invariant
                            i <= next@.len(),
                            start <= input@.len(),
                            ends@.no_duplicates(),
                            forall|x: int| 0 <= x < next@.len() ==> start <= #[trigger] next@[x] <= input@.len(),
                            forall|x: int| 0 <= x < ends@.len() ==> start <= #[trigger] ends@[x] <= input@.len(),
                            ends_of(ends@) == base.union(ends_of(next@.take(i as int))),
                        decreases next.len() - i,
                    {
                        let e = next[i];
                        add_end(&mut ends, e);
                        proof {
                            lemma_ends_of_take(next@, i as int);
                            assert(ends_of(ends@) =~= base.union(ends_of(next@.take(i + 1))));
                        }
                        i = i + 1;
                    }
                    assert(next@.take(next@.len() as int) == next@);
                }
                proof {
                    if !(count >= *min) {
                        assert(!count_allowed(*min, *max, count as int));
                    }
                    assert(ends_of(ends@) =~= repeat_reach(model(*p), input@, start as int, count as int));
                }
                frontier = next;
            }
            proof {
                let c = count as int;
                if frontier.len() > 0 && below_max_spec(*max, count) {
                    assert forall|j: int| c < j <= n + 1 implies #[trigger] adds_nothing(model(*p), input@, start as int, j) by {
                        lemma_repetitions_stay_empty(model(*p), input@, start as int, c + 1, j);
                    }
                } else if frontier.len() == 0 {
                    assert(repetitions(model(*p), input@, start as int, c) =~= Set::<int>::empty());
                    assert forall|j: int| c < j <= n + 1 implies #[trigger] adds_nothing(model(*p), input@, start as int, j) by {
                        lemma_repetitions_stay_empty(model(*p), input@, start as int, c, j);
                    }
                } else {
                    assert forall|j: int| c < j <= n + 1 implies #[trigger] adds_nothing(model(*p), input@, start as int, j) by {
                        assert(!count_allowed(*min, *max, j));
                    }
                }
                lemma_repeat_tail(model(*p), input@, start as int, c, n + 1);
            }
            ends
        },
    }
}


// ---------------------------------------------------------------------------
// Parsing
// ---------------------------------------------------------------------------

/// The token at `i`, if any.
pub open spec fn token(t: Seq<char>, i: int) -> Option<char> {
    if 0 <= i < t.len() {
        Some(t[i])
    } else {
        None
    }
}

/// The first position at or after `i` holding `c`, or -1.
pub open spec fn first_from(t: Seq<char>, c: char, i: int) -> int
    decreases t.len() - i,
{
    if i < 0 || i >= t.len() {
        -1
    } else if t[i] == c {
        i
    } else {
        first_from(t, c, i + 1)
    }
}

/// A repetition count as Rust's `usize` parser reads it: an optional `+`
/// and at least one digit, within range.
pub open spec fn count_lexeme(s: Seq<char>) -> Option<usize> {
    let d = if s.len() > 1 && s[0] == '+' {
        s.drop_first()
    } else {
        s
    };
    if d.len() > 0 && all_digits(d) && digits_value(d) <= usize::MAX {
        Some(digits_value(d) as usize)
    } else {
        None
    }
}

/// The bounds written between braces: `n`, `n,` or `n,m`.
pub open spec fn brace_bounds(body: Seq<char>) -> Option<(usize, Option<usize>)> {
    let comma = first_from(body, ',', 0);
    if comma < 0 {
        match count_lexeme(body) {
            Some(n) => Some((n, Some(n))),
            None => None,
        }
    } else {
        let high = body.skip(comma + 1);
        match count_lexeme(body.take(comma)) {
            None => None,
            Some(low) => if high.len() == 0 {
                Some((low, None))
            } else {
                match count_lexeme(high) {
                    None => None,
                    Some(h) => Some((low, Some(h))),
                }
            },
        }
    }
}

pub open spec fn repeat_model(atom: PatternModel, min: usize, max: Option<usize>) -> PatternModel {
    PatternModel::Repeat { inner: Box::new(atom), min, max }
}

/// An optional quantifier after an atom.
pub open spec fn quantifier_spec(atom: PatternModel, t: Seq<char>, pos: int) -> Option<(PatternModel, int)> {
    match token(t, pos) {
        Some(c) => if c == '?' {
            Some((repeat_model(atom, 0, Some(1)), pos + 1))
        } else if c == '*' {
            Some((repeat_model(atom, 0, None), pos + 1))
        } else if c == '+' {
            Some((repeat_model(atom, 1, None), pos + 1))
        } else if c == '{' {
            let close = first_from(t, '}', pos);
            if close < 0 {
                None
            } else {
                match brace_bounds(t.subrange(pos + 1, close)) {
                    None => None,
                    Some((min, max)) => Some((repeat_model(atom, min, max), close + 1)),
                }
            }
        } else {
            Some((atom, pos))
        },
        None => Some((atom, pos)),
    }
}

/// The items of a character class from `p` up to its closing bracket.
pub open spec fn class_items_spec(t: Seq<char>, p: int, items: Seq<ClassItem>, negated: bool) -> Option<(PatternModel, int)>
    decreases t.len() - p,
{
    if p < 0 {
        None
    } else {
        match token(t, p) {
            None => None,
            Some(c) => if c == ']' {
                if items.len() == 0 {
                    None
                } else {
                    Some((PatternModel::Class { negated, items }, p + 1))
                }
            } else {
                let low_at = if c == '\\' {
                    p + 1
                } else {
                    p
                };
                match token(t, low_at) {
                    None => None,
                    Some(low) => {
                        let after = low_at + 1;
                        if token(t, after) == Some('-') && token(t, after + 1) != Some(']') {
                            match token(t, after + 1) {
                                None => None,
                                Some(high) => class_items_spec(t, after + 2, items.push(ClassItem::Range(low, high)), negated),
                            }
                        } else {
                            class_items_spec(t, after, items.push(ClassItem::Single(low)), negated)
                        }
                    },
                }
            },
        }
    }
}

/// A character class whose opening bracket lies just before `pos`.
pub open spec fn class_spec(t: Seq<char>, pos: int) -> Option<(PatternModel, int)> {
    let negated = token(t, pos) == Some('^');
    class_items_spec(
        t,
        if negated {
            pos + 1
        } else {
            pos
        },
        Seq::empty(),
        negated,
    )
}

/// Whether a character is a metacharacter this subset does not support
/// outside the places that give it meaning.
pub open spec fn unsupported_meta(c: char) -> bool {
    c == '.' || c == '*' || c == '+' || c == '?' || c == '{' || c == '}' || c == ']'
}

/// One atom: a group, a class, an escape or a literal.
pub open spec fn atom_spec(t: Seq<char>, pos: int) -> Option<(PatternModel, int)>
    decreases t.len() - pos, 0int,
{
    if pos < 0 || pos > t.len() {
        None
    } else {
        match token(t, pos) {
            None => None,
            Some(c) => if c == '(' {
                match alternation_spec(t, pos + 1) {
                    None => None,
                    Some((inner, next)) => if token(t, next) == Some(')') {
                        Some((inner, next + 1))
                    } else {
                        None
                    },
                }
            } else if c == '[' {
                class_spec(t, pos + 1)
            } else if c == '\\' {
                match token(t, pos + 1) {
                    None => None,
                    Some(e) => if is_alnum(e) {
                        None
                    } else {
                        Some((PatternModel::Literal(e), pos + 2))
                    },
                }
            } else if unsupported_meta(c) {
                None
            } else {
                Some((PatternModel::Literal(c), pos + 1))
            },
        }
    }
}

/// The parts of a sequence from `pos` up to `|`, `)` or the end.
pub open spec fn sequence_parts_spec(t: Seq<char>, pos: int) -> Option<(Seq<PatternModel>, int)>
    decreases t.len() - pos, 1int,
{
    if pos < 0 || pos > t.len() {
        None
    } else if pos == t.len() || t[pos] == '|' || t[pos] == ')' {
        Some((Seq::empty(), pos))
    } else {
        match atom_spec(t, pos) {
            None => None,
            Some((atom, next)) => match quantifier_spec(atom, t, next) {
                None => None,
                Some((part, after)) => if pos < after <= t.len() {
                    match sequence_parts_spec(t, after) {
                        None => None,
                        Some((rest, end)) => Some((seq![part] + rest, end)),
                    }
                } else {
                    None
                },
            },
        }
    }
}

/// A sequence from `pos`.
pub open spec fn sequence_spec(t: Seq<char>, pos: int) -> Option<(PatternModel, int)>
    decreases t.len() - pos, 2int,
{
    match sequence_parts_spec(t, pos) {
        None => None,
        Some((parts, end)) => Some((PatternModel::Sequence(parts), end)),
    }
}

/// The branches of an alternation from `pos`.
pub open spec fn branches_spec(t: Seq<char>, pos: int) -> Option<(Seq<PatternModel>, int)>
    decreases t.len() - pos, 3int,
{
    if pos < 0 || pos > t.len() {
        None
    } else {
        match sequence_spec(t, pos) {
            None => None,
            Some((branch, next)) => if pos <= next < t.len() && t[next] == '|' {
                match branches_spec(t, next + 1) {
                    None => None,
                    Some((rest, end)) => Some((seq![branch] + rest, end)),
                }
            } else {
                Some((seq![branch], next))
            },
        }
    }
}

/// An alternation from `pos`; a single branch stands for itself.
pub open spec fn alternation_spec(t: Seq<char>, pos: int) -> Option<(PatternModel, int)>
    decreases t.len() - pos, 4int,
{
    match branches_spec(t, pos) {
        None => None,
        Some((branches, end)) => if branches.len() == 1 {
            Some((branches[0], end))
        } else {
            Some((PatternModel::Alternation(branches), end))
        },
    }
}

/// Whether `value` as a whole matches `pattern`; a pattern that does not
/// parse, or parses only in part, matches nothing.
pub open spec fn pattern_matches(pattern: Seq<char>, value: Seq<char>) -> bool {
    match alternation_spec(pattern, 0) {
        Some(found) => found.1 == pattern.len() && reach(found.0, value, 0).contains(value.len() as int),
        None => false,
    }
}


/// The models of a list of patterns.
pub open spec fn vec_models(v: Seq<Pattern>) -> Seq<PatternModel> {
    Seq::new(v.len(), |i: int| model(v[i]))
}

/// A parsed prefix in front of the parse of the rest.
pub open spec fn join_parts(prefix: Seq<PatternModel>, rest: Option<(Seq<PatternModel>, int)>) -> Option<(Seq<PatternModel>, int)> {
    match rest {
        None => None,
        Some((tail, end)) => Some((prefix + tail, end)),
    }
}

/// The model of a parse result.
pub open spec fn parsed(r: Option<(Pattern, usize)>) -> Option<(PatternModel, int)> {
    match r {
        None => None,
        Some((p, n)) => Some((model(p), n as int)),
    }
}

proof fn lemma_vec_models_push(v: Seq<Pattern>, p: Pattern)
    ensures
        vec_models(v.push(p)) =~= vec_models(v).push(model(p)),
{
    assert forall|i: int| 0 <= i < v.len() implies vec_models(v.push(p))[i] == vec_models(v)[i] by {
        assert(v.push(p)[i] == v[i]);
    }
}

proof fn lemma_join_step(prefix: Seq<PatternModel>, m: PatternModel, rest: Option<(Seq<PatternModel>, int)>)
    ensures
        join_parts(prefix, join_parts(seq![m], rest)) == join_parts(prefix.push(m), rest),
{
    if let Some((tail, end)) = rest {
        assert(prefix + (seq![m] + tail) =~= prefix.push(m) + tail);
    }
}

pub proof fn lemma_digit_step(s: Seq<char>, k: int)
    requires
        0 <= k < s.len(),
    ensures
        digits_value(s.take(k + 1)) == digits_value(s.take(k)) * 10 + (s[k] as int - '0' as int),
{
    assert(s.take(k + 1).drop_last() =~= s.take(k));
    assert(s.take(k + 1).last() == s[k]);
}

pub proof fn lemma_digits_monotone(s: Seq<char>, j: int)
    requires
        all_digits(s),
        0 <= j <= s.len(),
    ensures
        digits_value(s.take(j)) <= digits_value(s),
    decreases s.len(),
{
    if j == s.len() {
        assert(s.take(j) =~= s);
    } else {
        let d = s.drop_last();
        assert(all_digits(d)) by {
            assert forall|i: int| 0 <= i < d.len() implies is_digit(d[i]) by {
                assert(d[i] == s[i]);
            }
        }
        lemma_digits_monotone(d, j);
        assert(d.take(j) =~= s.take(j));
        crate::value::lemma_digits_value_nonneg(d);
        assert(is_digit(s[s.len() - 1]));
    }
}

/// Reads a repetition count from `t[lo..hi]`.
fn parse_count(t: &Vec<char>, lo: usize, hi: usize) -> (r: Option<usize>)
    requires
        lo <= hi <= t@.len(),
    ensures
        r == count_lexeme(t@.subrange(lo as int, hi as int)),
{
    let ghost s = t@.subrange(lo as int, hi as int);
    let start = if hi - lo > 1 && t[lo] == '+' {
        lo + 1
    } else {
        lo
    };
    let ghost d = t@.subrange(start as int, hi as int);
    assert(d =~= (if s.len() > 1 && s[0] == '+' {
        s.drop_first()
    } else {
        s
    }));
    if start == hi {
        return None;
    }
    let mut value: u128 = 0;
    let mut k = start;
    assert(d.take(0) =~= Seq::<char>::empty());
    while k < hi
        invariant
            start <= k <= hi <= t@.len(),
            d == t@.subrange(start as int, hi as int),
            s == t@.subrange(lo as int, hi as int),
            d.len() > 0,
            d =~= (if s.len() > 1 && s[0] == '+' {
                s.drop_first()
            } else {
                s
            }),
            all_digits(d.take(k - start)),
            value == digits_value(d.take(k - start)),
            value <= usize::MAX,
        decreases hi - k,
    {
        let c = t[k];
        assert(d[k - start] == c);
        if !digit(c) {
            assert(!all_digits(d));
            return None;
        }
        proof {
            lemma_digit_step(d, k - start);
            assert(all_digits(d.take(k - start + 1))) by {
                assert forall|i: int| 0 <= i < k - start + 1 implies is_digit(#[trigger] d.take(k - start + 1)[i]) by {
                    if i < k - start {
                        assert(d.take(k - start + 1)[i] == d.take(k - start)[i]);
                    }
                }
            }
        }
        let next = value * 10 + ((c as u32) - ('0' as u32)) as u128;
        if next > usize::MAX as u128 {
            proof {
                if all_digits(d) {
                    lemma_digits_monotone(d, k - start + 1);
                }
            }
            return None;
        }
        value = next;
        k = k + 1;
    }
    assert(d.take(d.len() as int) =~= d);
    Some(value as usize)
}

fn ends_branch(c: char) -> (r: bool)
    ensures
        r == (c == '|' || c == ')'),
{
    c == '|' || c == ')'
}

fn unsupported(c: char) -> (r: bool)
    ensures
        r == unsupported_meta(c),
{
    c == '.' || c == '*' || c == '+' || c == '?' || c == '{' || c == '}' || c == ']'
}

/// A character class; the opening bracket lies just before `position`.
fn parse_class(tokens: &Vec<char>, position: usize) -> (r: Option<(Pattern, usize)>)
    requires
        position <= tokens@.len(),
    ensures
        parsed(r) == class_spec(tokens@, position as int),
        r matches Some((_, n)) ==> position < n <= tokens@.len(),
{
    let ghost t = tokens@;
    let negated = position < tokens.len() && tokens[position] == '^';
    let mut p = if negated {
        position + 1
    } else {
        position
    };
    let mut items: Vec<ClassItem> = Vec::new();
    loop
        invariant
            t == tokens@,
            position <= p <= tokens@.len(),
            class_spec(t, position as int) == class_items_spec(t, p as int, items@, negated),
        decreases tokens@.len() - p,
    {
        if p >= tokens.len() {
            return None;
        }
        let c = tokens[p];
        if c == ']' {
            if items.len() == 0 {
                return None;
            }
            return Some((Pattern::Class { negated, items }, p + 1));
        }
        let low_at = if c == '\\' {
            p + 1
        } else {
            p
        };
        if low_at >= tokens.len() {
            return None;
        }
        let low = tokens[low_at];
        let after = low_at + 1;
        if after < tokens.len() && tokens[after] == '-' && !(after + 1 < tokens.len() && tokens[after + 1] == ']') {
            if after + 1 >= tokens.len() {
                return None;
            }
            items.push(ClassItem::Range(low, tokens[after + 1]));
            p = after + 2;
        } else {
            items.push(ClassItem::Single(low));
            p = after;
        }
    }
}

/// An optional quantifier after an atom.
fn parse_quantifier(atom: Pattern, tokens: &Vec<char>, position: usize) -> (r: Option<(Pattern, usize)>)
    requires
        position <= tokens@.len(),
    ensures
        parsed(r) == quantifier_spec(model(atom), tokens@, position as int),
        r matches Some((_, n)) ==> position <= n <= tokens@.len(),
{
    let ghost t = tokens@;
    if position >= tokens.len() {
        return Some((atom, position));
    }
    let c = tokens[position];
    if c == '?' {
        Some((Pattern::Repeat { inner: Box::new(atom), min: 0, max: Some(1) }, position + 1))
    } else if c == '*' {
        Some((Pattern::Repeat { inner: Box::new(atom), min: 0, max: None }, position + 1))
    } else if c == '+' {
        Some((Pattern::Repeat { inner: Box::new(atom), min: 1, max: None }, position + 1))
    } else if c == '{' {
        let mut close = position;
        while close < tokens.len() && tokens[close] != '}'
            invariant
                t == tokens@,
                position <= close <= tokens@.len(),
                first_from(t, '}', position as int) == first_from(t, '}', close as int),
            decreases tokens@.len() - close,
        {
            close = close + 1;
        }
        if close == tokens.len() {
            return None;
        }
        let ghost body = t.subrange(position + 1, close as int);
        let mut comma = position + 1;
        while comma < close && tokens[comma] != ','
            invariant
                t == tokens@,
                position + 1 <= comma <= close < tokens@.len(),
                body == t.subrange(position + 1, close as int),
                first_from(body, ',', 0) == first_from(body, ',', comma - (position + 1)),
            decreases close - comma,
        {
            assert(body[comma - (position + 1)] == tokens@[comma as int]);
            comma = comma + 1;
        }
        if comma < close {
            assert(body[comma - (position + 1)] == tokens@[comma as int]);
        }
        let bounds: (usize, Option<usize>) = if comma == close {
            match parse_count(tokens, position + 1, close) {
                None => {
                    return None;
                },
                Some(n) => (n, Some(n)),
            }
        } else {
            assert(body.take(comma - (position + 1)) =~= t.subrange(position + 1, comma as int));
            assert(body.skip(comma - (position + 1) + 1) =~= t.subrange(comma + 1, close as int));
            match parse_count(tokens, position + 1, comma) {
                None => {
                    return None;
                },
                Some(low) => if comma + 1 == close {
                    (low, None)
                } else {
                    match parse_count(tokens, comma + 1, close) {
                        None => {
                            return None;
                        },
                        Some(high) => (low, Some(high)),
                    }
                },
            }
        };
        Some((Pattern::Repeat { inner: Box::new(atom), min: bounds.0, max: bounds.1 }, close + 1))
    } else {
        Some((atom, position))
    }
}

/// One atom at `position`.
fn parse_atom(tokens: &Vec<char>, position: usize) -> (r: Option<(Pattern, usize)>)
    requires
        position <= tokens@.len(),
    ensures
        parsed(r) == atom_spec(tokens@, position as int),
        r matches Some((_, n)) ==> position < n <= tokens@.len(),
    decreases tokens@.len() - position, 0int,
{
    if position >= tokens.len() {
        return None;
    }
    let c = tokens[position];
    assert(token(tokens@, position as int) == Some(c));
    if c == '(' {
        match parse_alternation(tokens, position + 1) {
            None => None,
            Some((inner, next)) => {
                assert(alternation_spec(tokens@, position + 1) == Some((model(inner), next as int)));
                if next < tokens.len() && tokens[next] == ')' {
                    assert(atom_spec(tokens@, position as int) == Some((model(inner), next + 1)));
                    Some((inner, next + 1))
                } else {
                    None
                }
            },
        }
    } else if c == '[' {
        assert(atom_spec(tokens@, position as int) == class_spec(tokens@, position + 1));
        parse_class(tokens, position + 1)
    } else if c == '\\' {
        if position + 1 >= tokens.len() {
            assert(atom_spec(tokens@, position as int) is None);
            None
        } else {
            let e = tokens[position + 1];
            assert(token(tokens@, position + 1) == Some(e));
            if alnum(e) {
                assert(atom_spec(tokens@, position as int) is None);
                None
            } else {
                assert(atom_spec(tokens@, position as int) == Some((PatternModel::Literal(e), position + 2)));
                proof {
                    lemma_model_literal(e);
                }
                Some((Pattern::Literal(e), position + 2))
            }
        }
    } else if unsupported(c) {
        assert(atom_spec(tokens@, position as int) is None);
        None
    } else {
        assert(atom_spec(tokens@, position as int) == Some((PatternModel::Literal(c), position + 1)));
        proof {
            lemma_model_literal(c);
        }
        Some((Pattern::Literal(c), position + 1))
    }
}

/// A sequence from `position` up to `|`, `)` or the end.
fn parse_sequence(tokens: &Vec<char>, position: usize) -> (r: Option<(Pattern, usize)>)
    requires
        position <= tokens@.len(),
    ensures
        parsed(r) == sequence_spec(tokens@, position as int),
        r matches Some((_, n)) ==> position <= n <= tokens@.len(),
    decreases tokens@.len() - position, 2int,
{
    let ghost t = tokens@;
    let ghost pos0 = position as int;
    let mut parts: Vec<Pattern> = Vec::new();
    let mut pos = position;
    assert(join_parts(vec_models(parts@), sequence_parts_spec(t, pos0)) == sequence_parts_spec(t, pos0)) by {
        if let Some((tail, end)) = sequence_parts_spec(t, pos0) {
            assert(vec_models(parts@) + tail =~= tail);
        }
    }
    while pos < tokens.len() && !ends_branch(tokens[pos])
        invariant
            t == tokens@,
            pos0 <= pos <= tokens@.len(),
            pos0 == position,
            sequence_parts_spec(t, pos0) == join_parts(vec_models(parts@), sequence_parts_spec(t, pos as int)),
        decreases tokens@.len() - pos,
    {
        match parse_atom(tokens, pos) {
            None => {
                return None;
            },
            Some((atom, next)) => match parse_quantifier(atom, tokens, next) {
                None => {
                    return None;
                },
                Some((part, after)) => {
                    proof {
                        lemma_vec_models_push(parts@, part);
                        lemma_join_step(vec_models(parts@), model(part), sequence_parts_spec(t, after as int));
                    }
                    parts.push(part);
                    pos = after;
                },
            },
        }
    }
    let ghost models_seen = vec_models(parts@);
    let n = parts.len();
    let r = Pattern::Sequence(parts);
    proof {
        lemma_models(r, n as int);
        assert(models(r, n as int) =~= models_seen);
        assert(models_seen + Seq::<PatternModel>::empty() =~= models_seen);
    }
    Some((r, pos))
}

/// An alternation from `pos`.
fn parse_alternation(tokens: &Vec<char>, position: usize) -> (r: Option<(Pattern, usize)>)
    requires
        position <= tokens@.len(),
    ensures
        parsed(r) == alternation_spec(tokens@, position as int),
        r matches Some((_, n)) ==> position <= n <= tokens@.len(),
    decreases tokens@.len() - position, 4int,
{
    let ghost t = tokens@;
    let ghost pos0 = position as int;
    let mut branches: Vec<Pattern> = Vec::new();
    let mut pos = position;
    assert(join_parts(vec_models(branches@), branches_spec(t, pos0)) == branches_spec(t, pos0)) by {
        if let Some((tail, end)) = branches_spec(t, pos0) {
            assert(vec_models(branches@) + tail =~= tail);
        }
    }
    loop
        invariant
            t == tokens@,
            pos0 <= pos <= tokens@.len(),
            pos0 == position,
            branches_spec(t, pos0) == join_parts(vec_models(branches@), branches_spec(t, pos as int)),
        decreases tokens@.len() - pos,
    {
        match parse_sequence(tokens, pos) {
            None => {
                return None;
            },
            Some((branch, next)) => {
                proof {
                    lemma_vec_models_push(branches@, branch);
                }
                if next < tokens.len() && tokens[next] == '|' {
                    proof {
                        lemma_join_step(vec_models(branches@), model(branch), branches_spec(t, next + 1));
                    }
                    branches.push(branch);
                    pos = next + 1;
                } else {
                    proof {
                        lemma_join_step(vec_models(branches@), model(branch), Some((Seq::empty(), next as int)));
                        assert(seq![model(branch)] + Seq::<PatternModel>::empty() =~= seq![model(branch)]);
                        assert(vec_models(branches@).push(model(branch)) + Seq::<PatternModel>::empty()
                            =~= vec_models(branches@).push(model(branch)));
                    }
                    branches.push(branch);
                    if branches.len() == 1 {
                        let only = branches.remove(0);
                        return Some((only, next));
                    }
                    let ghost models_seen = vec_models(branches@);
                    let n = branches.len();
                    let r = Pattern::Alternation(branches);
                    proof {
                        lemma_models(r, n as int);
                        assert(models(r, n as int) =~= models_seen);
                    }
                    return Some((r, next));
                }
            },
        }
    }
}

/// Whether `value` as a whole matches `pattern`. A pattern this subset
/// cannot read matches nothing, so it can never let a value pass.
pub fn matches_pattern(pattern: &str, value: &str) -> (r: bool)
    ensures
        r == pattern_matches(pattern@, value@),
{
    let tokens = chars_of(pattern);
    let input = chars_of(value);
    match parse_alternation(&tokens, 0) {
        Some((node, next)) => {
            if next != tokens.len() {
                return false;
            }
            assert(alternation_spec(pattern@, 0) == Some((model(node), next as int)));
            let ends = match_at(&node, &input, 0);
            assert(pattern_matches(pattern@, value@) == reach(model(node), input@, 0).contains(input@.len() as int));
            let mut i: usize = 0;
            while i < ends.len()
                invariant
                    i <= ends@.len(),
                    forall|j: int| 0 <= j < i ==> ends@[j] != input@.len(),
                    ends_of(ends@) == reach(model(node), input@, 0),
                    pattern_matches(pattern@, value@) == reach(model(node), input@, 0).contains(input@.len() as int),
                decreases ends.len() - i,
            {
                if ends[i] == input.len() {
                    assert(ends_of(ends@).contains(input@.len() as int));
                    return true;
                }
                i = i + 1;
            }
            assert(!ends_of(ends@).contains(input@.len() as int));
            false
        },
        None => false,
    }
}


} // verus!
