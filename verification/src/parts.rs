//! Parts of a template that include parts: whether that comes to an end.

use vstd::prelude::*;
use crate::search::{begins_with, occurs_at, stands_at};
use crate::tags::{has_sign, is_lead, lead_behind, lead_end, lemma_mark_signs, mark_of, marks_from,
    marks_of, read_marks, twice, Mark};
use crate::text::{chars_of, same_chars};

verus! {

// Inclusions inside parts

/// The blocks that are open before the mark at `n`, the innermost last: for a part its mark.
pub open spec fn open_before(marks: Seq<Mark<Seq<char>>>, n: int) -> Seq<Option<int>>
    decreases n,
{
    if n <= 0 {
        Seq::empty()
    } else {
        let open = open_before(marks, n - 1);
        match marks[n - 1] {
            Mark::Part(_) => open.push(Some(n - 1)),
            Mark::InclusionBlock(_) => open.push(None),
            Mark::Block => open.push(None),
            Mark::Inclusion(_) => open,
            Mark::End => if open.len() == 0 {
                open
            } else {
                open.drop_last()
            },
        }
    }
}

/// The innermost part among the blocks.
pub open spec fn innermost(open: Seq<Option<int>>) -> Option<int>
    decreases open.len(),
{
    if open.len() == 0 {
        None
    } else {
        match open.last() {
            Some(part) => Some(part),
            None => innermost(open.drop_last()),
        }
    }
}

/// The part inside which the mark at `n` stands.
pub open spec fn part_around(marks: Seq<Mark<Seq<char>>>, n: int) -> Option<int> {
    innermost(open_before(marks, n))
}

/// Whether the mark includes a part.
pub open spec fn is_inclusion(mark: Mark<Seq<char>>) -> bool {
    mark is Inclusion || mark is InclusionBlock
}

/// The name that the mark bears.
pub open spec fn name_at(mark: Mark<Seq<char>>) -> Option<Seq<char>> {
    match mark {
        Mark::Part(name) => name,
        Mark::Inclusion(name) => name,
        Mark::InclusionBlock(name) => name,
        _ => None,
    }
}

/// Whether the name under which a part is included can be the name of a part. A name that is not
/// known can be any.
pub open spec fn may_name(wanted: Option<Seq<char>>, name: Option<Seq<char>>) -> bool {
    wanted is None || name is None || wanted == name
}

/// Whether the mark at `n` is an inclusion inside a part.
pub open spec fn is_nested(marks: Seq<Mark<Seq<char>>>, n: int) -> bool {
    0 <= n < marks.len() && is_inclusion(marks[n]) && part_around(marks, n) is Some
}

/// Whether the inclusion at `n` can lead to the one at `m`: that stands inside a part that may be
/// the one that is included.
pub open spec fn leads_to(marks: Seq<Mark<Seq<char>>>, n: int, m: int) -> bool {
    part_around(marks, m) matches Some(part) && may_name(name_at(marks[n]), name_at(marks[part]))
}

/// Whether these are inclusions inside parts of which each can lead to the next, and the last to
/// the first.
pub open spec fn is_circle(marks: Seq<Mark<Seq<char>>>, path: Seq<int>) -> bool {
    &&& path.len() > 0
    &&& forall|i: int| 0 <= i < path.len() ==> is_nested(marks, #[trigger] path[i])
    &&& forall|i: int, j: int|
        0 <= i && j == i + 1 && j < path.len() ==> leads_to(
            marks,
            #[trigger] path[i],
            #[trigger] path[j],
        )
    &&& leads_to(marks, path.last(), path[0])
}

/// Whether including can go on without end: an inclusion inside a part can lead back to itself.
pub open spec fn can_go_on(marks: Seq<Mark<Seq<char>>>) -> bool {
    exists|path: Seq<int>| is_circle(marks, path)
}

/// An inclusion inside a part under a name that is computed can lead back to itself.
pub proof fn lemma_computed_name_goes_on(marks: Seq<Mark<Seq<char>>>, n: int)
    requires
        is_nested(marks, n),
        name_at(marks[n]) is None,
    ensures
        can_go_on(marks),
{
    assert(is_circle(marks, seq![n]));
}

/// Where the inclusions inside parts can be numbered so that each leads only to such with smaller
/// numbers, including comes to an end.
pub proof fn lemma_numbered_inclusions_end(
    marks: Seq<Mark<Seq<char>>>,
    number: spec_fn(int) -> nat,
)
    requires
        forall|n: int, m: int|
            is_nested(marks, n) && is_nested(marks, m) && #[trigger] leads_to(marks, n, m)
                ==> number(m) < number(n),
    ensures
        !can_go_on(marks),
{
    if can_go_on(marks) {
        let path = choose|path: Seq<int>| is_circle(marks, path);
        lemma_numbers_fall(marks, number, path, path.len() - 1);
        assert(leads_to(marks, path.last(), path[0]));
        assert(is_nested(marks, path[0]) && is_nested(marks, path[path.len() - 1]));
    }
}

proof fn lemma_numbers_fall(
    marks: Seq<Mark<Seq<char>>>,
    number: spec_fn(int) -> nat,
    path: Seq<int>,
    i: int,
)
    requires
        is_circle(marks, path),
        0 <= i < path.len(),
        forall|n: int, m: int|
            is_nested(marks, n) && is_nested(marks, m) && #[trigger] leads_to(marks, n, m)
                ==> number(m) < number(n),
    ensures
        number(path[i]) <= number(path[0]),
    decreases i,
{
    if i > 0 {
        lemma_numbers_fall(marks, number, path, i - 1);
        assert(is_nested(marks, path[i - 1]) && is_nested(marks, path[i]));
        assert(leads_to(marks, path[i - 1], path[i]));
    }
}

/// Whether the inclusion at `n` can lead to one of these.
#[verifier::opaque]
spec fn leads_into(marks: Seq<Mark<Seq<char>>>, n: int, c: Set<int>) -> bool {
    exists|m: int| c.contains(m) && #[trigger] leads_to(marks, n, m)
}

/// Whether these are inclusions inside parts of which each can lead to one of them.
spec fn keeps_leading(marks: Seq<Mark<Seq<char>>>, c: Set<int>) -> bool {
    forall|n: int| #[trigger] c.contains(n) ==> is_nested(marks, n) && leads_into(marks, n, c)
}

/// The inclusions of a circle keep leading to one of them.
proof fn lemma_circle_keeps_leading(marks: Seq<Mark<Seq<char>>>, path: Seq<int>)
    requires
        is_circle(marks, path),
    ensures
        keeps_leading(marks, path.to_set()),
        path.to_set().contains(path[0]),
{
    let c = path.to_set();
    assert(path.contains(path[0]));
    assert forall|n: int| #[trigger] c.contains(n) implies is_nested(marks, n) && leads_into(
        marks,
        n,
        c,
    ) by {
        reveal(leads_into);
        let i = choose|i: int| 0 <= i < path.len() && path[i] == n;
        if i < path.len() - 1 {
            assert(path.contains(path[i + 1]));
            assert(c.contains(path[i + 1]) && leads_to(marks, n, path[i + 1]));
        } else {
            assert(c.contains(path[0]) && leads_to(marks, n, path[0]));
        }
    }
}

/// Going on from `n` for some steps among inclusions that keep leading.
proof fn lemma_steps(marks: Seq<Mark<Seq<char>>>, c: Set<int>, n: int, steps: nat) -> (path: Seq<
    int,
>)
    requires
        keeps_leading(marks, c),
        c.contains(n),
    ensures
        path.len() == steps + 1,
        forall|i: int| 0 <= i < path.len() ==> c.contains(#[trigger] path[i]),
        forall|i: int, j: int|
            0 <= i && j == i + 1 && j < path.len() ==> leads_to(
                marks,
                #[trigger] path[i],
                #[trigger] path[j],
            ),
    decreases steps,
{
    if steps == 0 {
        seq![n]
    } else {
        let front = lemma_steps(marks, c, n, (steps - 1) as nat);
        assert(c.contains(front.last()));
        assert(leads_into(marks, front.last(), c));
        reveal(leads_into);
        let m = choose|m: int| c.contains(m) && #[trigger] leads_to(marks, front.last(), m);
        let path = front.push(m);
        assert forall|i: int, j: int| 0 <= i && j == i + 1 && j < path.len() implies leads_to(
            marks,
            #[trigger] path[i],
            #[trigger] path[j],
        ) by {
            if j < front.len() {
                assert(leads_to(marks, front[i], front[j]));
            }
        }
        path
    }
}

/// Inclusions that keep leading to one of them come round in a circle.
proof fn lemma_comes_round(marks: Seq<Mark<Seq<char>>>, c: Set<int>, n: int)
    requires
        keeps_leading(marks, c),
        c.contains(n),
    ensures
        can_go_on(marks),
{
    let path = lemma_steps(marks, c, n, marks.len());
    assert forall|i: int| 0 <= i < path.len() implies is_nested(marks, #[trigger] path[i]) by {
        assert(c.contains(path[i]));
    }
    assert(!path.no_duplicates()) by {
        if path.no_duplicates() {
            path.unique_seq_to_set();
            vstd::set_lib::lemma_int_range(0, marks.len() as int);
            let range = vstd::set_lib::set_int_range(0, marks.len() as int);
            assert forall|k: int| #[trigger] path.to_set().contains(k) implies range.contains(k) by {
                let i = choose|i: int| 0 <= i < path.len() && path[i] == k;
                assert(is_nested(marks, path[i]));
            }
            vstd::set_lib::lemma_len_subset(path.to_set(), range);
        }
    }
    let (a, b) = choose|a: int, b: int|
        0 <= a < path.len() && 0 <= b < path.len() && a != b && path[a] == path[b];
    let i = if a < b {
        a
    } else {
        b
    };
    let j = if a < b {
        b
    } else {
        a
    };
    let round = path.subrange(i, j);
    assert forall|k: int| 0 <= k < round.len() implies is_nested(marks, #[trigger] round[k]) by {
        assert(is_nested(marks, path[i + k]));
    }
    assert forall|k: int, l: int| 0 <= k && l == k + 1 && l < round.len() implies leads_to(
        marks,
        #[trigger] round[k],
        #[trigger] round[l],
    ) by {
        assert(leads_to(marks, path[i + k], path[i + l]));
    }
    assert(leads_to(marks, path[j - 1], path[j]));
    assert(is_circle(marks, round));
}

/// The index as a number.
pub open spec fn index_in(part: Option<usize>) -> Option<int> {
    match part {
        Some(p) => Some(p as int),
        None => None,
    }
}

/// The part inside which each mark stands.
fn parts_around(marks: &Vec<Mark<Vec<char>>>) -> (around: Vec<Option<usize>>)
    ensures
        around@.len() == marks@.len(),
        forall|n: int|
            0 <= n < marks@.len() ==> index_in(#[trigger] around@[n]) == part_around(
                marks_of(marks@),
                n,
            ) && (around@[n] matches Some(p) ==> p < n),
{
    let ghost ms = marks_of(marks@);
    let mut around: Vec<Option<usize>> = Vec::new();
    // the innermost part for each of the open blocks
    let mut parts: Vec<Option<usize>> = Vec::new();
    let mut i: usize = 0;
    while i < marks.len()
        invariant
            i <= marks@.len(),
            ms == marks_of(marks@),
            around@.len() == i,
            forall|n: int|
                0 <= n < i ==> index_in(#[trigger] around@[n]) == part_around(ms, n) && (
                around@[n] matches Some(p) ==> p < n),
            parts@.len() == open_before(ms, i as int).len(),
            forall|k: int|
                0 <= k < parts@.len() ==> index_in(#[trigger] parts@[k]) == innermost(
                    open_before(ms, i as int).take(k + 1),
                ) && (parts@[k] matches Some(p) ==> p < i),
        decreases marks@.len() - i,
    {
        let ghost open = open_before(ms, i as int);
        let ghost before = parts@;
        let top: Option<usize> = if parts.len() > 0 {
            parts[parts.len() - 1]
        } else {
            None
        };
        proof {
            if open.len() > 0 {
                assert(open.take(open.len() as int) == open);
            }
            assert(index_in(top) == part_around(ms, i as int));
            assert(ms[i as int] == mark_of(marks@[i as int]));
        }
        around.push(top);
        match &marks[i] {
            Mark::Part(_) => {
                parts.push(Some(i));
            },
            Mark::InclusionBlock(_) => {
                parts.push(top);
            },
            Mark::Block => {
                parts.push(top);
            },
            Mark::Inclusion(_) => {},
            Mark::End => {
                parts.pop();
            },
        }
        proof {
            let next = open_before(ms, i + 1);
            assert forall|k: int| 0 <= k < parts@.len() implies index_in(#[trigger] parts@[k])
                == innermost(next.take(k + 1)) && (parts@[k] matches Some(p) ==> p < i + 1) by {
                if k < before.len() {
                    assert(parts@[k] == before[k]);
                    assert(next.take(k + 1) == open.take(k + 1));
                } else {
                    assert(next.take(k + 1) == next);
                    assert(next.drop_last() == open);
                }
            }
        }
        i = i + 1;
    }
    around
}

fn name_in(mark: &Mark<Vec<char>>) -> (name: Option<&Vec<char>>)
    ensures
        match name {
            Some(v) => name_at(mark_of(*mark)) == Some(v@),
            None => name_at(mark_of(*mark)) is None,
        },
{
    match mark {
        Mark::Part(Some(v)) => Some(v),
        Mark::Inclusion(Some(v)) => Some(v),
        Mark::InclusionBlock(Some(v)) => Some(v),
        _ => None,
    }
}

fn can_name(wanted: &Mark<Vec<char>>, part: &Mark<Vec<char>>) -> (b: bool)
    ensures
        b == may_name(name_at(mark_of(*wanted)), name_at(mark_of(*part))),
{
    match (name_in(wanted), name_in(part)) {
        (Some(a), Some(b)) => same_chars(a.as_slice(), b.as_slice()),
        _ => true,
    }
}

/// How many of the values are true.
spec fn trues(v: Seq<bool>) -> nat
    decreases v.len(),
{
    if v.len() == 0 {
        0
    } else {
        trues(v.drop_last()) + if v.last() {
            1nat
        } else {
            0nat
        }
    }
}

proof fn lemma_fewer_trues(v: Seq<bool>, i: int)
    requires
        0 <= i < v.len(),
        v[i],
    ensures
        trues(v.update(i, false)) + 1 == trues(v),
    decreases v.len(),
{
    let u = v.update(i, false);
    if i == v.len() - 1 {
        assert(u.drop_last() == v.drop_last());
    } else {
        assert(u.drop_last() == v.drop_last().update(i, false));
        lemma_fewer_trues(v.drop_last(), i);
    }
}

/// Whether the inclusion at `n` leads to one of those that are left.
spec fn leads_on(marks: Seq<Mark<Seq<char>>>, left: Seq<bool>, n: int) -> bool {
    exists|m: int| 0 <= m < left.len() && left[m] && #[trigger] leads_to(marks, n, m)
}

/// Whether all of these are among those that are left.
spec fn all_left(c: Set<int>, left: Seq<bool>) -> bool {
    forall|n: int| #[trigger] c.contains(n) ==> 0 <= n < left.len() && left[n]
}

/// Whether the inclusion at `n` leads to one of those that are left.
fn finds_next(
    marks: &Vec<Mark<Vec<char>>>,
    around: &Vec<Option<usize>>,
    left: &Vec<bool>,
    n: usize,
) -> (b: bool)
    requires
        n < marks@.len(),
        around@.len() == marks@.len(),
        left@.len() == marks@.len(),
        forall|k: int|
            0 <= k < marks@.len() ==> index_in(#[trigger] around@[k]) == part_around(
                marks_of(marks@),
                k,
            ) && (around@[k] matches Some(p) ==> p < k),
    ensures
        b == leads_on(marks_of(marks@), left@, n as int),
{
    let ghost ms = marks_of(marks@);
    let mut m: usize = 0;
    while m < marks.len()
        invariant
            m <= marks@.len(),
            n < marks@.len(),
            ms == marks_of(marks@),
            around@.len() == marks@.len(),
            left@.len() == marks@.len(),
            forall|k: int|
                0 <= k < marks@.len() ==> index_in(#[trigger] around@[k]) == part_around(ms, k) && (
                around@[k] matches Some(p) ==> p < k),
            forall|k: int| 0 <= k < m && left@[k] ==> !leads_to(ms, n as int, k),
        decreases marks@.len() - m,
    {
        if left[m] {
            assert(index_in(around@[m as int]) == part_around(ms, m as int));
            if let Some(p) = around[m] {
                if can_name(&marks[n], &marks[p]) {
                    assert(leads_to(ms, n as int, m as int));
                    return true;
                }
            }
        }
        m = m + 1;
    }
    false
}

/// Whether including can go on without end.
fn goes_on(marks: &Vec<Mark<Vec<char>>>) -> (b: bool)
    ensures
        b == can_go_on(marks_of(marks@)),
{
    let ghost ms = marks_of(marks@);
    let count: usize = marks.len();
    let around = parts_around(marks);
    let mut left: Vec<bool> = Vec::new();
    let mut i: usize = 0;
    while i < count
        invariant
            count == marks@.len(),
            i <= count,
            ms == marks_of(marks@),
            around@.len() == count,
            forall|k: int|
                0 <= k < count ==> index_in(#[trigger] around@[k]) == part_around(ms, k) && (
                around@[k] matches Some(p) ==> p < k),
            left@.len() == i,
            forall|k: int| 0 <= k < i ==> #[trigger] left@[k] == is_nested(ms, k),
        decreases count - i,
    {
        let inclusion = match &marks[i] {
            Mark::Inclusion(_) => true,
            Mark::InclusionBlock(_) => true,
            _ => false,
        };
        assert(ms[i as int] == mark_of(marks@[i as int]));
        assert(index_in(around@[i as int]) == part_around(ms, i as int));
        left.push(inclusion && around[i].is_some());
        i = i + 1;
    }
    proof {
        assert forall|c: Set<int>| #[trigger] keeps_leading(ms, c) implies all_left(c, left@) by {
            assert forall|n: int| #[trigger] c.contains(n) implies 0 <= n < left@.len() && left@[n] by {
                assert(is_nested(ms, n));
            }
        }
    }
    // an inclusion that leads to none of those that are left comes to an end
    let mut changed: bool = true;
    while changed
        invariant
            count == marks@.len(),
            ms == marks_of(marks@),
            around@.len() == count,
            left@.len() == count,
            forall|k: int|
                0 <= k < count ==> index_in(#[trigger] around@[k]) == part_around(ms, k) && (
                around@[k] matches Some(p) ==> p < k),
            forall|k: int| 0 <= k < count && #[trigger] left@[k] ==> is_nested(ms, k),
            forall|c: Set<int>| #[trigger] keeps_leading(ms, c) ==> all_left(c, left@),
            !changed ==> forall|k: int|
                0 <= k < count && #[trigger] left@[k] ==> leads_on(ms, left@, k),
        decreases trues(left@) + if changed { 1nat } else { 0nat },
    {
        let ghost start = left@;
        changed = false;
        let mut n: usize = 0;
        while n < count
            invariant
                n <= count,
                count == marks@.len(),
                ms == marks_of(marks@),
                around@.len() == count,
                left@.len() == count,
                forall|k: int|
                    0 <= k < count ==> index_in(#[trigger] around@[k]) == part_around(ms, k) && (
                    around@[k] matches Some(p) ==> p < k),
                forall|k: int| 0 <= k < count && #[trigger] left@[k] ==> is_nested(ms, k),
                forall|c: Set<int>| #[trigger] keeps_leading(ms, c) ==> all_left(c, left@),
                changed ==> trues(left@) < trues(start),
                !changed ==> left@ == start && forall|k: int|
                    0 <= k < n && #[trigger] left@[k] ==> leads_on(ms, left@, k),
            decreases count - n,
        {
            if left[n] && !finds_next(marks, &around, &left, n) {
                let ghost before = left@;
                proof {
                    lemma_fewer_trues(before, n as int);
                    assert forall|c: Set<int>| #[trigger] keeps_leading(ms, c) implies all_left(
                        c,
                        before.update(n as int, false),
                    ) by {
                        assert(all_left(c, before));
                        if c.contains(n as int) {
                            assert(leads_into(ms, n as int, c));
                            reveal(leads_into);
                            let m = choose|m: int| c.contains(m) && #[trigger] leads_to(
                                ms,
                                n as int,
                                m,
                            );
                            assert(c.contains(m) && before[m] && leads_to(ms, n as int, m));
                        }
                    }
                }
                left.set(n, false);
                changed = true;
            }
            n = n + 1;
        }
    }
    let mut i: usize = 0;
    while i < count
        invariant
            i <= count,
            count == left@.len(),
            count == marks@.len(),
            ms == marks_of(marks@),
            forall|k: int| 0 <= k < count && #[trigger] left@[k] ==> is_nested(ms, k),
            forall|k: int| 0 <= k < count && #[trigger] left@[k] ==> leads_on(ms, left@, k),
            forall|k: int| 0 <= k < i ==> !#[trigger] left@[k],
            forall|c: Set<int>| #[trigger] keeps_leading(ms, c) ==> all_left(c, left@),
        decreases count - i,
    {
        if left[i] {
            proof {
                let c = Set::new(|k: int| 0 <= k < count && left@[k]);
                assert forall|n: int| #[trigger] c.contains(n) implies is_nested(ms, n)
                    && leads_into(ms, n, c) by {
                    reveal(leads_into);
                    assert(left@[n]);
                    assert(leads_on(ms, left@, n));
                    let m = choose|m: int|
                        0 <= m < left@.len() && left@[m] && #[trigger] leads_to(ms, n, m);
                    assert(c.contains(m) && leads_to(ms, n, m));
                }
                assert(keeps_leading(ms, c));
                lemma_comes_round(ms, c, i as int);
            }
            return true;
        }
        i = i + 1;
    }
    proof {
        if can_go_on(ms) {
            let path = choose|path: Seq<int>| is_circle(ms, path);
            lemma_circle_keeps_leading(ms, path);
            assert(all_left(path.to_set(), left@));
            assert(left@[path[0]]);
        }
    }
    false
}

// Templates of which the tags cannot be told apart

/// Whether a tag begins at `i` that has this sign.
pub open spec fn sign_at(s: Seq<char>, i: int, sign: char) -> bool {
    &&& 0 <= i < s.len() - 1
    &&& s[i] == '{'
    &&& s[i + 1] == '{'
    &&& lead_end(s, i + 2) < s.len()
    &&& s[lead_end(s, i + 2)] == sign
}

/// What stands in the tag that begins at `i`, behind its sign.
pub open spec fn behind_sign(s: Seq<char>, i: int) -> Seq<char> {
    s.skip(lead_end(s, lead_end(s, i + 2) + 1))
}

/// Whether a tag that defines an inline part can begin at `i`.
pub open spec fn opens_inline(s: Seq<char>, i: int) -> bool {
    sign_at(s, i, '*')
}

/// Whether the text names the block that was handed to a part.
pub open spec fn names_partial_block(s: Seq<char>) -> bool {
    &&& begins_with(s, "@partial-block"@)
    &&& s.len() > 14
    &&& is_lead(s[14]) || s[14] == '}'
}

/// Whether a tag that includes a part, other than the block that was handed to this one, can begin
/// at `i`.
pub open spec fn includes_part(s: Seq<char>, i: int) -> bool {
    sign_at(s, i, '>') && !names_partial_block(behind_sign(s, i))
}

/// Whether a tag that ends an inline part can begin at `i`: such a tag names no block, or `inline`.
pub open spec fn ends_inline(s: Seq<char>, i: int) -> bool {
    sign_at(s, i, '/') && (begins_with(behind_sign(s, i), "inline"@) || begins_with(
        behind_sign(s, i),
        seq!['}'],
    ))
}

/// Whether an inclusion stands behind the beginning of a part and before the end of one.
pub open spec fn inclusion_between(s: Seq<char>) -> bool {
    exists|i: int, j: int, k: int|
        #![trigger opens_inline(s, i), includes_part(s, j), ends_inline(s, k)]
        i < j < k && opens_inline(s, i) && includes_part(s, j) && ends_inline(s, k)
}

/// Where the sign of the tag stands that begins at `i`, if one begins there.
fn sign_index(s: &[char], i: usize) -> (at: Option<usize>)
    requires
        i < s@.len(),
    ensures
        match at {
            Some(k) => k == lead_end(s@, i + 2) && i + 2 <= k < s@.len() && sign_at(
                s@,
                i as int,
                s@[k as int],
            ),
            None => forall|sign: char| !sign_at(s@, i as int, sign),
        },
{
    if s.len() - i < 2 || s[i] != '{' || s[i + 1] != '{' {
        return None;
    }
    let k = lead_behind(s, i + 2);
    if k < s.len() {
        Some(k)
    } else {
        None
    }
}

/// Whether an inclusion stands behind the beginning of a part and before the end of one.
fn finds_inclusion_between(s: &[char]) -> (b: bool)
    ensures
        b == inclusion_between(s@),
{
    let block = chars_of("@partial-block");
    let inline = chars_of("inline");
    proof {
        reveal_strlit("@partial-block");
        reveal_strlit("inline");
    }
    let mut opened: bool = false;
    let mut nested: bool = false;
    let ghost mut first: int = 0;
    let ghost mut inner: int = 0;
    let mut i: usize = 0;
    while i < s.len()
        invariant
            i <= s@.len(),
            block@ == "@partial-block"@,
            block@.len() == 14,
            inline@ == "inline"@,
            opened ==> first < i && opens_inline(s@, first),
            !opened ==> forall|a: int| a < i ==> !opens_inline(s@, a),
            nested ==> first < inner < i && opened && includes_part(s@, inner),
            !nested ==> forall|a: int, b: int|
                #![trigger opens_inline(s@, a), includes_part(s@, b)]
                a < b < i ==> !(opens_inline(s@, a) && includes_part(s@, b)),
            forall|a: int, b: int, c: int|
                #![trigger opens_inline(s@, a), includes_part(s@, b), ends_inline(s@, c)]
                a < b < c < i ==> !(opens_inline(s@, a) && includes_part(s@, b) && ends_inline(
                    s@,
                    c,
                )),
        decreases s@.len() - i,
    {
        if let Some(k) = sign_index(s, i) {
            let after = lead_behind(s, k + 1);
            let ghost rest = s@.skip(after as int);
            assert(rest == behind_sign(s@, i as int));
            if s[k] == '*' {
                if !opened {
                    proof {
                        first = i as int;
                    }
                }
                opened = true;
            } else if s[k] == '>' {
                let named = stands_at(s, block.as_slice(), after);
                let cut = named && s.len() - after > 14 && (s[after + 14] == ' ' || s[after + 14]
                    == '\t' || s[after + 14] == '\n' || s[after + 14] == '\r' || s[after + 14] == '~'
                    || s[after + 14] == '#' || s[after + 14] == '}');
                proof {
                    lemma_begins_behind(s@, after as int, "@partial-block"@);
                    if rest.len() > 14 {
                        assert(rest[14] == s@[after + 14]);
                    }
                    assert(cut == names_partial_block(rest));
                }
                if opened && !cut {
                    if !nested {
                        proof {
                            inner = i as int;
                        }
                    }
                    nested = true;
                }
            } else if s[k] == '/' {
                let named = stands_at(s, inline.as_slice(), after);
                let bare = after < s.len() && s[after] == '}';
                proof {
                    lemma_begins_behind(s@, after as int, "inline"@);
                    lemma_begins_behind(s@, after as int, seq!['}']);
                    if bare {
                        assert(s@.subrange(after as int, after + 1) =~= seq!['}']);
                    } else if occurs_at(s@, seq!['}'], after as int) {
                        assert(s@.subrange(after as int, after + 1)[0] == '}');
                    }
                    assert((named || bare) == ends_inline(s@, i as int));
                }
                if nested && (named || bare) {
                    return true;
                }
            }
        }
        i = i + 1;
    }
    assert forall|a: int, b: int, c: int|
        #![trigger opens_inline(s@, a), includes_part(s@, b), ends_inline(s@, c)]
        a < b < c implies !(opens_inline(s@, a) && includes_part(s@, b) && ends_inline(s@, c)) by {
        if ends_inline(s@, c) {
            assert(c < s@.len());
        }
    }
    false
}

/// What stands at an index is what the rest from there begins with.
proof fn lemma_begins_behind(s: Seq<char>, at: int, pat: Seq<char>)
    requires
        0 <= at <= s.len(),
    ensures
        begins_with(s.skip(at), pat) == occurs_at(s, pat, at),
{
    if at + pat.len() <= s.len() {
        assert(s.skip(at).subrange(0, pat.len() as int) =~= s.subrange(at, at + pat.len()));
    }
}

// Templates

/// Whether the parts of a template may include each other without end. Where it is unclear where a
/// tag ends, they may as soon as an inclusion stands behind the beginning of a part and before the
/// end of one.
pub open spec fn may_not_end(template: Seq<char>) -> bool {
    match marks_from(template, 0) {
        Some(marks) => can_go_on(marks),
        None => inclusion_between(template),
    }
}

/// Whether the parts of a template may include each other without end.
pub fn includes_without_end(template: &str) -> (b: bool)
    ensures
        b == may_not_end(template@),
{
    let v = chars_of(template);
    match read_marks(v.as_slice()) {
        Some(marks) => goes_on(&marks),
        None => finds_inclusion_between(v.as_slice()),
    }
}

/// A template in which no tag has a star as its sign defines no part, and one in which no tag has an
/// angle bracket includes none: neither is held to include parts without end. The sign of a tag is
/// what stands behind its two braces and what may be between, white space, tildes and hashes.
pub proof fn lemma_ordinary_templates_end(template: Seq<char>, sign: char)
    requires
        sign == '*' || sign == '>',
        forall|i: int, k: int|
            0 <= i && i + 2 <= k < template.len() && #[trigger] template[i] == '{' && template[i + 1]
                == '{' && #[trigger] template[k] == sign ==> exists|j: int|
                i + 2 <= j < k && !(#[trigger] template[j] == ' ' || template[j] == '\t'
                    || template[j] == '\n' || template[j] == '\r' || template[j] == '~'
                    || template[j] == '#'),
    ensures
        !may_not_end(template),
{
    assert forall|j: int| #[trigger] twice(template, j, '{') && lead_end(template, j + 2)
        < template.len() implies template[lead_end(template, j + 2)] != sign by {
        lemma_lead_within(template, j + 2);
        let k = lead_end(template, j + 2);
        if template[k] == sign {
            assert(template[j] == '{' && template[k] == sign);
        }
    }
    assert(!has_sign(template, sign));
    lemma_mark_signs(template, 0);
    match marks_from(template, 0) {
        Some(marks) => {
            if can_go_on(marks) {
                let path = choose|path: Seq<int>| is_circle(marks, path);
                let n = path[0];
                assert(is_nested(marks, n));
                assert(is_inclusion(marks[n]));
                let open = open_before(marks, n);
                assert(open =~= open.take(open.len() as int));
                lemma_innermost_is_part(marks, n, open);
            }
        },
        None => {
            if inclusion_between(template) {
                let (i, j, k) = choose|i: int, j: int, k: int|
                    #![trigger opens_inline(template, i), includes_part(template, j), ends_inline(template, k)]
                    i < j < k && opens_inline(template, i) && includes_part(template, j)
                        && ends_inline(template, k);
                assert(twice(template, i, '{') && twice(template, j, '{'));
            }
        },
    }
}

proof fn lemma_lead_within(s: Seq<char>, i: int)
    requires
        0 <= i <= s.len(),
    ensures
        i <= lead_end(s, i) <= s.len(),
        forall|j: int| i <= j < lead_end(s, i) ==> is_lead(#[trigger] s[j]),
    decreases s.len() - i,
{
    if i < s.len() && is_lead(s[i]) {
        lemma_lead_within(s, i + 1);
    }
}

/// What is around a mark is a part that was begun before it.
proof fn lemma_open_are_parts(marks: Seq<Mark<Seq<char>>>, n: int, k: int)
    requires
        0 <= n <= marks.len(),
        0 <= k < open_before(marks, n).len(),
    ensures
        open_before(marks, n)[k] matches Some(p) ==> 0 <= p < n && marks[p] is Part,
    decreases n,
{
    if n > 0 {
        let before = open_before(marks, n - 1);
        if k < before.len() {
            lemma_open_are_parts(marks, n - 1, k);
        }
    }
}

proof fn lemma_innermost_is_part(marks: Seq<Mark<Seq<char>>>, n: int, open: Seq<Option<int>>)
    requires
        0 <= n <= marks.len(),
        open.len() <= open_before(marks, n).len(),
        open == open_before(marks, n).take(open.len() as int),
    ensures
        innermost(open) matches Some(p) ==> 0 <= p < n && marks[p] is Part,
    decreases open.len(),
{
    if open.len() > 0 {
        lemma_open_are_parts(marks, n, open.len() - 1);
        assert(open.drop_last() =~= open_before(marks, n).take(open.len() - 1));
        lemma_innermost_is_part(marks, n, open.drop_last());
    }
}

/// A part stays open from the tag that begins it to the one that ends it, as does every other block;
/// an inclusion opens nothing by itself.
pub proof fn lemma_open_blocks(marks: Seq<Mark<Seq<char>>>, n: int)
    requires
        0 <= n < marks.len(),
    ensures
        open_before(marks, 0) == Seq::<Option<int>>::empty(),
        match marks[n] {
            Mark::Part(_) => open_before(marks, n + 1) == open_before(marks, n).push(Some(n)),
            Mark::Block => open_before(marks, n + 1) == open_before(marks, n).push(None),
            Mark::InclusionBlock(_) => open_before(marks, n + 1) == open_before(marks, n).push(None),
            Mark::Inclusion(_) => open_before(marks, n + 1) == open_before(marks, n),
            Mark::End => open_before(marks, n).len() > 0 ==> open_before(marks, n + 1)
                == open_before(marks, n).drop_last(),
        },
{
}

/// A mark stands inside the innermost of the parts that are open before it.
pub proof fn lemma_innermost_part(marks: Seq<Mark<Seq<char>>>, n: int, open: Seq<Option<int>>, p: int)
    ensures
        part_around(marks, n) == innermost(open_before(marks, n)),
        innermost(Seq::<Option<int>>::empty()) is None,
        innermost(open.push(Some(p))) == Some(p),
        innermost(open.push(None)) == innermost(open),
{
    assert(open.push(None).drop_last() == open);
}

/// An inclusion inside a part leads to another one if that stands inside a part of the name under
/// which the first includes one.
pub proof fn lemma_led_by_name(
    marks: Seq<Mark<Seq<char>>>,
    n: int,
    m: int,
    wanted: Seq<char>,
    name: Seq<char>,
)
    requires
        marks[n] == Mark::Inclusion(Some(wanted)) || marks[n] == Mark::InclusionBlock(Some(wanted)),
    ensures
        part_around(marks, m) matches Some(part) ==> (marks[part] == Mark::Part(Some(name)) ==> (
        leads_to(marks, n, m) <==> wanted == name)),
        part_around(marks, m) is None ==> !leads_to(marks, n, m),
        0 <= n < marks.len() ==> (is_nested(marks, n) <==> part_around(marks, n) is Some),
{
}

/// A template whose tags can be told apart is refused only if an inclusion inside a part can lead
/// back to itself, through others inside parts.
pub proof fn lemma_refused_for_a_circle(template: Seq<char>)
    ensures
        marks_from(template, 0) matches Some(marks) ==> (may_not_end(template) <==> exists|
            path: Seq<int>,
        |
            {
                &&& path.len() > 0
                &&& forall|i: int| 0 <= i < path.len() ==> is_nested(marks, #[trigger] path[i])
                &&& forall|i: int, j: int|
                    0 <= i && j == i + 1 && j < path.len() ==> leads_to(
                        marks,
                        #[trigger] path[i],
                        #[trigger] path[j],
                    )
                &&& leads_to(marks, path[path.len() - 1], path[0])
            }),
{
    if let Some(marks) = marks_from(template, 0) {
        if may_not_end(template) {
            let path = choose|path: Seq<int>| is_circle(marks, path);
            assert(path.last() == path[path.len() - 1]);
        }
        if exists|path: Seq<int>|
            {
                &&& path.len() > 0
                &&& forall|i: int| 0 <= i < path.len() ==> is_nested(marks, #[trigger] path[i])
                &&& forall|i: int, j: int|
                    0 <= i && j == i + 1 && j < path.len() ==> leads_to(
                        marks,
                        #[trigger] path[i],
                        #[trigger] path[j],
                    )
                &&& leads_to(marks, path[path.len() - 1], path[0])
            } {
            let path = choose|path: Seq<int>|
                {
                    &&& path.len() > 0
                    &&& forall|i: int| 0 <= i < path.len() ==> is_nested(marks, #[trigger] path[i])
                    &&& forall|i: int, j: int|
                        0 <= i && j == i + 1 && j < path.len() ==> leads_to(
                            marks,
                            #[trigger] path[i],
                            #[trigger] path[j],
                        )
                    &&& leads_to(marks, path[path.len() - 1], path[0])
                };
            assert(is_circle(marks, path));
        }
    }
}

} // verus!
