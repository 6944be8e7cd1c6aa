//! What holds of every match: the laws of the matching engine, stated over
//! the model of the grid and proved from its definitions.

use crate::block::BlockKind;
use crate::grid::{
    all_matches, axes_matches, axis_matches, axis_run, distinct, in_grid, kind_at, matched,
    matches_around, qualifies, ray, room, Grid, Pos, Step,
};
use crate::pit::CardinalAxis;
use vstd::prelude::*;

verus! {

/// `p` is found from the seed `s`: the seed is not empty, `p` has its
/// colour, and on some axis the run through the seed is three cells long or
/// longer and holds `p`.
pub open spec fn found_from(g: Grid, s: Pos, p: Pos) -> bool {
    &&& kind_at(g, s) is Some
    &&& kind_at(g, p) == kind_at(g, s)
    &&& exists|axis: CardinalAxis|
        #![trigger qualifies(g, kind_at(g, s)->0, s, axis)]
        qualifies(g, kind_at(g, s)->0, s, axis) && (p == s || axis_run(
            g,
            kind_at(g, s)->0,
            s,
            axis,
        ).contains(p))
}

/// A list has no position twice.
pub open spec fn no_repeats(s: Seq<Pos>) -> bool {
    forall|i: int, j: int| 0 <= i < j < s.len() ==> s[i] != s[j]
}

/// An element of a concatenation is an element of one of its parts.
pub proof fn lemma_concat_contains(a: Seq<Pos>, b: Seq<Pos>, p: Pos)
    ensures
        (a + b).contains(p) <==> a.contains(p) || b.contains(p),
{
    let ab = a + b;
    if ab.contains(p) {
        let i = choose|i: int| 0 <= i < ab.len() && ab[i] == p;
        if i < a.len() {
            assert(a[i] == p);
        } else {
            assert(b[i - a.len()] == p);
        }
    }
    if a.contains(p) {
        let i = choose|i: int| 0 <= i < a.len() && a[i] == p;
        assert(ab[i] == p);
    }
    if b.contains(p) {
        let i = choose|i: int| 0 <= i < b.len() && b[i] == p;
        assert(ab[a.len() + i] == p);
    }
}

/// Every cell of a ray lies in the grid and has the colour asked for.
pub proof fn lemma_ray_kind(g: Grid, k: BlockKind, p: Pos, d: Step)
    ensures
        forall|c: Pos| #[trigger] ray(g, k, p, d).contains(c) ==> kind_at(g, c) == Some(k),
    decreases room(g, p, d),
{
    if d.moves() && kind_at(g, p.after(d)) == Some(k) {
        let next = p.after(d);
        lemma_ray_kind(g, k, next, d);
        assert forall|c: Pos| #[trigger] ray(g, k, p, d).contains(c) implies kind_at(g, c) == Some(
            k,
        ) by {
            lemma_concat_contains(seq![next], ray(g, k, next, d), c);
            if seq![next].contains(c) {
                assert(c == next);
            }
        }
    }
}

/// The shape of a ray: its cells are the neighbours of `p` one, two, three
/// steps away and so on without a gap, each of the colour asked for, and the
/// cell one step beyond the last is not of that colour.
pub proof fn lemma_ray_shape(g: Grid, k: BlockKind, p: Pos, d: Step)
    requires
        d.moves(),
    ensures
        forall|i: int|
            0 <= i < ray(g, k, p, d).len() ==> #[trigger] ray(g, k, p, d)[i] == p.far(d, i + 1),
        forall|n: int|
            1 <= n <= ray(g, k, p, d).len() ==> kind_at(g, #[trigger] p.far(d, n)) == Some(k),
        kind_at(g, p.far(d, ray(g, k, p, d).len() as int + 1)) != Some(k),
    decreases room(g, p, d),
{
    let next = p.after(d);
    let here = ray(g, k, p, d);
    assert(p.far(d, 1) == next) by (nonlinear_arith)
        requires
            next == p.after(d),
    ;
    if kind_at(g, next) == Some(k) {
        let rest = ray(g, k, next, d);
        lemma_ray_shape(g, k, next, d);
        assert forall|n: int| #![trigger p.far(d, n)] next.far(d, n - 1) == p.far(d, n) by {
            assert(next.x + (n - 1) * d.dx == p.x + n * d.dx && next.y + (n - 1) * d.dy == p.y + n
                * d.dy) by (nonlinear_arith)
                requires
                    next.x == p.x + d.dx,
                    next.y == p.y + d.dy,
            ;
        }
        assert forall|i: int| 0 <= i < here.len() implies #[trigger] here[i] == p.far(d, i + 1) by {
            if i > 0 {
                assert(here[i] == rest[i - 1]);
                assert(rest[i - 1] == next.far(d, i));
                assert(next.far(d, (i + 1) - 1) == p.far(d, i + 1));
            }
        }
        assert forall|n: int| 1 <= n <= here.len() implies kind_at(g, #[trigger] p.far(d, n))
            == Some(k) by {
            if n > 1 {
                assert(kind_at(g, next.far(d, n - 1)) == Some(k));
            }
        }
        assert(next.far(d, (here.len() as int + 1) - 1) == p.far(d, here.len() as int + 1));
    }
}

/// Every cell of the run along an axis has the colour asked for.
pub proof fn lemma_axis_run_kind(g: Grid, k: BlockKind, p: Pos, axis: CardinalAxis)
    ensures
        forall|c: Pos| #[trigger]
            axis_run(g, k, p, axis).contains(c) ==> kind_at(g, c) == Some(k),
{
    lemma_ray_kind(g, k, p, axis.ahead());
    lemma_ray_kind(g, k, p, axis.behind());
    assert forall|c: Pos| #[trigger] axis_run(g, k, p, axis).contains(c) implies kind_at(g, c)
        == Some(k) by {
        lemma_concat_contains(ray(g, k, p, axis.ahead()), ray(g, k, p, axis.behind()), c);
    }
}

/// A cell that the axes through a seed contribute lies on one axis that
/// qualifies.
pub proof fn lemma_axes_matches_axis(g: Grid, k: BlockKind, p: Pos, c: Pos) -> (axis: CardinalAxis)
    requires
        axes_matches(g, k, p).contains(c),
    ensures
        qualifies(g, k, p, axis),
        axis_run(g, k, p, axis).contains(c),
{
    let a = axis_matches(g, k, p, CardinalAxis::NxS);
    let b = axis_matches(g, k, p, CardinalAxis::ExW);
    let e = axis_matches(g, k, p, CardinalAxis::NExSW);
    let f = axis_matches(g, k, p, CardinalAxis::NWxSE);
    lemma_concat_contains(a + b + e, f, c);
    lemma_concat_contains(a + b, e, c);
    lemma_concat_contains(a, b, c);
    if a.contains(c) {
        CardinalAxis::NxS
    } else if b.contains(c) {
        CardinalAxis::ExW
    } else if e.contains(c) {
        CardinalAxis::NExSW
    } else {
        CardinalAxis::NWxSE
    }
}

/// Soundness of the match around one seed: every cell of it is found from
/// the seed.
pub proof fn lemma_matches_around_sound(g: Grid, s: Pos, p: Pos)
    requires
        matches_around(g, s).contains(p),
    ensures
        found_from(g, s, p),
{
    let k = kind_at(g, s)->0;
    let found = axes_matches(g, k, s);
    assert(kind_at(g, s) is Some);
    assert(found.len() > 0);
    if found.contains(p) {
        let axis = lemma_axes_matches_axis(g, k, s, p);
        lemma_axis_run_kind(g, k, s, axis);
        assert(qualifies(g, kind_at(g, s)->0, s, axis));
    } else {
        let i = choose|i: int| 0 <= i < found.push(s).len() && found.push(s)[i] == p;
        assert(i == found.len());
        assert(found.contains(found[0]));
        let axis = lemma_axes_matches_axis(g, k, s, found[0]);
        assert(qualifies(g, kind_at(g, s)->0, s, axis));
    }
}

/// The cells met from a list of seeds are those met from one of them.
pub proof fn lemma_all_matches_contains(g: Grid, seeds: Seq<Pos>, p: Pos)
    ensures
        all_matches(g, seeds).contains(p) <==> exists|i: int|
            0 <= i < seeds.len() && #[trigger] matches_around(g, seeds[i]).contains(p),
    decreases seeds.len(),
{
    if seeds.len() > 0 {
        let front = seeds.drop_last();
        lemma_all_matches_contains(g, front, p);
        lemma_concat_contains(all_matches(g, front), matches_around(g, seeds.last()), p);
        if all_matches(g, seeds).contains(p) {
            if all_matches(g, front).contains(p) {
                let i = choose|i: int|
                    0 <= i < front.len() && #[trigger] matches_around(g, front[i]).contains(p);
                assert(matches_around(g, seeds[i]).contains(p));
            } else {
                assert(matches_around(g, seeds[seeds.len() - 1]).contains(p));
            }
        }
        if exists|i: int|
            0 <= i < seeds.len() && #[trigger] matches_around(g, seeds[i]).contains(p) {
            let i = choose|i: int|
                0 <= i < seeds.len() && #[trigger] matches_around(g, seeds[i]).contains(p);
            if i < front.len() {
                assert(matches_around(g, front[i]).contains(p));
            }
        }
    }
}

/// Removing repetitions keeps every position, adds none, and leaves none
/// twice.
pub proof fn lemma_distinct(s: Seq<Pos>)
    ensures
        forall|p: Pos| #[trigger] distinct(s).contains(p) <==> s.contains(p),
        no_repeats(distinct(s)),
        distinct(s).len() <= s.len(),
    decreases s.len(),
{
    if s.len() > 0 {
        let front = s.drop_last();
        let last = s.last();
        let head = distinct(front);
        lemma_distinct(front);
        assert(s =~= front + seq![last]);
        assert forall|p: Pos| #[trigger] distinct(s).contains(p) <==> s.contains(p) by {
            lemma_concat_contains(front, seq![last], p);
            assert(seq![last].contains(p) <==> p == last) by {
                if p == last {
                    assert(seq![last][0] == p);
                }
            }
            if !head.contains(last) {
                assert(head.push(last) =~= head + seq![last]);
                lemma_concat_contains(head, seq![last], p);
            }
        }
        if !head.contains(last) {
            let out = head.push(last);
            assert forall|i: int, j: int| 0 <= i < j < out.len() implies out[i] != out[j] by {
                if j == head.len() {
                    assert(head.contains(head[i]));
                }
            }
        }
    }
}

/// Soundness of the matching engine: whatever it returns is found from one
/// of the seeds. So it is a cell that is not empty, of that seed's colour,
/// on a run of three or more through that seed.
pub proof fn lemma_matched_sound(g: Grid, seeds: Seq<Pos>, p: Pos) -> (i: int)
    requires
        matched(g, seeds).contains(p),
    ensures
        0 <= i < seeds.len(),
        found_from(g, seeds[i], p),
        kind_at(g, p) is Some,
        in_grid(g, p),
{
    lemma_distinct(all_matches(g, seeds));
    lemma_all_matches_contains(g, seeds, p);
    let i = choose|i: int|
        0 <= i < seeds.len() && #[trigger] matches_around(g, seeds[i]).contains(p);
    lemma_matches_around_sound(g, seeds[i], p);
    i
}

/// `q` lies on the straight line of colour `k` through `p` in direction `d`
/// or against it: it is `p` or a cell of one of the two rays.
pub open spec fn on_line(g: Grid, k: BlockKind, p: Pos, d: Step, q: Pos) -> bool {
    q == p || ray(g, k, p, d).contains(q) || ray(g, k, p, d.reversed()).contains(q)
}

/// The number of neighbours that continue the colour on both sides.
pub open spec fn line_len(g: Grid, k: BlockKind, p: Pos, d: Step) -> nat {
    ray(g, k, p, d).len() + ray(g, k, p, d.reversed()).len()
}

/// `q` lies on the run of colour `k` through `p` along the axis.
pub open spec fn on_run(g: Grid, k: BlockKind, p: Pos, axis: CardinalAxis, q: Pos) -> bool {
    q == p || axis_run(g, k, p, axis).contains(q)
}

/// A cell and its neighbour of the same colour lie on the same line, and
/// that line is as long seen from the one as from the other.
pub proof fn lemma_line_of_neighbour(g: Grid, k: BlockKind, p: Pos, d: Step)
    requires
        d.moves(),
        kind_at(g, p) == Some(k),
        kind_at(g, p.after(d)) == Some(k),
    ensures
        line_len(g, k, p.after(d), d) == line_len(g, k, p, d),
        forall|q: Pos| #[trigger] on_line(g, k, p.after(d), d, q) <==> on_line(g, k, p, d, q),
{
    let n = p.after(d);
    let e = d.reversed();
    assert(n.after(e) == p);
    assert(ray(g, k, p, d) == seq![n] + ray(g, k, n, d));
    assert(ray(g, k, n, e) == seq![p] + ray(g, k, p, e));
    assert forall|q: Pos| #[trigger] on_line(g, k, n, d, q) <==> on_line(g, k, p, d, q) by {
        lemma_concat_contains(seq![n], ray(g, k, n, d), q);
        lemma_concat_contains(seq![p], ray(g, k, p, e), q);
        assert(seq![n].contains(q) <==> q == n) by {
            if q == n {
                assert(seq![n][0] == q);
            }
        }
        assert(seq![p].contains(q) <==> q == p) by {
            if q == p {
                assert(seq![p][0] == q);
            }
        }
    }
}

/// A cell and any cell of a ray from it lie on the same line, and that line
/// is as long seen from the one as from the other.
pub proof fn lemma_line_of_ray_cell(g: Grid, k: BlockKind, p: Pos, d: Step, c: Pos)
    requires
        kind_at(g, p) == Some(k),
        ray(g, k, p, d).contains(c),
    ensures
        line_len(g, k, c, d) == line_len(g, k, p, d),
        forall|q: Pos| #[trigger] on_line(g, k, c, d, q) <==> on_line(g, k, p, d, q),
    decreases room(g, p, d),
{
    let n = p.after(d);
    assert(d.moves() && kind_at(g, n) == Some(k));
    lemma_line_of_neighbour(g, k, p, d);
    lemma_concat_contains(seq![n], ray(g, k, n, d), c);
    if ray(g, k, n, d).contains(c) {
        lemma_line_of_ray_cell(g, k, n, d, c);
        assert forall|q: Pos| #[trigger] on_line(g, k, c, d, q) <==> on_line(g, k, p, d, q) by {
            assert(on_line(g, k, c, d, q) <==> on_line(g, k, n, d, q));
            assert(on_line(g, k, n, d, q) <==> on_line(g, k, p, d, q));
        }
    } else {
        assert(seq![n].contains(c));
        assert(c == n);
    }
}

/// All cells of a run see the same run: if `c` lies on the run through `p`
/// along an axis, the run through `c` along that axis holds the same cells
/// and is as long.
pub proof fn lemma_same_run(g: Grid, k: BlockKind, p: Pos, axis: CardinalAxis, c: Pos)
    requires
        kind_at(g, p) == Some(k),
        on_run(g, k, p, axis, c),
    ensures
        kind_at(g, c) == Some(k),
        axis_run(g, k, c, axis).len() == axis_run(g, k, p, axis).len(),
        forall|q: Pos| #[trigger] on_run(g, k, c, axis, q) <==> on_run(g, k, p, axis, q),
{
    let d = axis.ahead();
    let e = axis.behind();
    assert(e.reversed() == d);
    lemma_axis_run_kind(g, k, p, axis);
    lemma_concat_contains(ray(g, k, p, d), ray(g, k, p, e), c);
    if c != p {
        if ray(g, k, p, d).contains(c) {
            lemma_line_of_ray_cell(g, k, p, d, c);
        } else {
            lemma_line_of_ray_cell(g, k, p, e, c);
        }
        assert forall|q: Pos| #[trigger] on_run(g, k, c, axis, q) <==> on_run(g, k, p, axis, q) by {
            lemma_concat_contains(ray(g, k, p, d), ray(g, k, p, e), q);
            lemma_concat_contains(ray(g, k, c, d), ray(g, k, c, e), q);
            if ray(g, k, p, d).contains(c) {
                assert(on_line(g, k, c, d, q) <==> on_line(g, k, p, d, q));
            } else {
                assert(on_line(g, k, c, e, q) <==> on_line(g, k, p, e, q));
            }
        }
    }
}

/// Completeness of the match around one seed: every cell of a qualifying
/// run through the seed is in it, the seed included.
pub proof fn lemma_matches_around_complete(g: Grid, s: Pos, axis: CardinalAxis, q: Pos)
    requires
        kind_at(g, s) is Some,
        qualifies(g, kind_at(g, s)->0, s, axis),
        on_run(g, kind_at(g, s)->0, s, axis, q),
    ensures
        matches_around(g, s).contains(q),
{
    let k = kind_at(g, s)->0;
    let a = axis_matches(g, k, s, CardinalAxis::NxS);
    let b = axis_matches(g, k, s, CardinalAxis::ExW);
    let e = axis_matches(g, k, s, CardinalAxis::NExSW);
    let f = axis_matches(g, k, s, CardinalAxis::NWxSE);
    let found = axes_matches(g, k, s);
    let run = axis_run(g, k, s, axis);
    assert(axis != CardinalAxis::Default) by {
        if axis == CardinalAxis::Default {
            assert(run =~= Seq::<Pos>::empty());
        }
    }
    assert(axis_matches(g, k, s, axis) == run);
    assert forall|c: Pos| run.contains(c) implies found.contains(c) by {
        lemma_concat_contains(a + b + e, f, c);
        lemma_concat_contains(a + b, e, c);
        lemma_concat_contains(a, b, c);
    }
    assert(run.contains(run[0]));
    assert(found.contains(run[0]));
    assert(found.len() > 0);
    assert(found.push(s) =~= found + seq![s]);
    lemma_concat_contains(found, seq![s], q);
    if q == s {
        assert(seq![s][0] == q);
    }
}

/// A seed's match is part of what the engine returns.
pub proof fn lemma_matched_complete(g: Grid, seeds: Seq<Pos>, i: int, q: Pos)
    requires
        0 <= i < seeds.len(),
        matches_around(g, seeds[i]).contains(q),
    ensures
        matched(g, seeds).contains(q),
{
    lemma_all_matches_contains(g, seeds, q);
    lemma_distinct(all_matches(g, seeds));
}

/// What the matching engine returns, as a set: exactly the cells that are
/// found from one of the seeds.
pub proof fn lemma_matched(g: Grid, seeds: Seq<Pos>, q: Pos)
    ensures
        matched(g, seeds).contains(q) <==> exists|i: int|
            0 <= i < seeds.len() && found_from(g, #[trigger] seeds[i], q),
{
    if matched(g, seeds).contains(q) {
        let i = lemma_matched_sound(g, seeds, q);
        assert(found_from(g, seeds[i], q));
    }
    if exists|i: int| 0 <= i < seeds.len() && found_from(g, #[trigger] seeds[i], q) {
        let i = choose|i: int| 0 <= i < seeds.len() && found_from(g, #[trigger] seeds[i], q);
        let s = seeds[i];
        let axis = choose|axis: CardinalAxis|
            #![trigger qualifies(g, kind_at(g, s)->0, s, axis)]
            qualifies(g, kind_at(g, s)->0, s, axis) && (q == s || axis_run(
                g,
                kind_at(g, s)->0,
                s,
                axis,
            ).contains(q));
        lemma_matches_around_complete(g, s, axis, q);
        lemma_matched_complete(g, seeds, i, q);
    }
}

/// Matching again keeps what was found: with the result of the engine as
/// seeds, the engine finds every cell of that result again.
pub proof fn lemma_rematch_keeps(g: Grid, seeds: Seq<Pos>, p: Pos)
    requires
        matched(g, seeds).contains(p),
    ensures
        matched(g, matched(g, seeds)).contains(p),
{
    let first = matched(g, seeds);
    let i = lemma_matched_sound(g, seeds, p);
    let s = seeds[i];
    let k = kind_at(g, s)->0;
    let axis = choose|axis: CardinalAxis|
        #![trigger qualifies(g, kind_at(g, s)->0, s, axis)]
        qualifies(g, k, s, axis) && (p == s || axis_run(g, k, s, axis).contains(p));
    lemma_same_run(g, k, s, axis, p);
    lemma_matches_around_complete(g, p, axis, p);
    let j = choose|j: int| 0 <= j < first.len() && first[j] == p;
    lemma_matched_complete(g, first, j, p);
}

/// The cells are closed under runs: with a cell they hold every cell of
/// every run of three or more through it.
pub open spec fn closed_under_runs(g: Grid, cells: Seq<Pos>) -> bool {
    forall|p: Pos, axis: CardinalAxis, q: Pos|
        #![trigger cells.contains(p), on_run(g, kind_at(g, p)->0, p, axis, q)]
        cells.contains(p) && kind_at(g, p) is Some && qualifies(g, kind_at(g, p)->0, p, axis)
            && on_run(g, kind_at(g, p)->0, p, axis, q) ==> cells.contains(q)
}

/// Matching again adds nothing, where the first result is closed under
/// runs: with the result of the engine as seeds, the engine finds only
/// cells of that result.
pub proof fn lemma_rematch_adds_nothing(g: Grid, seeds: Seq<Pos>, q: Pos)
    requires
        closed_under_runs(g, matched(g, seeds)),
        matched(g, matched(g, seeds)).contains(q),
    ensures
        matched(g, seeds).contains(q),
{
    let first = matched(g, seeds);
    let j = lemma_matched_sound(g, first, q);
    let p = first[j];
    assert(first.contains(p));
    let k = kind_at(g, p)->0;
    let axis = choose|axis: CardinalAxis|
        #![trigger qualifies(g, kind_at(g, p)->0, p, axis)]
        qualifies(g, k, p, axis) && (q == p || axis_run(g, k, p, axis).contains(q));
    assert(on_run(g, kind_at(g, p)->0, p, axis, q));
}

/// Matching again adds something, where the first result is not closed
/// under runs: a matched cell lies on a run that holds cells which were not
/// matched, and with that cell as a seed the engine finds them.
pub proof fn lemma_rematch_grows(g: Grid, seeds: Seq<Pos>) -> (q: Pos)
    requires
        !closed_under_runs(g, matched(g, seeds)),
    ensures
        matched(g, matched(g, seeds)).contains(q),
        !matched(g, seeds).contains(q),
{
    let first = matched(g, seeds);
    let (p, axis, q) = choose|p: Pos, axis: CardinalAxis, q: Pos|
        #![trigger first.contains(p), on_run(g, kind_at(g, p)->0, p, axis, q)]
        first.contains(p) && kind_at(g, p) is Some && qualifies(g, kind_at(g, p)->0, p, axis)
            && on_run(g, kind_at(g, p)->0, p, axis, q) && !first.contains(q);
    lemma_matches_around_complete(g, p, axis, q);
    let j = choose|j: int| 0 <= j < first.len() && first[j] == p;
    lemma_matched_complete(g, first, j, q);
    q
}

/// Every run of three or more that passes through a matched cell also
/// passes through a seed. This holds in play: before a piece lands or a
/// block falls the grid has no such run, so every new one holds one of the
/// cells that changed, and those are the seeds.
pub open spec fn runs_meet_seeds(g: Grid, seeds: Seq<Pos>) -> bool {
    forall|p: Pos, axis: CardinalAxis|
        #![trigger matched(g, seeds).contains(p), qualifies(g, kind_at(g, p)->0, p, axis)]
        matched(g, seeds).contains(p) && qualifies(g, kind_at(g, p)->0, p, axis) ==> exists|
            i: int,
        |
            0 <= i < seeds.len() && on_run(g, kind_at(g, p)->0, p, axis, #[trigger] seeds[i])
}

/// Where every run through a matched cell passes through a seed, the result
/// of the engine is closed under runs.
pub proof fn lemma_runs_meet_seeds(g: Grid, seeds: Seq<Pos>)
    requires
        runs_meet_seeds(g, seeds),
    ensures
        closed_under_runs(g, matched(g, seeds)),
{
    let first = matched(g, seeds);
    assert forall|p: Pos, axis: CardinalAxis, q: Pos|
        #![trigger first.contains(p), on_run(g, kind_at(g, p)->0, p, axis, q)]
        first.contains(p) && kind_at(g, p) is Some && qualifies(g, kind_at(g, p)->0, p, axis)
            && on_run(g, kind_at(g, p)->0, p, axis, q) implies first.contains(q) by {
        let k = kind_at(g, p)->0;
        assert(matched(g, seeds).contains(p) && qualifies(g, kind_at(g, p)->0, p, axis));
        let i = choose|i: int|
            0 <= i < seeds.len() && on_run(g, kind_at(g, p)->0, p, axis, #[trigger] seeds[i]);
        let s = seeds[i];
        lemma_same_run(g, k, p, axis, s);
        assert(on_run(g, k, s, axis, q));
        lemma_matches_around_complete(g, s, axis, q);
        lemma_matched_complete(g, seeds, i, q);
    }
}

} // verus!
