//! The planets a new game can start on, in the order they are offered: the
//! most habitable first, and by id among planets equally habitable.
use vstd::prelude::*;

use crate::defs::PlanetHabitability;
use crate::savefile::{lemma_text_lt_irreflexive, lemma_text_lt_total, lemma_text_lt_transitive, spec_text_lt, text_lt};

verus! {

/// A planet to start on: its id and how habitable it is.
#[derive(Clone, Debug)]
pub struct StartPlanet {
    pub id: String,
    pub habitability: PlanetHabitability,
}

pub open spec fn spec_habitability_rank(h: PlanetHabitability) -> int {
    match h {
        PlanetHabitability::Ideal => 0,
        PlanetHabitability::Adequate => 1,
        PlanetHabitability::Poor => 2,
        PlanetHabitability::Hostile => 3,
    }
}

/// `a` is offered before `b`: it is more habitable, or as habitable with an
/// id that comes first.
pub open spec fn spec_offered_before(a: StartPlanet, b: StartPlanet) -> bool {
    spec_habitability_rank(a.habitability) < spec_habitability_rank(b.habitability) || (spec_habitability_rank(
        a.habitability,
    ) == spec_habitability_rank(b.habitability) && spec_text_lt(a.id@, b.id@))
}

/// No planet of the list is offered before one that comes earlier in it.
pub open spec fn spec_in_offer_order(s: Seq<StartPlanet>) -> bool {
    forall|i: int, j: int| 0 <= i < j < s.len() ==> !spec_offered_before(#[trigger] s[j], #[trigger] s[i])
}

fn habitability_rank(h: PlanetHabitability) -> (r: u8)
    ensures
        r as int == spec_habitability_rank(h),
{
    match h {
        PlanetHabitability::Ideal => 0,
        PlanetHabitability::Adequate => 1,
        PlanetHabitability::Poor => 2,
        PlanetHabitability::Hostile => 3,
    }
}

fn offered_before(a: &StartPlanet, b: &StartPlanet) -> (r: bool)
    ensures
        r == spec_offered_before(*a, *b),
{
    let ra = habitability_rank(a.habitability);
    let rb = habitability_rank(b.habitability);
    ra < rb || (ra == rb && text_lt(a.id.as_str(), b.id.as_str()))
}

proof fn lemma_offered_before_order(a: StartPlanet, b: StartPlanet, c: StartPlanet)
    ensures
        !spec_offered_before(a, a),
        spec_offered_before(a, b) && spec_offered_before(b, c) ==> spec_offered_before(a, c),
{
    lemma_text_lt_irreflexive(a.id@);
    if spec_text_lt(a.id@, b.id@) && spec_text_lt(b.id@, c.id@) {
        lemma_text_lt_transitive(a.id@, b.id@, c.id@);
    }
    lemma_text_lt_total(a.id@, b.id@);
    lemma_text_lt_total(b.id@, c.id@);
    lemma_text_lt_total(a.id@, c.id@);
    if spec_text_lt(c.id@, a.id@) && spec_text_lt(a.id@, b.id@) {
        lemma_text_lt_transitive(c.id@, a.id@, b.id@);
    }
    if spec_text_lt(b.id@, c.id@) && spec_text_lt(c.id@, a.id@) {
        lemma_text_lt_transitive(b.id@, c.id@, a.id@);
    }
}

/// The planets with the same habitability and id as `k`.
pub open spec fn spec_same_key(k: StartPlanet) -> spec_fn(StartPlanet) -> bool {
    |p: StartPlanet| spec_habitability_rank(p.habitability) == spec_habitability_rank(k.habitability) && p.id@ == k.id@
}

/// Puts the planets in the order they are offered: the most habitable first,
/// and by id among planets equally habitable. The result holds the same
/// planets, and planets with the same habitability and id keep their order.
///
/// The original sorts on a difficulty field that its start planets do not
/// have; their habitability is the ordered field that stands for it here.
pub fn sort_start_planets(planets: Vec<StartPlanet>) -> (r: Vec<StartPlanet>)
    ensures
        spec_in_offer_order(r@),
        r@.to_multiset() == planets@.to_multiset(),
        forall|k: StartPlanet| #[trigger] r@.filter(spec_same_key(k)) == planets@.filter(spec_same_key(k)),
{
    let ghost orig = planets@;
    let mut rest = planets;
    let mut result: Vec<StartPlanet> = Vec::new();
    let ghost mut done: int = 0;
    assert(orig.take(0) =~= Seq::<StartPlanet>::empty());
    while rest.len() > 0
        invariant
            0 <= done <= orig.len(),
            rest@ == orig.skip(done),
            spec_in_offer_order(result@),
            result@.to_multiset() == orig.take(done).to_multiset(),
            forall|k: StartPlanet| #[trigger] result@.filter(spec_same_key(k)) == orig.take(done).filter(spec_same_key(k)),
        decreases rest.len(),
    {
        let x = rest.remove(0);
        let mut j: usize = 0;
        while j < result.len() && !offered_before(&x, &result[j])
            invariant
                0 <= j <= result.len(),
                forall|k: int| 0 <= k < j ==> !spec_offered_before(x, #[trigger] result@[k]),
            decreases result.len() - j,
        {
            j += 1;
        }
        let ghost before = result@;
        proof {
            assert(orig.skip(done)[0] == x);
            assert(orig.take(done + 1) =~= orig.take(done).push(x));
        }
        result.insert(j, x);
        proof {
            assert(result@ =~= before.insert(j as int, x));
            vstd::seq_lib::to_multiset_insert(before, j as int, x);
            vstd::seq_lib::to_multiset_build(orig.take(done), x);
            assert forall|a: int, b: int| 0 <= a < b < result@.len() implies !spec_offered_before(
                #[trigger] result@[b],
                #[trigger] result@[a],
            ) by {
                if b < j {
                    assert(result@[a] == before[a] && result@[b] == before[b]);
                } else if a < j && b == j {
                } else if a < j && b > j {
                    assert(result@[a] == before[a] && result@[b] == before[b - 1]);
                } else if a == j {
                    let y = before[b - 1];
                    assert(result@[b] == y);
                    assert(spec_offered_before(x, before[j as int]));
                    if b - 1 > j {
                        assert(!spec_offered_before(y, before[j as int]));
                    }
                    lemma_offered_before_order(y, before[j as int], x);
                    lemma_offered_before_order(y, x, before[j as int]);
                    lemma_offered_before_order(x, before[j as int], y);
                } else {
                    assert(result@[a] == before[a - 1] && result@[b] == before[b - 1]);
                }
            }
            assert forall|k: StartPlanet| #[trigger] result@.filter(spec_same_key(k)) == orig.take(done + 1).filter(
                spec_same_key(k),
            ) by {
                let p = spec_same_key(k);
                let head = before.take(j as int);
                let tail = before.skip(j as int);
                assert(before =~= head + tail);
                assert(result@ =~= head + seq![x] + tail);
                Seq::filter_distributes_over_add(head, tail, p);
                Seq::filter_distributes_over_add(head + seq![x], tail, p);
                Seq::filter_distributes_over_add(head, seq![x], p);
                assert(seq![x] =~= Seq::<StartPlanet>::empty().push(x));
                Seq::<StartPlanet>::empty().lemma_filter_push(x, p);
                assert(Seq::<StartPlanet>::empty().filter(p) =~= Seq::<StartPlanet>::empty()) by {
                    reveal(Seq::filter);
                }
                orig.take(done).lemma_filter_push(x, p);
                if p(x) {
                    assert(tail.filter(p) =~= Seq::<StartPlanet>::empty()) by {
                        assert forall|m: int| 0 <= m < tail.len() implies !p(#[trigger] tail[m]) by {
                            let y = tail[m];
                            assert(y == before[j + m]);
                            if p(y) {
                                assert(spec_offered_before(x, before[j as int]));
                                assert(spec_offered_before(y, before[j as int]));
                                if m > 0 {
                                    assert(!spec_offered_before(before[j + m], before[j as int]));
                                } else {
                                    lemma_offered_before_order(y, y, y);
                                }
                            }
                        }
                        let f = tail.filter(p);
                        if f.len() > 0 {
                            assert(f.contains(f[0]));
                            tail.lemma_filter_contains_rev(p, f[0]);
                            tail.filter_lemma(p);
                            assert(p(f[0]));
                            let m = choose|m: int| 0 <= m < tail.len() && tail[m] == f[0];
                            assert(!p(tail[m]));
                        }
                    }
                }
            }
            done = done + 1;
            assert(rest@ =~= orig.skip(done));
        }
    }
    assert(orig.take(done) =~= orig);
    result
}

/// Habitability comes in the declared order Ideal, Adequate, Poor, Hostile.
pub open spec fn spec_more_habitable(a: PlanetHabitability, b: PlanetHabitability) -> bool {
    ||| a is Ideal && !(b is Ideal)
    ||| a is Adequate && (b is Poor || b is Hostile)
    ||| a is Poor && b is Hostile
}

/// A more habitable planet is offered before a less habitable one, whatever
/// their ids; planets equally habitable are offered in the order of their ids.
pub proof fn law_offer_order_follows_habitability(a: StartPlanet, b: StartPlanet)
    ensures
        spec_more_habitable(a.habitability, b.habitability) ==> spec_offered_before(a, b) && !spec_offered_before(b, a),
        a.habitability == b.habitability ==> (spec_offered_before(a, b) == spec_text_lt(a.id@, b.id@)),
{
}

/// In the order offered, no planet comes after a less habitable one.
pub proof fn law_sorted_by_habitability(s: Seq<StartPlanet>)
    requires
        spec_in_offer_order(s),
    ensures
        forall|i: int, j: int|
            0 <= i < j < s.len() ==> !spec_more_habitable(#[trigger] s[j].habitability, #[trigger] s[i].habitability),
{
    assert forall|i: int, j: int| 0 <= i < j < s.len() implies !spec_more_habitable(
        #[trigger] s[j].habitability,
        #[trigger] s[i].habitability,
    ) by {
        law_offer_order_follows_habitability(s[j], s[i]);
    }
}

} // verus!
