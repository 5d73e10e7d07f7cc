//! Candidate hits of a ray on a primitive, their order by distance, and the
//! choice of the hit that is seen.

use crate::material::Material;
use crate::scalar::Scalar;
use crate::tuple::Vec4;
use vstd::prelude::*;

verus! {

/// A hit as plain values: the signed distance along the ray, the position,
/// the surface normal there, and the material of the primitive that was hit.
pub struct Hit {
    pub t: int,
    pub pos: Seq<int>,
    pub normal: Seq<int>,
    pub material: Material,
}

#[derive(Copy, Clone, Debug)]
pub struct Intersection<'a> {
    pub t: Scalar,
    pub pos: Vec4,
    pub normalv: Vec4,
    pub material: &'a Material,
}

impl<'a> View for Intersection<'a> {
    type V = Hit;

    open spec fn view(&self) -> Hit {
        Hit { t: self.t@, pos: self.pos@, normal: self.normalv@, material: *self.material }
    }
}

/// The hits that a sequence of intersections stands for.
pub open spec fn hits_view(s: Seq<Intersection<'_>>) -> Seq<Hit> {
    Seq::new(s.len(), |i: int| s[i]@)
}

pub open spec fn option_hit_view(o: Option<Intersection<'_>>) -> Option<Hit> {
    match o {
        Some(i) => Some(i@),
        None => None,
    }
}

/// `h` put into the ordered sequence `sorted`, behind every hit that is not
/// farther than it.
pub open spec fn insert_hit(sorted: Seq<Hit>, h: Hit) -> Seq<Hit>
    decreases sorted.len(),
{
    if sorted.len() == 0 {
        seq![h]
    } else if sorted.last().t <= h.t {
        sorted.push(h)
    } else {
        insert_hit(sorted.drop_last(), h).push(sorted.last())
    }
}

/// The hits of `s` in ascending order of distance; hits at the same distance
/// keep the order they have in `s`.
pub open spec fn sorted_by_distance(s: Seq<Hit>) -> Seq<Hit>
    decreases s.len(),
{
    if s.len() == 0 {
        Seq::empty()
    } else {
        insert_hit(sorted_by_distance(s.drop_last()), s.last())
    }
}

/// No hit of `s` is nearer than one before it.
pub open spec fn is_ascending(s: Seq<Hit>) -> bool {
    forall|i: int, j: int| 0 <= i <= j < s.len() ==> s[i].t <= s[j].t
}

/// `i` is the place of the first hit of `s` with a positive distance.
pub open spec fn is_frontmost(s: Seq<Hit>, i: int) -> bool {
    &&& 0 <= i < s.len()
    &&& s[i].t > 0
    &&& forall|j: int| 0 <= j < i ==> s[j].t <= 0
}

/// The first hit of `s` with a positive distance, if there is one.
pub open spec fn frontmost(s: Seq<Hit>) -> Option<Hit> {
    if exists|i: int| is_frontmost(s, i) {
        Some(s[choose|i: int| is_frontmost(s, i)])
    } else {
        None
    }
}

/// Where `h` goes: behind the last hit that is not farther than it.
pub proof fn lemma_insert_hit_at(s: Seq<Hit>, h: Hit, j: int)
    requires
        0 <= j <= s.len(),
        forall|k: int| j <= k < s.len() ==> s[k].t > h.t,
        j == 0 || s[j - 1].t <= h.t,
    ensures
        insert_hit(s, h) == s.insert(j, h),
    decreases s.len(),
{
    if s.len() == 0 {
        assert(insert_hit(s, h) =~= s.insert(j, h));
    } else if s.last().t <= h.t {
        assert(j == s.len());
        assert(insert_hit(s, h) =~= s.insert(j, h));
    } else {
        assert(j < s.len());
        lemma_insert_hit_at(s.drop_last(), h, j);
        assert(s.drop_last().insert(j, h).push(s.last()) =~= s.insert(j, h));
    }
}

/// Inserting keeps an ascending sequence ascending, adds one hit and loses none.
pub proof fn lemma_insert_hit_ascending(s: Seq<Hit>, h: Hit)
    requires
        is_ascending(s),
    ensures
        is_ascending(insert_hit(s, h)),
        insert_hit(s, h).len() == s.len() + 1,
        insert_hit(s, h).to_multiset() == s.to_multiset().insert(h),
    decreases s.len(),
{
    broadcast use vstd::seq_lib::group_to_multiset_ensures;

    if s.len() == 0 {
        assert(s =~= Seq::empty());
        assert(seq![h] =~= Seq::<Hit>::empty().push(h));
    } else if s.last().t <= h.t {
    } else {
        let front = s.drop_last();
        assert(is_ascending(front));
        lemma_insert_hit_ascending(front, h);
        let r = insert_hit(front, h);
        let out = r.push(s.last());
        assert(s =~= front.push(s.last()));
        assert forall|i: int, j: int| 0 <= i <= j < out.len() implies out[i].t <= out[j].t by {
            if j == out.len() - 1 && i < j {
                assert(r.to_multiset().count(r[i]) > 0);
                if r[i] != h {
                    assert(front.to_multiset().count(r[i]) > 0);
                    assert(front.contains(r[i]));
                    let k = choose|k: int| 0 <= k < front.len() && front[k] == r[i];
                    assert(s[k].t <= s[s.len() - 1].t);
                }
            }
        }
    }
}

/// The ordered hits are ascending and are the given hits, each as often as given.
pub proof fn lemma_sorted_by_distance(s: Seq<Hit>)
    ensures
        is_ascending(sorted_by_distance(s)),
        sorted_by_distance(s).len() == s.len(),
        sorted_by_distance(s).to_multiset() == s.to_multiset(),
    decreases s.len(),
{
    broadcast use vstd::seq_lib::group_to_multiset_ensures;

    if s.len() == 0 {
        assert(s =~= Seq::empty());
    } else {
        lemma_sorted_by_distance(s.drop_last());
        lemma_insert_hit_ascending(sorted_by_distance(s.drop_last()), s.last());
        assert(s =~= s.drop_last().push(s.last()));
    }
}

/// The test "is at the distance `t`".
pub open spec fn at_distance(t: int) -> spec_fn(Hit) -> bool {
    |h: Hit| h.t == t
}

/// Inserting `h` puts it behind the hits at its own distance and leaves the
/// hits at every other distance as they were.
pub proof fn lemma_insert_hit_keeps_equals(s: Seq<Hit>, h: Hit, t: int)
    ensures
        insert_hit(s, h).filter(at_distance(t)) == (if h.t == t {
            s.filter(at_distance(t)).push(h)
        } else {
            s.filter(at_distance(t))
        }),
    decreases s.len(),
{
    reveal(Seq::filter);
    let p = at_distance(t);
    if s.len() == 0 {
        assert(seq![h].drop_last() =~= s);
        assert(s.filter(p) =~= Seq::empty());
    } else if s.last().t <= h.t {
        assert(s.push(h).drop_last() =~= s);
    } else {
        let front = s.drop_last();
        lemma_insert_hit_keeps_equals(front, h, t);
        let r = insert_hit(front, h);
        assert(r.push(s.last()).drop_last() =~= r);
    }
}

/// Ordering is stable: the hits at any one distance keep the order in which
/// they were given.
pub proof fn lemma_sorted_keeps_equals(s: Seq<Hit>, t: int)
    ensures
        sorted_by_distance(s).filter(at_distance(t)) == s.filter(at_distance(t)),
    decreases s.len(),
{
    reveal(Seq::filter);
    if s.len() == 0 {
    } else {
        lemma_sorted_keeps_equals(s.drop_last(), t);
        lemma_insert_hit_keeps_equals(sorted_by_distance(s.drop_last()), s.last(), t);
    }
}

/// The frontmost of the ordered hits is a nearest of the given hits in
/// front: there is none exactly where no given hit has a positive distance,
/// and no given hit with a positive distance is nearer than it.
pub proof fn lemma_frontmost_is_nearest(s: Seq<Hit>)
    ensures
        frontmost(sorted_by_distance(s)) is None <==> (forall|i: int|
            0 <= i < s.len() ==> (#[trigger] s[i]).t <= 0),
        frontmost(sorted_by_distance(s)) matches Some(h) ==> {
            &&& s.contains(h)
            &&& h.t > 0
            &&& forall|i: int| 0 <= i < s.len() && (#[trigger] s[i]).t > 0 ==> h.t <= s[i].t
        },
{
    broadcast use vstd::seq_lib::group_to_multiset_ensures;

    let sorted = sorted_by_distance(s);
    lemma_sorted_by_distance(s);
    // every given hit is among the ordered ones, and the other way round
    assert forall|i: int| 0 <= i < s.len() implies sorted.contains(#[trigger] s[i]) by {
        assert(s.to_multiset().count(s[i]) > 0);
        assert(sorted.to_multiset().count(s[i]) > 0);
    }
    assert forall|j: int| 0 <= j < sorted.len() implies s.contains(#[trigger] sorted[j]) by {
        assert(sorted.to_multiset().count(sorted[j]) > 0);
        assert(s.to_multiset().count(sorted[j]) > 0);
    }
    if exists|k: int| is_frontmost(sorted, k) {
        let k = choose|k: int| is_frontmost(sorted, k);
        let h = sorted[k];
        assert(s.contains(h));
        let w = choose|w: int| 0 <= w < s.len() && s[w] == h;
        assert(s[w].t > 0);
        assert forall|i: int| 0 <= i < s.len() && (#[trigger] s[i]).t > 0 implies h.t
            <= s[i].t by {
            assert(sorted.contains(s[i]));
            let j = choose|j: int| 0 <= j < sorted.len() && sorted[j] == s[i];
            if j < k {
                assert(sorted[j].t <= 0);
            }
        }
    } else {
        assert forall|i: int| 0 <= i < s.len() implies (#[trigger] s[i]).t <= 0 by {
            assert(sorted.contains(s[i]));
            let j = choose|j: int| 0 <= j < sorted.len() && sorted[j] == s[i];
            if sorted[j].t > 0 {
                lemma_first_positive_exists(sorted, j);
            }
        }
    }
}

/// Where some hit has a positive distance, there is a first such hit.
proof fn lemma_first_positive_exists(s: Seq<Hit>, j: int)
    requires
        0 <= j < s.len(),
        s[j].t > 0,
    ensures
        exists|k: int| is_frontmost(s, k),
    decreases j,
{
    if forall|i: int| 0 <= i < j ==> s[i].t <= 0 {
        assert(is_frontmost(s, j));
    } else {
        let i = choose|i: int| 0 <= i < j && s[i].t > 0;
        lemma_first_positive_exists(s, i);
    }
}

/// At most one place is the frontmost one.
pub proof fn lemma_frontmost_is(s: Seq<Hit>, i: int)
    requires
        is_frontmost(s, i),
    ensures
        frontmost(s) == Some(s[i]),
{
    let k = choose|k: int| is_frontmost(s, k);
    if k < i {
        assert(s[k].t <= 0);
    } else if i < k {
        assert(s[i].t <= 0);
    }
}

impl<'a> Intersection<'a> {
    pub fn new(t: Scalar, pos: Vec4, normalv: Vec4, material: &'a Material) -> (r: Self)
        ensures
            r.t == t,
            r.pos == pos,
            r.normalv == normalv,
            r.material == material,
            r@ == (Hit { t: t@, pos: pos@, normal: normalv@, material: *material }),
    {
        Self { t, pos, normalv, material }
    }
}

fn insert_by_distance<'a>(out: &mut Vec<Intersection<'a>>, h: Intersection<'a>)
    ensures
        hits_view(final(out)@) == insert_hit(hits_view(old(out)@), h@),
{
    let mut j: usize = out.len();
    while j > 0 && out[j - 1].t.raw > h.t.raw
        invariant
            j <= out.len(),
            *out == *old(out),
            forall|k: int| j <= k < out.len() ==> out@[k].t@ > h.t@,
        decreases j,
    {
        j = j - 1;
    }
    proof {
        lemma_insert_hit_at(hits_view(out@), h@, j as int);
    }
    out.insert(j, h);
    assert(hits_view(out@) =~= hits_view(old(out)@).insert(j as int, h@));
}

/// Orders intersections by ascending distance, keeping the given order among
/// equal distances.
pub fn sort_by_distance<'a>(v: Vec<Intersection<'a>>) -> (r: Vec<Intersection<'a>>)
    ensures
        hits_view(r@) == sorted_by_distance(hits_view(v@)),
        is_ascending(hits_view(r@)),
        r@.len() == v@.len(),
        hits_view(r@).to_multiset() == hits_view(v@).to_multiset(),
        forall|t: int|
            hits_view(r@).filter(#[trigger] at_distance(t)) == hits_view(v@).filter(at_distance(t)),
{
    let mut out: Vec<Intersection<'a>> = Vec::new();
    let mut i: usize = 0;
    assert(hits_view(v@).take(0) =~= Seq::empty());
    while i < v.len()
        invariant
            i <= v.len(),
            hits_view(out@) == sorted_by_distance(hits_view(v@).take(i as int)),
        decreases v.len() - i,
    {
        proof {
            let next = hits_view(v@).take(i + 1);
            assert(next.drop_last() =~= hits_view(v@).take(i as int));
            assert(next.last() == v@[i as int]@);
        }
        insert_by_distance(&mut out, v[i]);
        i = i + 1;
    }
    proof {
        assert(hits_view(v@).take(v@.len() as int) =~= hits_view(v@));
        lemma_sorted_by_distance(hits_view(v@));
        assert forall|t: int|
            hits_view(out@).filter(#[trigger] at_distance(t)) == hits_view(v@).filter(
                at_distance(t),
            ) by {
            lemma_sorted_keeps_equals(hits_view(v@), t);
        }
    }
    out
}

/// The first of the ordered intersections with a positive distance.
pub fn first_in_front<'a>(sorted: &Vec<Intersection<'a>>) -> (r: Option<Intersection<'a>>)
    ensures
        option_hit_view(r) == frontmost(hits_view(sorted@)),
{
    let mut i: usize = 0;
    while i < sorted.len()
        invariant
            i <= sorted.len(),
            forall|j: int| 0 <= j < i ==> hits_view(sorted@)[j].t <= 0,
        decreases sorted.len() - i,
    {
        if sorted[i].t.raw > 0 {
            proof {
                assert(is_frontmost(hits_view(sorted@), i as int));
                lemma_frontmost_is(hits_view(sorted@), i as int);
            }
            return Some(sorted[i]);
        }
        i = i + 1;
    }
    proof {
        let s = hits_view(sorted@);
        if exists|k: int| is_frontmost(s, k) {
            let k = choose|k: int| is_frontmost(s, k);
            assert(s[k].t <= 0);
        }
    }
    None
}

/// The nearest intersection in front of the ray's origin: the first with a
/// positive distance once the intersections are ordered by distance.
pub fn get_frontmost_intersection<'a>(intersections: Vec<Intersection<'a>>) -> (r: Option<
    Intersection<'a>,
>)
    ensures
        option_hit_view(r) == frontmost(sorted_by_distance(hits_view(intersections@))),
        r is None <==> (forall|i: int|
            0 <= i < intersections@.len() ==> (#[trigger] intersections@[i]).t@ <= 0),
        r matches Some(h) ==> {
            &&& hits_view(intersections@).contains(h@)
            &&& h.t@ > 0
            &&& forall|i: int|
                0 <= i < intersections@.len() && (#[trigger] intersections@[i]).t@ > 0 ==> h.t@
                    <= intersections@[i].t@
        },
{
    proof {
        lemma_frontmost_is_nearest(hits_view(intersections@));
        assert forall|i: int| 0 <= i < intersections@.len() implies (#[trigger] intersections@[i]).t@
            == hits_view(intersections@)[i].t by {}
    }
    let sorted = sort_by_distance(intersections);
    first_in_front(&sorted)
}

} // verus!
