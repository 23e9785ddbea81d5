use vstd::prelude::*;

verus! {

/// The value from which the bit pattern of a negative float starts.
pub const SIGN_BIT: u64 = 0x8000_0000_0000_0000;

/// The order key of the IEEE-754 double whose bits are `bits`: positive
/// values keep their bits, negative ones map below zero in reversed
/// magnitude order, so that comparing keys compares the doubles.
/// Negative zero maps to -1: callers normalise it to positive zero first.
pub open spec fn key_of(bits: u64) -> int {
    if bits < SIGN_BIT {
        bits as int
    } else {
        -((bits - SIGN_BIT) as int) - 1
    }
}

/// The order key of a ray parameter `t`, given as its bit pattern.
pub fn time_key(bits: u64) -> (r: i64)
    ensures
        r as int == key_of(bits),
{
    if bits < SIGN_BIT {
        bits as i64
    } else {
        let magnitude: i64 = (bits - SIGN_BIT) as i64;
        -magnitude - 1
    }
}

/// A ray parameter (as its order key) and the shape it meets there, named by
/// its index in the scene.
#[derive(Clone, Copy, Debug, PartialEq, Eq, Structural)]
pub struct Intersection {
    pub key: i64,
    pub object: usize,
}

/// `i` is the hit of `xs`: the first intersection with the smallest
/// non-negative parameter.
pub open spec fn is_hit(xs: Seq<Intersection>, i: int) -> bool {
    &&& 0 <= i < xs.len()
    &&& xs[i].key >= 0
    &&& forall|k: int| 0 <= k < xs.len() && xs[k].key >= 0 ==> xs[i].key <= xs[k].key
    &&& forall|k: int| 0 <= k < i && xs[k].key >= 0 ==> xs[i].key < xs[k].key
}

/// No intersection of `xs` lies in front of the ray origin.
pub open spec fn all_behind(xs: Seq<Intersection>) -> bool {
    forall|k: int| 0 <= k < xs.len() ==> xs[k].key < 0
}

/// The media a ray is inside of after crossing `objs[0..k]`: crossing a
/// shape's surface enters it when it is not in the list and leaves it when
/// it is.
pub open spec fn media_after(objs: Seq<usize>, k: int) -> Seq<usize>
    decreases k,
{
    if k <= 0 {
        Seq::empty()
    } else {
        toggle(media_after(objs, k - 1), objs[k - 1])
    }
}

/// `c` with `o` removed if it holds it, or appended if it does not.
pub open spec fn toggle(c: Seq<usize>, o: usize) -> Seq<usize> {
    if c.contains(o) {
        without(c, o)
    } else {
        c.push(o)
    }
}

/// `c` with every occurrence of `o` removed, order kept.
pub open spec fn without(c: Seq<usize>, o: usize) -> Seq<usize>
    decreases c.len(),
{
    if c.len() == 0 {
        c
    } else if c.last() == o {
        without(c.drop_last(), o)
    } else {
        without(c.drop_last(), o).push(c.last())
    }
}

proof fn lemma_without_contents(c: Seq<usize>, o: usize)
    ensures
        forall|x: usize| #[trigger] without(c, o).contains(x) <==> (c.contains(x) && x != o),
        c.no_duplicates() ==> without(c, o).no_duplicates(),
    decreases c.len(),
{
    if c.len() > 0 {
        let rest = c.drop_last();
        lemma_without_contents(rest, o);
        assert(c == rest.push(c.last()));
        assert forall|x: usize| #[trigger] c.contains(x) <==> (rest.contains(x) || x == c.last()) by {
            if c.contains(x) {
                let j = choose|j: int| 0 <= j < c.len() && c[j] == x;
                if j < c.len() - 1 {
                    assert(rest[j] == x);
                }
            }
            if rest.contains(x) {
                let j = choose|j: int| 0 <= j < rest.len() && rest[j] == x;
                assert(c[j] == x);
            }
            if x == c.last() {
                assert(c[c.len() - 1] == x);
            }
        }
        if c.no_duplicates() {
            assert(rest.no_duplicates()) by {
                assert forall|i: int, j: int| 0 <= i < rest.len() && 0 <= j < rest.len() && i != j implies rest[i]
                    != rest[j] by {
                    assert(rest[i] == c[i] && rest[j] == c[j]);
                }
            }
            assert(!rest.contains(c.last())) by {
                if rest.contains(c.last()) {
                    let j = choose|j: int| 0 <= j < rest.len() && rest[j] == c.last();
                    assert(c[j] == c[c.len() - 1]);
                }
            }
        }
        let w = without(rest, o);
        if c.last() != o {
            assert(without(c, o) == w.push(c.last()));
            assert forall|x: usize| #[trigger] w.push(c.last()).contains(x) <==> (w.contains(x) || x == c.last()) by {
                let wp = w.push(c.last());
                if wp.contains(x) {
                    let j = choose|j: int| 0 <= j < wp.len() && wp[j] == x;
                    if j < w.len() {
                        assert(w[j] == x);
                    }
                }
                if w.contains(x) {
                    let j = choose|j: int| 0 <= j < w.len() && w[j] == x;
                    assert(wp[j] == x);
                }
                if x == c.last() {
                    assert(wp[w.len() as int] == x);
                }
            }
            if c.no_duplicates() {
                lemma_push_distinct(w, c.last());
            }
        }
    }
}

proof fn lemma_push_distinct(c: Seq<usize>, o: usize)
    requires
        c.no_duplicates(),
        !c.contains(o),
    ensures
        c.push(o).no_duplicates(),
{
    let p = c.push(o);
    assert forall|i: int, j: int| 0 <= i < p.len() && 0 <= j < p.len() && i != j implies p[i] != p[j] by {
        if i < c.len() && j < c.len() {
            assert(p[i] == c[i] && p[j] == c[j]);
        } else if i < c.len() {
            assert(p[i] == c[i]);
        } else if j < c.len() {
            assert(p[j] == c[j]);
        }
    }
}

/// The media a ray is inside of never list a shape twice: each crossing of
/// a surface either enters a shape the ray is outside of or leaves one it
/// is inside of.
pub proof fn lemma_media_distinct(objs: Seq<usize>, k: int)
    ensures
        media_after(objs, k).no_duplicates(),
    decreases k,
{
    if k > 0 {
        let c = media_after(objs, k - 1);
        let o = objs[k - 1];
        lemma_media_distinct(objs, k - 1);
        lemma_without_contents(c, o);
        if !c.contains(o) {
            lemma_push_distinct(c, o);
        }
    }
}

/// Intersection `x` of `xs` comes before intersection `y`: it has the
/// smaller parameter, or the same one and an earlier position.
pub open spec fn precedes(xs: Seq<Intersection>, x: usize, y: usize) -> bool {
    xs[x as int].key < xs[y as int].key || (xs[x as int].key == xs[y as int].key && x < y)
}

/// `order` lists every position of `xs` exactly once, by increasing
/// parameter, positions with equal parameters in their original order.
pub open spec fn is_time_order(xs: Seq<Intersection>, order: Seq<usize>) -> bool {
    &&& order.len() == xs.len()
    &&& order.no_duplicates()
    &&& forall|k: int| 0 <= k < order.len() ==> #[trigger] order[k] < xs.len()
    &&& forall|a: int, b: int|
        0 <= a < b < order.len() ==> #[trigger] precedes(xs, order[a], order[b])
}

/// The parameters of `xs` never decrease along the list.
pub open spec fn sorted_by_time(xs: Seq<Intersection>) -> bool {
    forall|a: int, b: int| 0 <= a < b < xs.len() ==> #[trigger] xs[a].key <= #[trigger] xs[b].key
}

/// `xs` rearranged as `order` lists its positions.
pub open spec fn arranged(xs: Seq<Intersection>, order: Seq<usize>) -> Seq<Intersection> {
    order.map_values(|k: usize| xs[k as int])
}

/// Rearranging intersections in time order sorts them by time.
pub proof fn lemma_time_order_sorts(xs: Seq<Intersection>, order: Seq<usize>)
    requires
        is_time_order(xs, order),
    ensures
        sorted_by_time(arranged(xs, order)),
        arranged(xs, order).len() == xs.len(),
{
    let s = arranged(xs, order);
    assert forall|a: int, b: int| 0 <= a < b < s.len() implies #[trigger] s[a].key <= #[trigger] s[b].key by {
        assert(precedes(xs, order[a], order[b]));
    }
}

/// Over a list sorted by time, the hit is the first intersection with a
/// non-negative parameter.
pub proof fn lemma_hit_of_sorted(xs: Seq<Intersection>, i: int)
    requires
        sorted_by_time(xs),
        0 <= i < xs.len(),
    ensures
        is_hit(xs, i) <==> (xs[i].key >= 0 && forall|j: int| 0 <= j < i ==> #[trigger] xs[j].key < 0),
{
    if xs[i].key >= 0 && forall|j: int| 0 <= j < i ==> #[trigger] xs[j].key < 0 {
        assert forall|k: int| 0 <= k < xs.len() && xs[k].key >= 0 implies xs[i].key <= xs[k].key by {
            if k > i {
                assert(xs[i].key <= xs[k].key);
            }
        }
    }
    if is_hit(xs, i) {
        assert forall|j: int| 0 <= j < i implies #[trigger] xs[j].key < 0 by {
            assert(xs[j].key <= xs[i].key);
        }
    }
}

/// The innermost medium of a list, `None` standing for vacuum.
pub open spec fn innermost(c: Seq<usize>) -> Option<usize> {
    if c.len() == 0 {
        None
    } else {
        Some(c.last())
    }
}

/// The shapes of a list of intersections, in order.
pub open spec fn objects_of(xs: Seq<Intersection>) -> Seq<usize> {
    xs.map_values(|x: Intersection| x.object)
}

impl Intersection {
    pub fn new(key: i64, object: usize) -> (r: Intersection)
        ensures
            r.key == key,
            r.object == object,
    {
        Intersection { key, object }
    }

    /// The index of the hit of `xs`, or `None` when every intersection lies
    /// behind the ray origin.
    pub fn hit(xs: &Vec<Intersection>) -> (r: Option<usize>)
        ensures
            r is None <==> all_behind(xs@),
            r matches Some(i) ==> is_hit(xs@, i as int),
    {
        let mut best: Option<usize> = None;
        let mut k: usize = 0;
        while k < xs.len()
            invariant
                k <= xs.len(),
                best is None <==> all_behind(xs@.take(k as int)),
                best matches Some(i) ==> is_hit(xs@.take(k as int), i as int),
            decreases xs.len() - k,
        {
            let x: Intersection = xs[k];
            if x.key >= 0 {
                match best {
                    None => {
                        best = Some(k);
                    },
                    Some(i) => {
                        if x.key < xs[i].key {
                            best = Some(k);
                        }
                    },
                }
            }
            proof {
                let next = xs@.take(k + 1);
                assert(forall|j: int| 0 <= j <= k ==> next[j] == xs@[j]);
                assert(forall|j: int| 0 <= j < k ==> xs@.take(k as int)[j] == xs@[j]);
                if x.key >= 0 {
                    assert(!all_behind(next)) by {
                        assert(next[k as int].key >= 0);
                    }
                } else {
                    assert(all_behind(next) == all_behind(xs@.take(k as int)));
                }
            }
            k = k + 1;
        }
        proof {
            assert(xs@.take(xs.len() as int) =~= xs@);
        }
        best
    }

    /// The positions of `xs` in order of increasing parameter; positions
    /// with equal parameters keep their order.
    pub fn time_order(xs: &Vec<Intersection>) -> (r: Vec<usize>)
        ensures
            is_time_order(xs@, r@),
    {
        let mut order: Vec<usize> = Vec::new();
        let mut i: usize = 0;
        while i < xs.len()
            invariant
                i <= xs.len(),
                order@.len() == i,
                order@.no_duplicates(),
                forall|k: int| 0 <= k < order@.len() ==> #[trigger] order@[k] < i,
                forall|a: int, b: int|
                    0 <= a < b < order@.len() ==> #[trigger] precedes(xs@, order@[a], order@[b]),
            decreases xs.len() - i,
        {
            let key: i64 = xs[i].key;
            let mut p: usize = 0;
            while p < order.len() && xs[order[p]].key <= key
                invariant
                    p <= order@.len(),
                    order@.len() == i,
                    i < xs.len(),
                    key == xs@[i as int].key,
                    forall|k: int| 0 <= k < order@.len() ==> #[trigger] order@[k] < i,
                    forall|j: int| 0 <= j < p ==> #[trigger] xs@[order@[j] as int].key <= key,
                decreases order@.len() - p,
            {
                p = p + 1;
            }
            let ghost old_order = order@;
            order.insert(p, i);
            proof {
                assert(order@ == old_order.insert(p as int, i));
                assert forall|k: int| 0 <= k < order@.len() implies #[trigger] order@[k] < i + 1 by {
                    if k < p {
                        assert(order@[k] == old_order[k]);
                    } else if k > p {
                        assert(order@[k] == old_order[k - 1]);
                    }
                }
                assert forall|a: int, b: int|
                    0 <= a < b < order@.len() implies #[trigger] precedes(xs@, order@[a], order@[b]) by {
                    if b < p {
                        assert(order@[a] == old_order[a] && order@[b] == old_order[b]);
                        assert(precedes(xs@, old_order[a], old_order[b]));
                    } else if b == p {
                        assert(order@[a] == old_order[a]);
                        assert(xs@[old_order[a] as int].key <= key);
                        assert(old_order[a] < i);
                    } else if a < p {
                        assert(order@[a] == old_order[a] && order@[b] == old_order[b - 1]);
                        assert(precedes(xs@, old_order[a], old_order[b - 1]));
                    } else if a == p {
                        assert(order@[b] == old_order[b - 1]);
                        assert(p < old_order.len());
                        assert(xs@[old_order[p as int] as int].key > key);
                        if b - 1 > p {
                            assert(precedes(xs@, old_order[p as int], old_order[b - 1]));
                        }
                    } else {
                        assert(order@[a] == old_order[a - 1] && order@[b] == old_order[b - 1]);
                        assert(precedes(xs@, old_order[a - 1], old_order[b - 1]));
                    }
                }
                assert(order@.no_duplicates()) by {
                    assert forall|a: int, b: int| 0 <= a < order@.len() && 0 <= b < order@.len() && a != b implies order@[a]
                        != order@[b] by {
                        if a != p && b != p {
                            let a0 = if a < p { a } else { a - 1 };
                            let b0 = if b < p { b } else { b - 1 };
                            assert(order@[a] == old_order[a0] && order@[b] == old_order[b0]);
                        } else if a == p {
                            let b0 = if b < p { b } else { b - 1 };
                            assert(order@[b] == old_order[b0]);
                            assert(old_order[b0] < i);
                        } else {
                            let a0 = if a < p { a } else { a - 1 };
                            assert(order@[a] == old_order[a0]);
                            assert(old_order[a0] < i);
                        }
                    }
                }
            }
            i = i + 1;
        }
        order
    }

    /// The media on either side of the surface crossed at `xs[hit]`: the
    /// shape whose refractive index the ray leaves (`n1`) and the one it
    /// enters (`n2`), `None` standing for vacuum.
    pub fn refraction_media(hit: usize, xs: &Vec<Intersection>) -> (r: (Option<usize>, Option<usize>))
        requires
            hit < xs.len(),
        ensures
            r.0 == innermost(media_after(objects_of(xs@), hit as int)),
            r.1 == innermost(media_after(objects_of(xs@), hit + 1)),
    {
        let ghost objs = objects_of(xs@);
        let mut container: Vec<usize> = Vec::new();
        let mut n1: Option<usize> = None;
        let mut k: usize = 0;
        while k < hit
            invariant
                k <= hit < xs.len(),
                objs == objects_of(xs@),
                container@ == media_after(objs, k as int),
            decreases hit - k,
        {
            toggle_in(&mut container, xs[k].object);
            k = k + 1;
        }
        if container.len() > 0 {
            n1 = Some(container[container.len() - 1]);
        }
        toggle_in(&mut container, xs[hit].object);
        let n2 = if container.len() > 0 {
            Some(container[container.len() - 1])
        } else {
            None
        };
        (n1, n2)
    }
}

/// Whether `c` holds `o`.
fn holds(c: &Vec<usize>, o: usize) -> (r: bool)
    ensures
        r == c@.contains(o),
{
    let mut k: usize = 0;
    while k < c.len()
        invariant
            k <= c.len(),
            forall|j: int| 0 <= j < k ==> c@[j] != o,
        decreases c.len() - k,
    {
        if c[k] == o {
            return true;
        }
        k = k + 1;
    }
    false
}

/// Crosses the surface of `o`: leaves it if `c` holds it, enters it otherwise.
fn toggle_in(c: &mut Vec<usize>, o: usize)
    ensures
        final(c)@ == toggle(old(c)@, o),
{
    if holds(c, o) {
        let mut rest: Vec<usize> = Vec::new();
        let mut k: usize = 0;
        while k < c.len()
            invariant
                k <= c.len(),
                rest@ == without(c@.take(k as int), o),
            decreases c.len() - k,
        {
            proof {
                assert(c@.take(k + 1).drop_last() =~= c@.take(k as int));
            }
            if c[k] != o {
                rest.push(c[k]);
            }
            k = k + 1;
        }
        proof {
            assert(c@.take(c.len() as int) =~= c@);
        }
        *c = rest;
    } else {
        c.push(o);
    }
}

} // verus!
