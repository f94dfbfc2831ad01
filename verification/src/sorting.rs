//! Stable sorting by a strict weak order.

use vstd::prelude::*;

verus! {

/// A strict weak order on models.
pub trait Order<V> {
    /// `a` goes before `b`.
    spec fn before(&self, a: V, b: V) -> bool;

    /// The order is asymmetric, and being no later is transitive.
    proof fn is_order(&self, a: V, b: V, c: V)
        ensures
            !(self.before(a, b) && self.before(b, a)),
            !self.before(b, a) && !self.before(c, b) ==> !self.before(c, a),
    ;
}

/// An order by which lists of `T` are arranged, judging items by their model.
pub trait Arranged<T: View>: Order<T::V> {
    /// Whether `a` goes before `b`.
    fn goes_before(&self, a: &T, b: &T) -> (r: bool)
        ensures
            r == self.before(a@, b@),
    ;
}

/// The models of a list's items.
pub open spec fn views<T: View>(s: Seq<T>) -> Seq<T::V> {
    s.map_values(|t: T| t@)
}

pub proof fn views_push<T: View>(s: Seq<T>, t: T)
    ensures
        views(s.push(t)) == views(s).push(t@),
{
    assert(views(s.push(t)) =~= views(s).push(t@));
}

/// No item goes before an earlier one.
pub open spec fn is_arranged<T, O: Order<T>>(order: &O, s: Seq<T>) -> bool {
    forall|i: int, j: int| 0 <= i < j < s.len() ==> !order.before(#[trigger] s[j], #[trigger] s[i])
}

/// `s` with `x` put in front of the first item that it need not follow.
pub open spec fn placed<T, O: Order<T>>(order: &O, x: T, s: Seq<T>) -> Seq<T>
    decreases s.len(),
{
    if s.len() == 0 {
        seq![x]
    } else if order.before(s[0], x) {
        seq![s[0]] + placed(order, x, s.subrange(1, s.len() as int))
    } else {
        seq![x] + s
    }
}

/// The items of `s` in order, items that rank alike in the order they had.
pub open spec fn arranged<T, O: Order<T>>(order: &O, s: Seq<T>) -> Seq<T>
    decreases s.len(),
{
    if s.len() == 0 {
        s
    } else {
        placed(order, s[0], arranged(order, s.subrange(1, s.len() as int)))
    }
}

/// Two lists merged, taking from the first where the heads rank alike.
pub open spec fn merged<T, O: Order<T>>(order: &O, a: Seq<T>, b: Seq<T>) -> Seq<T>
    decreases a.len() + b.len(),
{
    if a.len() == 0 {
        b
    } else if b.len() == 0 {
        a
    } else if order.before(b[0], a[0]) {
        seq![b[0]] + merged(order, a, b.subrange(1, b.len() as int))
    } else {
        seq![a[0]] + merged(order, a.subrange(1, a.len() as int), b)
    }
}

/// Placing keeps the items and adds the one that is placed.
pub proof fn placed_keeps_items<T, O: Order<T>>(order: &O, x: T, s: Seq<T>)
    ensures
        placed(order, x, s).len() == s.len() + 1,
        placed(order, x, s).to_multiset() == s.to_multiset().insert(x),
    decreases s.len(),
{
    broadcast use vstd::seq_lib::group_to_multiset_ensures;

    if s.len() == 0 {
        assert(seq![x] =~= Seq::<T>::empty().push(x));
        assert(s =~= Seq::<T>::empty());
    } else if order.before(s[0], x) {
        let tail = s.subrange(1, s.len() as int);
        placed_keeps_items(order, x, tail);
        vstd::seq_lib::lemma_multiset_commutative(seq![s[0]], placed(order, x, tail));
        vstd::seq_lib::lemma_multiset_commutative(seq![s[0]], tail);
        assert(s =~= seq![s[0]] + tail);
        assert(placed(order, x, s).to_multiset() =~= s.to_multiset().insert(x));
    } else {
        vstd::seq_lib::lemma_multiset_commutative(seq![x], s);
        assert(seq![x] =~= Seq::<T>::empty().push(x));
        assert(placed(order, x, s).to_multiset() =~= s.to_multiset().insert(x));
    }
}

/// Arranging keeps the items.
pub proof fn arranged_keeps_items<T, O: Order<T>>(order: &O, s: Seq<T>)
    ensures
        arranged(order, s).len() == s.len(),
        arranged(order, s).to_multiset() == s.to_multiset(),
    decreases s.len(),
{
    broadcast use vstd::seq_lib::group_to_multiset_ensures;

    if s.len() > 0 {
        let tail = s.subrange(1, s.len() as int);
        arranged_keeps_items(order, tail);
        placed_keeps_items(order, s[0], arranged(order, tail));
        vstd::seq_lib::lemma_multiset_commutative(seq![s[0]], tail);
        assert(seq![s[0]] =~= Seq::<T>::empty().push(s[0]));
        assert(s =~= seq![s[0]] + tail);
        assert(arranged(order, s).to_multiset() =~= s.to_multiset());
    }
}

/// What is in a placed list is the placed item or was in the list.
proof fn placed_contents<T, O: Order<T>>(order: &O, x: T, s: Seq<T>, i: int)
    requires
        0 <= i < placed(order, x, s).len(),
    ensures
        placed(order, x, s)[i] == x || s.contains(placed(order, x, s)[i]),
{
    broadcast use vstd::seq_lib::group_to_multiset_ensures;

    placed_keeps_items(order, x, s);
    let r = placed(order, x, s);
    assert(r.contains(r[i]));
    assert(r.to_multiset().count(r[i]) > 0);
    if r[i] != x {
        assert(s.to_multiset().count(r[i]) > 0);
    }
}

/// Placing into an arranged list leaves it arranged.
proof fn placed_is_arranged<T, O: Order<T>>(order: &O, x: T, s: Seq<T>)
    requires
        is_arranged(order, s),
    ensures
        is_arranged(order, placed(order, x, s)),
    decreases s.len(),
{
    if s.len() == 0 {
    } else if order.before(s[0], x) {
        let tail = s.subrange(1, s.len() as int);
        assert(is_arranged(order, tail)) by {
            assert forall|i: int, j: int| 0 <= i < j < tail.len() implies !order.before(
                #[trigger] tail[j],
                #[trigger] tail[i],
            ) by {
                assert(tail[j] == s[j + 1] && tail[i] == s[i + 1]);
            }
        }
        placed_is_arranged(order, x, tail);
        let rest = placed(order, x, tail);
        let r = placed(order, x, s);
        assert forall|i: int, j: int| 0 <= i < j < r.len() implies !order.before(
            #[trigger] r[j],
            #[trigger] r[i],
        ) by {
            assert(r[j] == rest[j - 1]);
            if i == 0 {
                placed_contents(order, x, tail, j - 1);
                if rest[j - 1] == x {
                    order.is_order(s[0], x, x);
                } else {
                    let k = choose|k: int| 0 <= k < tail.len() && tail[k] == rest[j - 1];
                    assert(tail[k] == s[k + 1]);
                }
            } else {
                assert(r[i] == rest[i - 1]);
            }
        }
    } else {
        let r = seq![x] + s;
        assert forall|i: int, j: int| 0 <= i < j < r.len() implies !order.before(
            #[trigger] r[j],
            #[trigger] r[i],
        ) by {
            assert(r[j] == s[j - 1]);
            if i == 0 {
                if j > 1 {
                    assert(!order.before(s[j - 1], s[0]));
                    order.is_order(x, s[0], s[j - 1]);
                }
            } else {
                assert(r[i] == s[i - 1]);
            }
        }
    }
}

/// An arranged list is in order.
pub proof fn arranged_is_arranged<T, O: Order<T>>(order: &O, s: Seq<T>)
    ensures
        is_arranged(order, arranged(order, s)),
    decreases s.len(),
{
    if s.len() > 0 {
        let tail = s.subrange(1, s.len() as int);
        arranged_is_arranged(order, tail);
        placed_is_arranged(order, s[0], arranged(order, tail));
    }
}

/// A list that is in order is left as it is.
pub proof fn arranged_of_arranged<T, O: Order<T>>(order: &O, s: Seq<T>)
    requires
        is_arranged(order, s),
    ensures
        arranged(order, s) == s,
    decreases s.len(),
{
    if s.len() > 0 {
        let tail = s.subrange(1, s.len() as int);
        assert forall|i: int, j: int| 0 <= i < j < tail.len() implies !order.before(
            #[trigger] tail[j],
            #[trigger] tail[i],
        ) by {
            assert(tail[j] == s[j + 1] && tail[i] == s[i + 1]);
        }
        arranged_of_arranged(order, tail);
        if tail.len() > 0 {
            assert(tail[0] == s[1]);
        }
        assert(s =~= seq![s[0]] + tail);
    }
}

/// Placing into the first of two lists before merging, or into the merger, is
/// one and the same.
proof fn placed_merged<T, O: Order<T>>(order: &O, x: T, a: Seq<T>, b: Seq<T>)
    requires
        is_arranged(order, a),
    ensures
        merged(order, placed(order, x, a), b) == placed(order, x, merged(order, a, b)),
    decreases a.len() + b.len(),
{
    let p = placed(order, x, a);
    let m = merged(order, a, b);
    placed_keeps_items(order, x, a);
    if b.len() == 0 {
        assert(m == a);
    } else if a.len() == 0 {
        assert(p == seq![x]);
        assert(m == b);
        let bt = b.subrange(1, b.len() as int);
        assert(p.subrange(1, 1) =~= Seq::<T>::empty());
        if order.before(b[0], x) {
            placed_merged(order, x, a, bt);
        } else {
            assert(merged(order, Seq::<T>::empty(), b) == b);
        }
    } else {
        let at = a.subrange(1, a.len() as int);
        let bt = b.subrange(1, b.len() as int);
        if order.before(b[0], a[0]) {
            assert(m.subrange(1, m.len() as int) =~= merged(order, a, bt));
            if order.before(b[0], x) {
                placed_merged(order, x, a, bt);
                assert(p[0] == a[0] || p[0] == x);
            } else {
                if order.before(a[0], x) {
                    before_transitive(order, b[0], a[0], x);
                }
                assert(p == seq![x] + a);
                assert(p.subrange(1, p.len() as int) =~= a);
            }
        } else {
            assert(m.subrange(1, m.len() as int) =~= merged(order, at, b));
            if order.before(a[0], x) {
                assert(p.subrange(1, p.len() as int) =~= placed(order, x, at));
                assert(is_arranged(order, at)) by {
                    assert forall|i: int, j: int| 0 <= i < j < at.len() implies !order.before(
                        #[trigger] at[j],
                        #[trigger] at[i],
                    ) by {
                        assert(at[j] == a[j + 1] && at[i] == a[i + 1]);
                    }
                }
                placed_merged(order, x, at, b);
            } else {
                assert(p == seq![x] + a);
                assert(p.subrange(1, p.len() as int) =~= a);
                order.is_order(x, a[0], b[0]);
            }
        }
    }
}

/// Going before is transitive.
pub proof fn before_transitive<T, O: Order<T>>(order: &O, a: T, b: T, c: T)
    requires
        order.before(a, b),
        order.before(b, c),
    ensures
        order.before(a, c),
{
    // if `a` did not go before `c`, then neither `b`, as `c` does not go before `b`
    order.is_order(b, c, c);
    order.is_order(b, c, a);
}

/// Merging the arranged halves of a list arranges the list.
proof fn merged_halves<T, O: Order<T>>(order: &O, a: Seq<T>, b: Seq<T>)
    ensures
        merged(order, arranged(order, a), arranged(order, b)) == arranged(order, a + b),
    decreases a.len(),
{
    if a.len() == 0 {
        assert(a + b =~= b);
    } else {
        let tail = a.subrange(1, a.len() as int);
        merged_halves(order, tail, b);
        arranged_is_arranged(order, tail);
        placed_merged(order, a[0], arranged(order, tail), arranged(order, b));
        assert((a + b).subrange(1, (a + b).len() as int) =~= tail + b);
        assert((a + b)[0] == a[0]);
    }
}

/// The items of a list from the last to the first.
fn turned<T: View>(list: Vec<T>) -> (r: Vec<T>)
    ensures
        r@ == list@.reverse(),
{
    let mut rest = list;
    let mut r: Vec<T> = Vec::new();
    while rest.len() > 0
        invariant
            r@.len() + rest@.len() == list@.len(),
            rest@ == list@.take(rest@.len() as int),
            r@ == list@.reverse().take(r@.len() as int),
        decreases rest@.len(),
    {
        let ghost n = rest@.len();
        match rest.pop() {
            Some(x) => {
                assert(x == list@[n - 1]);
                r.push(x);
                assert(rest@ =~= list@.take(rest@.len() as int));
                assert(r@ =~= list@.reverse().take(r@.len() as int));
            },
            None => {},
        }
    }
    assert(r@ =~= list@.reverse());
    r
}

proof fn views_reverse<T: View>(s: Seq<T>)
    ensures
        views(s.reverse()) == views(s).reverse(),
        views(s.reverse()).reverse() == views(s),
{
    assert(views(s.reverse()) =~= views(s).reverse());
    assert(views(s.reverse()).reverse() =~= views(s));
}

fn merge<T: View, O: Arranged<T>>(order: &O, a: Vec<T>, b: Vec<T>) -> (r: Vec<T>)
    ensures
        views(r@) == merged(order, views(a@), views(b@)),
{
    let ghost whole = merged(order, views(a@), views(b@));
    proof {
        views_reverse(a@);
        views_reverse(b@);
    }
    let mut x = turned(a);
    let mut y = turned(b);
    let mut r: Vec<T> = Vec::new();
    assert(views(r@) =~= Seq::<T::V>::empty());
    assert(views(r@) + whole =~= whole);
    while x.len() > 0 && y.len() > 0
        invariant
            views(r@) + merged(order, views(x@).reverse(), views(y@).reverse()) == whole,
        decreases x@.len() + y@.len(),
    {
        let ghost xs = views(x@).reverse();
        let ghost ys = views(y@).reverse();
        assert(xs[0] == x@.last()@);
        assert(ys[0] == y@.last()@);
        let take_second = order.goes_before(&y[y.len() - 1], &x[x.len() - 1]);
        let ghost done = views(r@);
        if take_second {
            match y.pop() {
                Some(item) => {
                    proof {
                        views_push(r@, item);
                    }
                    r.push(item);
                    assert(views(y@).reverse() =~= ys.subrange(1, ys.len() as int));
                    assert(views(r@) + merged(order, views(x@).reverse(), views(y@).reverse())
                        =~= done + merged(order, xs, ys));
                },
                None => {},
            }
        } else {
            match x.pop() {
                Some(item) => {
                    proof {
                        views_push(r@, item);
                    }
                    r.push(item);
                    assert(views(x@).reverse() =~= xs.subrange(1, xs.len() as int));
                    assert(views(r@) + merged(order, views(x@).reverse(), views(y@).reverse())
                        =~= done + merged(order, xs, ys));
                },
                None => {},
            }
        }
    }
    let ghost done = r@;
    proof {
        views_reverse(x@);
        views_reverse(y@);
    }
    let mut left = turned(x);
    let mut right = turned(y);
    assert(views(done) + merged(order, views(left@), views(right@)) == whole);
    assert(merged(order, views(left@), views(right@)) =~= views(left@) + views(right@));
    let ghost lefts = left@;
    let ghost rights = right@;
    r.append(&mut left);
    r.append(&mut right);
    assert(r@ =~= done + lefts + rights);
    assert(views(r@) =~= views(done) + (views(lefts) + views(rights)));
    r
}

/// Sorts a list; items that rank alike keep their order.
pub fn arrange<T: View, O: Arranged<T>>(order: &O, list: Vec<T>) -> (r: Vec<T>)
    ensures
        views(r@) == arranged(order, views(list@)),
    decreases list@.len(),
{
    if list.len() < 2 {
        proof {
            arranged_of_arranged(order, views(list@));
        }
        return list;
    }
    let ghost whole = list@;
    let half: usize = list.len() / 2;
    let mut front = list;
    let back = front.split_off(half);
    assert(views(whole) =~= views(front@) + views(back@));
    proof {
        merged_halves(order, views(front@), views(back@));
    }
    let a = arrange(order, front);
    let b = arrange(order, back);
    merge(order, a, b)
}

/// Items that rank alike only where they are the same have one arrangement.
pub proof fn arrangement_is_unique<V, O: Order<V>>(order: &O, a: Seq<V>, b: Seq<V>)
    requires
        is_arranged(order, a),
        is_arranged(order, b),
        a.to_multiset() == b.to_multiset(),
        forall|x: V, y: V|
            a.contains(x) && a.contains(y) && !(#[trigger] order.before(x, y)) && !order.before(y, x)
                ==> x == y,
    ensures
        a == b,
    decreases a.len(),
{
    broadcast use vstd::seq_lib::group_to_multiset_ensures;

    assert(a.len() == a.to_multiset().len());
    assert(b.len() == b.to_multiset().len());
    if a.len() == 0 {
        assert(a =~= b);
    } else {
        let (x, y) = (a[0], b[0]);
        assert(a.contains(x));
        assert(b.contains(y));
        assert(a.to_multiset().count(y) > 0);
        assert(a.contains(y));
        assert(b.to_multiset().count(x) > 0);
        assert(b.contains(x));
        let i = choose|i: int| 0 <= i < a.len() && a[i] == y;
        let j = choose|j: int| 0 <= j < b.len() && b[j] == x;
        order.is_order(x, x, x);
        assert(!order.before(y, x)) by {
            if i > 0 {
                assert(!order.before(a[i], a[0]));
            }
        }
        order.is_order(y, y, y);
        assert(!order.before(x, y)) by {
            if j > 0 {
                assert(!order.before(b[j], b[0]));
            }
        }
        assert(x == y);
        let (p, q) = (a.subrange(1, a.len() as int), b.subrange(1, b.len() as int));
        vstd::seq_lib::lemma_multiset_commutative(seq![x], p);
        vstd::seq_lib::lemma_multiset_commutative(seq![x], q);
        assert(a =~= seq![x] + p);
        assert(b =~= seq![x] + q);
        assert(p.to_multiset() =~= a.to_multiset().sub(seq![x].to_multiset()));
        assert(q.to_multiset() =~= b.to_multiset().sub(seq![x].to_multiset()));
        assert forall|u: V, v: V|
            p.contains(u) && p.contains(v) && !(#[trigger] order.before(u, v)) && !order.before(
                v,
                u,
            ) implies u == v by {
            let k = choose|k: int| 0 <= k < p.len() && p[k] == u;
            let l = choose|l: int| 0 <= l < p.len() && p[l] == v;
            assert(a[k + 1] == u);
            assert(a[l + 1] == v);
        }
        arrangement_is_unique(order, p, q);
    }
}

// ---------------------------------------------------------------------------
// The best few
// ---------------------------------------------------------------------------

/// The first `k` items, or all of them where there are no more.
pub open spec fn first<V>(s: Seq<V>, k: nat) -> Seq<V> {
    if s.len() <= k {
        s
    } else {
        s.take(k as int)
    }
}

/// The `k` items that come first when `s` is arranged.
pub open spec fn best<V, O: Order<V>>(order: &O, s: Seq<V>, k: nat) -> Seq<V> {
    first(arranged(order, s), k)
}

/// Merging in one item puts it in front of the first item that it goes before.
proof fn merged_single<V, O: Order<V>>(order: &O, a: Seq<V>, x: V, i: int)
    requires
        0 <= i <= a.len(),
        forall|j: int| 0 <= j < i ==> !order.before(x, #[trigger] a[j]),
        i < a.len() ==> order.before(x, a[i]),
    ensures
        merged(order, a, seq![x]) == a.insert(i, x),
    decreases i,
{
    let one = seq![x];
    if a.len() == 0 {
        assert(a.insert(i, x) =~= one);
    } else if i == 0 {
        assert(one.subrange(1, 1) =~= Seq::<V>::empty());
        assert(merged(order, a, Seq::<V>::empty()) == a);
        assert(a.insert(i, x) =~= seq![x] + a);
    } else {
        let tail = a.subrange(1, a.len() as int);
        assert(!order.before(x, a[0]));
        assert forall|j: int| 0 <= j < i - 1 implies !order.before(x, #[trigger] tail[j]) by {
            assert(tail[j] == a[j + 1]);
        }
        merged_single(order, tail, x, i - 1);
        assert(a.insert(i, x) =~= seq![a[0]] + tail.insert(i - 1, x));
    }
}

/// Only the first `k` items matter to the first `k` after one is merged in.
proof fn merged_first<V, O: Order<V>>(order: &O, a: Seq<V>, x: V, k: nat)
    ensures
        first(merged(order, a, seq![x]), k) == first(merged(order, first(a, k), seq![x]), k),
    decreases a.len(),
{
    let one = seq![x];
    if a.len() > k {
        if k == 0 {
            assert(first(merged(order, a, one), k) =~= Seq::<V>::empty());
            assert(first(merged(order, first(a, k), one), k) =~= Seq::<V>::empty());
        } else {
            let short = a.take(k as int);
            assert(short[0] == a[0]);
            let tail = a.subrange(1, a.len() as int);
            let short_tail = short.subrange(1, k as int);
            assert(short_tail =~= tail.take(k - 1));
            if order.before(x, a[0]) {
                assert(one.subrange(1, 1) =~= Seq::<V>::empty());
                assert(merged(order, a, Seq::<V>::empty()) == a);
                assert(merged(order, short, Seq::<V>::empty()) == short);
                assert(merged(order, a, one) == seq![x] + a);
                assert(merged(order, short, one) == seq![x] + short);
                assert(first(seq![x] + a, k) =~= first(seq![x] + short, k));
            } else {
                let m = merged(order, tail, one);
                let n = merged(order, short_tail, one);
                merged_first(order, tail, x, (k - 1) as nat);
                assert(merged(order, a, one) == seq![a[0]] + m);
                assert(merged(order, short, one) == seq![a[0]] + n);
                assert(first(tail, (k - 1) as nat) == short_tail);
                assert(first(seq![a[0]] + m, k) =~= seq![a[0]] + first(m, (k - 1) as nat));
                assert(first(seq![a[0]] + n, k) =~= seq![a[0]] + first(n, (k - 1) as nat));
            }
        }
    }
}

/// Arranging a longer list is merging its last item into the arranged rest.
proof fn arranged_push<V, O: Order<V>>(order: &O, s: Seq<V>, x: V)
    ensures
        arranged(order, s.push(x)) == merged(order, arranged(order, s), seq![x]),
{
    let one = seq![x];
    merged_halves(order, s, one);
    assert(s + one =~= s.push(x));
    assert(one.subrange(1, 1) =~= Seq::<V>::empty());
    assert(arranged(order, Seq::<V>::empty()) == Seq::<V>::empty());
    assert(placed(order, x, Seq::<V>::empty()) == one);
}

/// Keeping the best `k` item by item, or of everything at the end, is one and
/// the same: offering `x` to the best of `s` gives the best of `s` and `x`.
pub proof fn best_of_push<V, O: Order<V>>(order: &O, s: Seq<V>, x: V, k: nat)
    ensures
        first(merged(order, best(order, s, k), seq![x]), k) == best(order, s.push(x), k),
{
    arranged_push(order, s, x);
    merged_first(order, arranged(order, s), x, k);
}

/// Partial lists may be cut to their best `k` before they are put together:
/// nothing that belongs to the best `k` of the whole is lost.
pub proof fn best_of_parts<V, O: Order<V>>(order: &O, a: Seq<V>, b: Seq<V>, k: nat)
    ensures
        best(order, best(order, a, k) + b, k) == best(order, a + b, k),
    decreases b.len(),
{
    let cut = best(order, a, k);
    if b.len() == 0 {
        assert(cut + b =~= cut);
        assert(a + b =~= a);
        arranged_is_arranged(order, a);
        assert(is_arranged(order, cut));
        arranged_of_arranged(order, cut);
    } else {
        let rest = b.drop_last();
        let x = b.last();
        best_of_parts(order, a, rest, k);
        best_of_push(order, cut + rest, x, k);
        best_of_push(order, a + rest, x, k);
        assert((cut + rest).push(x) =~= cut + b);
        assert((a + rest).push(x) =~= a + b);
    }
}

/// Only the first `k` of both lists matter to the first `k` of them merged.
proof fn merged_cut<V, O: Order<V>>(order: &O, a: Seq<V>, b: Seq<V>, k: nat)
    ensures
        first(merged(order, a, b), k) == first(merged(order, first(a, k), first(b, k)), k),
    decreases a.len() + b.len(),
{
    let (p, q) = (first(a, k), first(b, k));
    if k == 0 {
        assert(first(merged(order, a, b), k) =~= Seq::<V>::empty());
        assert(first(merged(order, p, q), k) =~= Seq::<V>::empty());
    } else if a.len() > 0 && b.len() > 0 {
        let less = (k - 1) as nat;
        if order.before(b[0], a[0]) {
            let rest = b.subrange(1, b.len() as int);
            let cut = q.subrange(1, q.len() as int);
            assert(cut =~= first(rest, less));
            merged_cut(order, a, rest, less);
            merged_cut(order, p, cut, less);
            assert(first(p, less) =~= first(a, less));
            assert(first(cut, less) =~= first(rest, less));
            let (m, n) = (merged(order, a, rest), merged(order, p, cut));
            assert(first(seq![b[0]] + m, k) =~= seq![b[0]] + first(m, less));
            assert(first(seq![b[0]] + n, k) =~= seq![b[0]] + first(n, less));
        } else {
            let rest = a.subrange(1, a.len() as int);
            let cut = p.subrange(1, p.len() as int);
            assert(cut =~= first(rest, less));
            merged_cut(order, rest, b, less);
            merged_cut(order, cut, q, less);
            assert(first(q, less) =~= first(b, less));
            assert(first(cut, less) =~= first(rest, less));
            let (m, n) = (merged(order, rest, b), merged(order, cut, q));
            assert(first(seq![a[0]] + m, k) =~= seq![a[0]] + first(m, less));
            assert(first(seq![a[0]] + n, k) =~= seq![a[0]] + first(n, less));
        }
    }
}

/// Two partial lists may both be cut to their best `k` before they are put
/// together.
pub proof fn best_of_cut_parts<V, O: Order<V>>(order: &O, a: Seq<V>, b: Seq<V>, k: nat)
    ensures
        best(order, best(order, a, k) + best(order, b, k), k) == best(order, a + b, k),
{
    let (p, q) = (best(order, a, k), best(order, b, k));
    merged_halves(order, a, b);
    merged_halves(order, p, q);
    arranged_is_arranged(order, a);
    arranged_is_arranged(order, b);
    assert(is_arranged(order, p));
    assert(is_arranged(order, q));
    arranged_of_arranged(order, p);
    arranged_of_arranged(order, q);
    merged_cut(order, arranged(order, a), arranged(order, b), k);
}

/// Offers `item` to a list that holds at most `k` items.
pub fn offer<T: View, O: Arranged<T>>(order: &O, list: &mut Vec<T>, item: T, k: usize)
    requires
        old(list)@.len() <= k,
    ensures
        views(final(list)@) == first(merged(order, views(old(list)@), seq![item@]), k as nat),
        final(list)@.len() <= k,
{
    let ghost held = list@;
    let ghost model = item@;
    let mut at: usize = 0;
    while at < list.len() && !order.goes_before(&item, &list[at])
        invariant
            at <= list@.len(),
            list@ == held,
            model == item@,
            forall|j: int| 0 <= j < at ==> !order.before(model, #[trigger] views(held)[j]),
        decreases list@.len() - at,
    {
        at += 1;
    }
    proof {
        merged_single(order, views(held), model, at as int);
        assert(views(held.insert(at as int, item)) =~= views(held).insert(at as int, model));
    }
    if at >= k {
        // the item would be cut off again
        assert(held.len() == k);
        assert(first(views(held).insert(at as int, model), k as nat) =~= views(held));
        return ;
    }
    if list.len() == k {
        list.pop();
        assert(views(list@) =~= views(held).take(k - 1));
        list.insert(at, item);
        assert(views(list@) =~= first(views(held).insert(at as int, model), k as nat));
    } else {
        list.insert(at, item);
        assert(list@ =~= held.insert(at as int, item));
    }
}

proof fn placed_at<T, O: Order<T>>(order: &O, x: T, s: Seq<T>) -> (k: int)
    ensures
        0 <= k <= s.len(),
        placed(order, x, s) == s.insert(k, x),
        forall|j: int| 0 <= j < k ==> order.before(#[trigger] s[j], x),
    decreases s.len(),
{
    if s.len() == 0 {
        assert(s.insert(0, x) =~= seq![x]);
        0
    } else if order.before(s[0], x) {
        let tail = s.subrange(1, s.len() as int);
        let k = placed_at(order, x, tail);
        assert(seq![s[0]] + tail.insert(k, x) =~= s.insert(k + 1, x));
        assert forall|j: int| 0 <= j < k + 1 implies order.before(#[trigger] s[j], x) by {
            if j > 0 {
                assert(s[j] == tail[j - 1]);
            }
        }
        k + 1
    } else {
        assert(seq![x] + s =~= s.insert(0, x));
        0
    }
}

/// Arranging a list moves each of its items to one place; items that rank alike
/// stay in the order they had.
pub proof fn arranged_moves<T, O: Order<T>>(order: &O, s: Seq<T>) -> (from: Seq<int>)
    ensures
        from.len() == s.len(),
        arranged(order, s).len() == s.len(),
        from.no_duplicates(),
        forall|k: int|
            0 <= k < from.len() ==> 0 <= #[trigger] from[k] < s.len() && arranged(order, s)[k]
                == s[from[k]],
        forall|i: int| 0 <= i < s.len() ==> #[trigger] from.contains(i),
        forall|k: int, l: int|
            0 <= k < l < from.len() && !order.before(arranged(order, s)[k], arranged(order, s)[l])
                ==> #[trigger] from[k] < #[trigger] from[l],
    decreases s.len(),
{
    if s.len() == 0 {
        Seq::empty()
    } else {
        let tail = s.subrange(1, s.len() as int);
        let before = arranged_moves(order, tail);
        let at = placed_at(order, s[0], arranged(order, tail));
        let later = Seq::new(before.len(), |k: int| before[k] + 1);
        let from = later.insert(at, 0);
        let all = arranged(order, s);
        assert(all == arranged(order, tail).insert(at, s[0]));
        assert forall|k: int| 0 <= k < from.len() implies 0 <= #[trigger] from[k] < s.len() && all[k]
            == s[from[k]] by {
            if k < at {
                assert(from[k] == before[k] + 1);
                assert(tail[before[k]] == s[from[k]]);
            } else if k > at {
                assert(from[k] == before[k - 1] + 1);
                assert(tail[before[k - 1]] == s[from[k]]);
            }
        }
        assert forall|k: int, l: int|
            0 <= k < from.len() && 0 <= l < from.len() && k != l implies from[k] != from[l] by {
            if k != at && l != at {
                let a = if k < at {
                    k
                } else {
                    k - 1
                };
                let b = if l < at {
                    l
                } else {
                    l - 1
                };
                assert(from[k] == before[a] + 1 && from[l] == before[b] + 1);
                assert(before[a] != before[b]);
            }
        }
        assert forall|i: int| 0 <= i < s.len() implies #[trigger] from.contains(i) by {
            if i == 0 {
                assert(from[at] == 0);
            } else {
                assert(before.contains(i - 1));
                let k = choose|k: int| 0 <= k < before.len() && before[k] == i - 1;
                if k < at {
                    assert(from[k] == i);
                } else {
                    assert(from[k + 1] == i);
                }
            }
        }
        assert forall|k: int, l: int|
            0 <= k < l < from.len() && !order.before(
                arranged(order, s)[k],
                arranged(order, s)[l],
            ) implies #[trigger] from[k] < #[trigger] from[l] by {
            let t = arranged(order, tail);
            if l == at {
                assert(all[k] == t[k]);
            } else if k != at {
                let a = if k < at {
                    k
                } else {
                    k - 1
                };
                let b = if l < at {
                    l
                } else {
                    l - 1
                };
                assert(all[k] == t[a] && all[l] == t[b]);
                assert(from[k] == before[a] + 1 && from[l] == before[b] + 1);
                assert(before[a] < before[b]);
            }
        }
        from
    }
}

} // verus!
