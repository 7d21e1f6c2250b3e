use vstd::prelude::*;
use vstd::multiset::Multiset;

verus! {

broadcast use vstd::seq_lib::group_to_multiset_ensures;

/// Lexicographic order on texts by code point: the order in which `String`s
/// compare, since UTF-8 keeps code point order.
pub open spec fn lex_lt(a: Seq<char>, b: Seq<char>) -> bool
    decreases a.len(),
{
    if a.len() == 0 {
        b.len() > 0
    } else if b.len() == 0 {
        false
    } else if a[0] != b[0] {
        a[0] < b[0]
    } else {
        lex_lt(a.drop_first(), b.drop_first())
    }
}

/// Lexicographic order on lists of texts, each compared by `lex_lt`.
pub open spec fn keys_lt(a: Seq<Seq<char>>, b: Seq<Seq<char>>) -> bool
    decreases a.len(),
{
    if a.len() == 0 || b.len() == 0 {
        false
    } else if a[0] != b[0] {
        lex_lt(a[0], b[0])
    } else {
        keys_lt(a.drop_first(), b.drop_first())
    }
}

pub proof fn lemma_lex_irreflexive(a: Seq<char>)
    ensures
        !lex_lt(a, a),
    decreases a.len(),
{
    if a.len() > 0 {
        lemma_lex_irreflexive(a.drop_first());
    }
}

pub proof fn lemma_lex_transitive(a: Seq<char>, b: Seq<char>, c: Seq<char>)
    requires
        lex_lt(a, b),
        lex_lt(b, c),
    ensures
        lex_lt(a, c),
    decreases a.len(),
{
    if a.len() > 0 && b.len() > 0 && c.len() > 0 && a[0] == b[0] && b[0] == c[0] {
        lemma_lex_transitive(a.drop_first(), b.drop_first(), c.drop_first());
    }
}

pub proof fn lemma_lex_total(a: Seq<char>, b: Seq<char>)
    ensures
        lex_lt(a, b) || lex_lt(b, a) || a == b,
    decreases a.len(),
{
    if a.len() > 0 && b.len() > 0 && a[0] == b[0] {
        lemma_lex_total(a.drop_first(), b.drop_first());
        if a.drop_first() == b.drop_first() {
            assert(a =~= seq![a[0]] + a.drop_first());
            assert(b =~= seq![b[0]] + b.drop_first());
        }
    } else if a.len() == 0 && b.len() == 0 {
        assert(a =~= b);
    }
}

pub proof fn lemma_lex_asymmetric(a: Seq<char>, b: Seq<char>)
    requires
        lex_lt(a, b),
    ensures
        !lex_lt(b, a),
{
    if lex_lt(b, a) {
        lemma_lex_transitive(a, b, a);
        lemma_lex_irreflexive(a);
    }
}

pub proof fn lemma_keys_irreflexive(a: Seq<Seq<char>>)
    ensures
        !keys_lt(a, a),
    decreases a.len(),
{
    if a.len() > 0 {
        lemma_keys_irreflexive(a.drop_first());
    }
}

pub proof fn lemma_keys_transitive(a: Seq<Seq<char>>, b: Seq<Seq<char>>, c: Seq<Seq<char>>)
    requires
        keys_lt(a, b),
        keys_lt(b, c),
    ensures
        keys_lt(a, c),
    decreases a.len(),
{
    if a[0] != b[0] && b[0] != c[0] {
        lemma_lex_transitive(a[0], b[0], c[0]);
        if a[0] == c[0] {
            lemma_lex_irreflexive(a[0]);
        }
    } else if a[0] == b[0] && b[0] == c[0] {
        lemma_keys_transitive(a.drop_first(), b.drop_first(), c.drop_first());
    }
}

pub proof fn lemma_keys_total(a: Seq<Seq<char>>, b: Seq<Seq<char>>)
    requires
        a.len() == b.len(),
    ensures
        keys_lt(a, b) || keys_lt(b, a) || a == b,
    decreases a.len(),
{
    if a.len() == 0 {
        assert(a =~= b);
    } else if a[0] != b[0] {
        lemma_lex_total(a[0], b[0]);
    } else {
        lemma_keys_total(a.drop_first(), b.drop_first());
        if a.drop_first() == b.drop_first() {
            assert(a =~= seq![a[0]] + a.drop_first());
            assert(b =~= seq![b[0]] + b.drop_first());
        }
    }
}

/// The characters of each part of a key.
pub open spec fn key_view(k: Vec<Vec<char>>) -> Seq<Seq<char>> {
    k@.map_values(|v: Vec<char>| v@)
}

/// Whether text `a` comes before text `b`.
pub fn chars_less(a: &Vec<char>, b: &Vec<char>) -> (r: bool)
    ensures
        r == lex_lt(a@, b@),
{
    let mut i: usize = 0;
    assert(a@.subrange(0, a.len() as int) =~= a@);
    assert(b@.subrange(0, b.len() as int) =~= b@);
    while i < a.len() && i < b.len() && a[i] == b[i]
        invariant
            i <= a.len(),
            i <= b.len(),
            lex_lt(a@.subrange(i as int, a.len() as int), b@.subrange(i as int, b.len() as int))
                == lex_lt(a@, b@),
        decreases a.len() - i,
    {
        let ghost sa = a@.subrange(i as int, a.len() as int);
        let ghost sb = b@.subrange(i as int, b.len() as int);
        assert(sa.drop_first() =~= a@.subrange(i + 1, a.len() as int));
        assert(sb.drop_first() =~= b@.subrange(i + 1, b.len() as int));
        i = i + 1;
    }
    proof {
        assert(a@.subrange(0, a.len() as int) =~= a@);
        assert(b@.subrange(0, b.len() as int) =~= b@);
    }
    if i == a.len() {
        i < b.len()
    } else if i == b.len() {
        false
    } else {
        a[i] < b[i]
    }
}

/// Whether key `a` comes before key `b`.
pub fn key_less(a: &Vec<Vec<char>>, b: &Vec<Vec<char>>) -> (r: bool)
    ensures
        r == keys_lt(key_view(*a), key_view(*b)),
{
    let ghost ka = key_view(*a);
    let ghost kb = key_view(*b);
    let mut i: usize = 0;
    assert(ka.subrange(0, ka.len() as int) =~= ka);
    assert(kb.subrange(0, kb.len() as int) =~= kb);
    while i < a.len() && i < b.len() && !chars_less(&a[i], &b[i]) && !chars_less(&b[i], &a[i])
        invariant
            i <= a.len(),
            i <= b.len(),
            ka == key_view(*a),
            kb == key_view(*b),
            keys_lt(ka.subrange(i as int, ka.len() as int), kb.subrange(i as int, kb.len() as int))
                == keys_lt(ka, kb),
        decreases a.len() - i,
    {
        proof {
            lemma_lex_total(a@[i as int]@, b@[i as int]@);
            let sa = ka.subrange(i as int, ka.len() as int);
            let sb = kb.subrange(i as int, kb.len() as int);
            assert(sa.drop_first() =~= ka.subrange(i + 1, ka.len() as int));
            assert(sb.drop_first() =~= kb.subrange(i + 1, kb.len() as int));
        }
        i = i + 1;
    }
    proof {
        assert(ka.subrange(0, ka.len() as int) =~= ka);
        assert(kb.subrange(0, kb.len() as int) =~= kb);
    }
    if i == a.len() || i == b.len() {
        false
    } else {
        proof {
            lemma_lex_total(a@[i as int]@, b@[i as int]@);
            if a@[i as int]@ == b@[i as int]@ {
                lemma_lex_irreflexive(a@[i as int]@);
            }
        }
        chars_less(&a[i], &b[i])
    }
}

/// The keys are in order: no key comes before an earlier one.
pub open spec fn keys_sorted(ks: Seq<Seq<Seq<char>>>) -> bool {
    forall|i: int, j: int| 0 <= i < j < ks.len() ==> !keys_lt(#[trigger] ks[j], #[trigger] ks[i])
}

/// The views of a list of keys.
pub open spec fn key_views(ks: Seq<Vec<Vec<char>>>) -> Seq<Seq<Seq<char>>> {
    ks.map_values(|k: Vec<Vec<char>>| key_view(k))
}

/// Sorts `items` by `keys`, where `keys[i]` is the key of `items[i]` and
/// every key has `width` parts; both lists are reordered alike, so a
/// relation `ok` that holds between each key and its item still holds.
pub(crate) fn sort_by_keys<T>(
    items: &mut Vec<T>,
    keys: &mut Vec<Vec<Vec<char>>>,
    Ghost(ok): Ghost<spec_fn(Vec<Vec<char>>, T) -> bool>,
    Ghost(width): Ghost<nat>,
)
    requires
        old(items)@.len() == old(keys)@.len(),
        keys_width(old(keys)@, width),
        forall|i: int| 0 <= i < old(items)@.len() ==> ok(old(keys)@[i], #[trigger] old(items)@[i]),
    ensures
        final(items)@.len() == final(keys)@.len(),
        final(items)@.to_multiset() == old(items)@.to_multiset(),
        keys_sorted(key_views(final(keys)@)),
        keys_width(final(keys)@, width),
        forall|i: int| 0 <= i < final(items)@.len() ==> ok(final(keys)@[i], #[trigger] final(items)@[i]),
    decreases old(items)@.len(),
{
    let n = items.len();
    if n <= 1 {
        return;
    }
    let ghost items0 = items@;
    let ghost keys0 = keys@;
    let mid = n / 2;
    let mut hi = items.split_off(mid);
    let mut hi_keys = keys.split_off(mid);
    proof {
        assert forall|i: int| 0 <= i < items@.len() implies ok(keys@[i], #[trigger] items@[i]) by {
            assert(items@[i] == items0[i] && keys@[i] == keys0[i]);
        }
        assert forall|i: int| 0 <= i < hi@.len() implies ok(hi_keys@[i], #[trigger] hi@[i]) by {
            assert(hi@[i] == items0[i + mid] && hi_keys@[i] == keys0[i + mid]);
        }
        assert forall|i: int| 0 <= i < keys@.len() implies (#[trigger] key_view(keys@[i])).len() == width by {
            assert(keys@[i] == keys0[i]);
        }
        assert forall|i: int| 0 <= i < hi_keys@.len() implies (#[trigger] key_view(hi_keys@[i])).len() == width by {
            assert(hi_keys@[i] == keys0[i + mid]);
        }
        assert(items0 =~= items@ + hi@);
        vstd::seq_lib::lemma_multiset_commutative(items@, hi@);
    }
    let ghost lo_ms = items@.to_multiset();
    let ghost hi_ms = hi@.to_multiset();
    sort_by_keys(items, keys, Ghost(ok), Ghost(width));
    sort_by_keys(&mut hi, &mut hi_keys, Ghost(ok), Ghost(width));
    merge_into(items, keys, hi, hi_keys, Ghost(ok), Ghost(width));
}

/// Reordering a sequence reorders its image under `f` alike.
pub proof fn lemma_map_multiset<A, B>(s1: Seq<A>, s2: Seq<A>, f: spec_fn(A) -> B)
    requires
        s1.to_multiset() == s2.to_multiset(),
    ensures
        s1.map_values(f).to_multiset() == s2.map_values(f).to_multiset(),
    decreases s1.len(),
{
    broadcast use vstd::multiset::group_multiset_axioms;

    if s1.len() == 0 {
        assert(s2.len() == s2.to_multiset().len());
        assert(s1.map_values(f) =~= Seq::<B>::empty());
        assert(s2.map_values(f) =~= Seq::<B>::empty());
    } else {
        let n = s1.len() - 1;
        let x = s1[n];
        assert(s1.to_multiset().count(x) > 0);
        assert(s2.contains(x));
        let j = choose|j: int| 0 <= j < s2.len() && s2[j] == x;
        assert(s1.remove(n) =~= s1.drop_last());
        assert(s1.drop_last().to_multiset() == s1.to_multiset().remove(x));
        assert(s2.remove(j).to_multiset() == s2.to_multiset().remove(x));
        lemma_map_multiset(s1.drop_last(), s2.remove(j), f);
        assert(s1.map_values(f) =~= s1.drop_last().map_values(f).push(f(x)));
        assert(s1.drop_last().map_values(f).push(f(x)) =~= s1.drop_last().map_values(f).insert(
            n,
            f(x),
        ));
        assert(s2.map_values(f).remove(j) =~= s2.remove(j).map_values(f));
        assert(s2.map_values(f).remove(j).insert(j, f(x)) =~= s2.map_values(f));
        assert(s1.map_values(f).to_multiset() == s1.drop_last().map_values(f).to_multiset().insert(
            f(x),
        ));
        assert(s2.map_values(f).to_multiset() == s2.remove(j).map_values(f).to_multiset().insert(
            f(x),
        ));
    }
}


/// Neither `a` before `b` nor `b` before `c` puts `a` before `c`, for keys
/// of one width.
pub proof fn lemma_not_before_trans(a: Seq<Seq<char>>, b: Seq<Seq<char>>, c: Seq<Seq<char>>)
    requires
        a.len() == b.len(),
        b.len() == c.len(),
        !keys_lt(b, a),
        !keys_lt(c, b),
    ensures
        !keys_lt(c, a),
{
    lemma_keys_total(a, b);
    if keys_lt(c, a) && keys_lt(a, b) {
        lemma_keys_transitive(c, a, b);
    }
}

/// All keys have `width` parts.
pub open spec fn keys_width(ks: Seq<Vec<Vec<char>>>, width: nat) -> bool {
    forall|i: int| 0 <= i < ks.len() ==> (#[trigger] key_view(ks[i])).len() == width
}

/// No key comes after a later one: the keys descend.
pub open spec fn keys_descending(ks: Seq<Seq<Seq<char>>>) -> bool {
    forall|i: int, j: int| 0 <= i < j < ks.len() ==> !keys_lt(#[trigger] ks[i], #[trigger] ks[j])
}

/// Merges two sorted lists of items with their keys into `lo`.
fn merge_into<T>(
    lo: &mut Vec<T>,
    lo_keys: &mut Vec<Vec<Vec<char>>>,
    hi: Vec<T>,
    hi_keys: Vec<Vec<Vec<char>>>,
    Ghost(ok): Ghost<spec_fn(Vec<Vec<char>>, T) -> bool>,
    Ghost(width): Ghost<nat>,
)
    requires
        old(lo)@.len() == old(lo_keys)@.len(),
        hi@.len() == hi_keys@.len(),
        keys_sorted(key_views(old(lo_keys)@)),
        keys_sorted(key_views(hi_keys@)),
        keys_width(old(lo_keys)@, width),
        keys_width(hi_keys@, width),
        forall|i: int| 0 <= i < old(lo)@.len() ==> ok(old(lo_keys)@[i], #[trigger] old(lo)@[i]),
        forall|i: int| 0 <= i < hi@.len() ==> ok(hi_keys@[i], #[trigger] hi@[i]),
    ensures
        final(lo)@.len() == final(lo_keys)@.len(),
        final(lo)@.to_multiset() == old(lo)@.to_multiset().add(hi@.to_multiset()),
        keys_sorted(key_views(final(lo_keys)@)),
        keys_width(final(lo_keys)@, width),
        forall|i: int| 0 <= i < final(lo)@.len() ==> ok(final(lo_keys)@[i], #[trigger] final(lo)@[i]),
{
    broadcast use vstd::multiset::group_multiset_axioms;

    let ghost m0 = old(lo)@.to_multiset().add(hi@.to_multiset());
    let mut hi = hi;
    let mut hi_keys = hi_keys;
    let mut rev: Vec<T> = Vec::new();
    let mut rev_keys: Vec<Vec<Vec<char>>> = Vec::new();
    assert(rev@.to_multiset() =~= Multiset::<T>::empty());
    while lo.len() > 0 || hi.len() > 0
        invariant
            lo@.len() == lo_keys@.len(),
            hi@.len() == hi_keys@.len(),
            rev@.len() == rev_keys@.len(),
            keys_sorted(key_views(lo_keys@)),
            keys_sorted(key_views(hi_keys@)),
            keys_descending(key_views(rev_keys@)),
            keys_width(lo_keys@, width),
            keys_width(hi_keys@, width),
            keys_width(rev_keys@, width),
            forall|i: int| 0 <= i < lo@.len() ==> ok(lo_keys@[i], #[trigger] lo@[i]),
            forall|i: int| 0 <= i < hi@.len() ==> ok(hi_keys@[i], #[trigger] hi@[i]),
            forall|i: int| 0 <= i < rev@.len() ==> ok(rev_keys@[i], #[trigger] rev@[i]),
            forall|a: int, i: int| 0 <= a < rev_keys@.len() && 0 <= i < lo_keys@.len() ==> !keys_lt(
                #[trigger] key_view(rev_keys@[a]),
                #[trigger] key_view(lo_keys@[i]),
            ),
            forall|a: int, i: int| 0 <= a < rev_keys@.len() && 0 <= i < hi_keys@.len() ==> !keys_lt(
                #[trigger] key_view(rev_keys@[a]),
                #[trigger] key_view(hi_keys@[i]),
            ),
            rev@.to_multiset().add(lo@.to_multiset()).add(hi@.to_multiset()) == m0,
        decreases lo@.len() + hi@.len(),
    {
        let take_hi = if lo.len() == 0 {
            true
        } else if hi.len() == 0 {
            false
        } else {
            !key_less(&hi_keys[hi.len() - 1], &lo_keys[lo.len() - 1])
        };
        let ghost lo0 = lo@;
        let ghost lk0 = lo_keys@;
        let ghost hi0 = hi@;
        let ghost hk0 = hi_keys@;
        let ghost rev0 = rev@;
        let ghost rk0 = rev_keys@;
        let x: T;
        let k: Vec<Vec<char>>;
        if take_hi {
            x = hi.pop().unwrap();
            k = hi_keys.pop().unwrap();
            proof {
                assert(hi0 =~= hi@.push(x));
            }
        } else {
            x = lo.pop().unwrap();
            k = lo_keys.pop().unwrap();
            proof {
                assert(lo0 =~= lo@.push(x));
            }
        }
        proof {
            let kx = key_view(k);
            // The key taken is not before any key left.
            assert forall|i: int| 0 <= i < lo_keys@.len() implies !keys_lt(kx, #[trigger] key_view(lo_keys@[i])) by {
                assert(lo_keys@[i] == lk0[i]);
                assert(key_views(lk0)[i] == key_view(lk0[i]));
                let last = lk0.len() - 1;
                assert(key_views(lk0)[last] == key_view(lk0[last]));
                assert(key_view(lk0[i]).len() == width);
                assert(key_view(lk0[last]).len() == width);
                if take_hi {
                    if i < last {
                        assert(!keys_lt(key_views(lk0)[last], key_views(lk0)[i]));
                        lemma_not_before_trans(key_view(lk0[i]), key_view(lk0[last]), kx);
                    } else {
                        assert(!keys_lt(kx, key_view(lk0[last])));
                    }
                }
            }
            assert forall|i: int| 0 <= i < hi_keys@.len() implies !keys_lt(kx, #[trigger] key_view(hi_keys@[i])) by {
                assert(hi_keys@[i] == hk0[i]);
                assert(key_views(hk0)[i] == key_view(hk0[i]));
                let last = hk0.len() - 1;
                assert(key_views(hk0)[last] == key_view(hk0[last]));
                assert(key_view(hk0[i]).len() == width);
                assert(key_view(hk0[last]).len() == width);
                if !take_hi {
                    let hl = key_view(hk0[last]);
                    assert(keys_lt(hl, kx));
                    if keys_lt(kx, hl) {
                        lemma_keys_transitive(kx, hl, kx);
                        lemma_keys_irreflexive(kx);
                    }
                    if i < last {
                        assert(!keys_lt(key_views(hk0)[last], key_views(hk0)[i]));
                        assert(kx.len() == width) by {
                            assert(k == lk0[lk0.len() - 1]);
                        }
                        lemma_not_before_trans(key_view(hk0[i]), hl, kx);
                    }
                }
            }
            assert(kx.len() == width) by {
                if take_hi {
                    assert(k == hk0[hk0.len() - 1]);
                } else {
                    assert(k == lk0[lk0.len() - 1]);
                }
            }
            if take_hi {
                assert(ok(k, x)) by { assert(hi0[hi0.len() - 1] == x && hk0[hk0.len() - 1] == k); }
                assert forall|a: int| 0 <= a < rk0.len() implies !keys_lt(#[trigger] key_view(rk0[a]), kx) by {
                    assert(k == hk0[hk0.len() - 1]);
                }
            } else {
                assert(ok(k, x)) by { assert(lo0[lo0.len() - 1] == x && lk0[lk0.len() - 1] == k); }
                assert forall|a: int| 0 <= a < rk0.len() implies !keys_lt(#[trigger] key_view(rk0[a]), kx) by {
                    assert(k == lk0[lk0.len() - 1]);
                }
            }
        }
        rev.push(x);
        rev_keys.push(k);
        proof {
            let kx = key_view(k);
            assert forall|a: int, b: int| 0 <= a < b < rev_keys@.len() implies !keys_lt(
                #[trigger] key_views(rev_keys@)[a],
                #[trigger] key_views(rev_keys@)[b],
            ) by {
                assert(key_views(rev_keys@)[a] == key_view(rev_keys@[a]));
                assert(key_views(rev_keys@)[b] == key_view(rev_keys@[b]));
                if b < rk0.len() {
                    assert(key_views(rk0)[a] == key_view(rk0[a]));
                    assert(key_views(rk0)[b] == key_view(rk0[b]));
                }
            }
            assert forall|a: int, i: int| 0 <= a < rev_keys@.len() && 0 <= i < lo_keys@.len() implies !keys_lt(
                #[trigger] key_view(rev_keys@[a]),
                #[trigger] key_view(lo_keys@[i]),
            ) by {
                if a < rk0.len() {
                    assert(rev_keys@[a] == rk0[a]);
                    if take_hi {
                        assert(lo_keys@[i] == lk0[i]);
                    } else {
                        assert(lo_keys@[i] == lk0[i]);
                    }
                }
            }
            assert forall|a: int, i: int| 0 <= a < rev_keys@.len() && 0 <= i < hi_keys@.len() implies !keys_lt(
                #[trigger] key_view(rev_keys@[a]),
                #[trigger] key_view(hi_keys@[i]),
            ) by {
                if a < rk0.len() {
                    assert(rev_keys@[a] == rk0[a]);
                    assert(hi_keys@[i] == hk0[i]);
                }
            }
            assert forall|i: int| 0 <= i < lo_keys@.len() implies (#[trigger] key_view(lo_keys@[i])).len() == width by {
                assert(lo_keys@[i] == lk0[i]);
            }
            assert forall|i: int| 0 <= i < hi_keys@.len() implies (#[trigger] key_view(hi_keys@[i])).len() == width by {
                assert(hi_keys@[i] == hk0[i]);
            }
            assert forall|i: int| 0 <= i < rev_keys@.len() implies (#[trigger] key_view(rev_keys@[i])).len() == width by {
                if i < rk0.len() {
                    assert(rev_keys@[i] == rk0[i]);
                }
            }
            assert forall|i: int, j: int| 0 <= i < j < lo_keys@.len() implies !keys_lt(#[trigger] key_views(lo_keys@)[j], #[trigger] key_views(lo_keys@)[i]) by {
                assert(key_views(lo_keys@)[i] == key_views(lk0)[i]);
                assert(key_views(lo_keys@)[j] == key_views(lk0)[j]);
            }
            assert forall|i: int, j: int| 0 <= i < j < hi_keys@.len() implies !keys_lt(#[trigger] key_views(hi_keys@)[j], #[trigger] key_views(hi_keys@)[i]) by {
                assert(key_views(hi_keys@)[i] == key_views(hk0)[i]);
                assert(key_views(hi_keys@)[j] == key_views(hk0)[j]);
            }
            assert forall|i: int| 0 <= i < lo@.len() implies ok(lo_keys@[i], #[trigger] lo@[i]) by {
                assert(lo@[i] == lo0[i] && lo_keys@[i] == lk0[i]);
            }
            assert forall|i: int| 0 <= i < hi@.len() implies ok(hi_keys@[i], #[trigger] hi@[i]) by {
                assert(hi@[i] == hi0[i] && hi_keys@[i] == hk0[i]);
            }
            assert forall|i: int| 0 <= i < rev@.len() implies ok(rev_keys@[i], #[trigger] rev@[i]) by {
                if i < rev0.len() {
                    assert(rev@[i] == rev0[i] && rev_keys@[i] == rk0[i]);
                }
            }
            assert(rev@ =~= rev0.push(x));
            if take_hi {
                assert(rev@.to_multiset().add(lo@.to_multiset()).add(hi@.to_multiset()) =~= m0);
            } else {
                assert(rev@.to_multiset().add(lo@.to_multiset()).add(hi@.to_multiset()) =~= m0);
            }
        }
    }
    assert(lo@.to_multiset() =~= Multiset::<T>::empty());
    assert(hi@.to_multiset() =~= Multiset::<T>::empty());
    let ghost r0 = rev@;
    let ghost rk = rev_keys@;
    let n = rev.len();
    while rev.len() > 0
        invariant
            rev@.len() == rev_keys@.len(),
            lo@.len() == lo_keys@.len(),
            n == r0.len(),
            rk.len() == n,
            rev@.len() + lo@.len() == n,
            rev@ == r0.subrange(0, rev@.len() as int),
            rev_keys@ == rk.subrange(0, rev@.len() as int),
            forall|i: int| 0 <= i < lo@.len() ==> #[trigger] lo@[i] == r0[n - 1 - i],
            forall|i: int| 0 <= i < lo@.len() ==> #[trigger] lo_keys@[i] == rk[n - 1 - i],
            rev@.to_multiset().add(lo@.to_multiset()) == m0,
        decreases rev@.len(),
    {
        let ghost rv0 = rev@;
        let x = rev.pop().unwrap();
        let k = rev_keys.pop().unwrap();
        let ghost lo_before = lo@;
        lo.push(x);
        lo_keys.push(k);
        proof {
            assert(rv0 =~= rev@.push(x));
            assert(rev@ =~= r0.subrange(0, rev@.len() as int));
            assert(rev_keys@ =~= rk.subrange(0, rev@.len() as int));
            assert(rev@.to_multiset().add(lo@.to_multiset()) =~= m0);
        }
    }
    proof {
        assert(rev@.to_multiset() =~= Multiset::<T>::empty());
        assert forall|i: int, j: int| 0 <= i < j < lo_keys@.len() implies !keys_lt(
            #[trigger] key_views(lo_keys@)[j],
            #[trigger] key_views(lo_keys@)[i],
        ) by {
            assert(key_views(lo_keys@)[i] == key_view(rk[n - 1 - i]));
            assert(key_views(lo_keys@)[j] == key_view(rk[n - 1 - j]));
            assert(key_views(rk)[n - 1 - j] == key_view(rk[n - 1 - j]));
            assert(key_views(rk)[n - 1 - i] == key_view(rk[n - 1 - i]));
        }
        assert forall|i: int| 0 <= i < lo_keys@.len() implies (#[trigger] key_view(lo_keys@[i])).len() == width by {
            assert(lo_keys@[i] == rk[n - 1 - i]);
        }
        assert forall|i: int| 0 <= i < lo@.len() implies ok(lo_keys@[i], #[trigger] lo@[i]) by {
            assert(lo@[i] == r0[n - 1 - i]);
            assert(lo_keys@[i] == rk[n - 1 - i]);
        }
    }
}

} // verus!
