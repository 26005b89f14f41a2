//! A stable order: by a number first, then by a text, and last by position.
use vstd::prelude::*;

use crate::text::chars_of;

verus! {

/// What a list is ordered by.
pub struct SortKey {
    /// Compared first.
    pub number: u128,
    /// Compared where the numbers are equal, by code points.
    pub text: String,
}

impl View for SortKey {
    type V = (u128, Seq<char>);

    open spec fn view(&self) -> (u128, Seq<char>) {
        (self.number, self.text@)
    }
}

/// The keys of a list of keys.
pub open spec fn key_views(keys: Seq<SortKey>) -> Seq<(u128, Seq<char>)> {
    keys.map_values(|k: SortKey| k@)
}

/// Whether `a` comes before `b` in the dictionary order of code points.
pub open spec fn text_less(a: Seq<char>, b: Seq<char>) -> bool
    decreases a.len(),
{
    if b.len() == 0 {
        false
    } else if a.len() == 0 {
        true
    } else if a[0] != b[0] {
        a[0] < b[0]
    } else {
        text_less(a.skip(1), b.skip(1))
    }
}

/// Whether the key `a` is less than the key `b`.
pub open spec fn key_less(a: (u128, Seq<char>), b: (u128, Seq<char>)) -> bool {
    a.0 < b.0 || (a.0 == b.0 && text_less(a.1, b.1))
}

/// Whether position `i` comes before position `j`: by key, and by position where the keys
/// are equal.
pub open spec fn comes_before(keys: Seq<(u128, Seq<char>)>, i: int, j: int) -> bool {
    key_less(keys[i], keys[j]) || (keys[i] == keys[j] && i < j)
}

/// Whether `r` lists every position of `keys` once, in stable order.
pub open spec fn stable_order(keys: Seq<(u128, Seq<char>)>, r: Seq<usize>) -> bool {
    &&& r.len() == keys.len()
    &&& forall|i: int| 0 <= i < r.len() ==> (#[trigger] r[i]) < keys.len()
    &&& forall|k: usize| k < keys.len() ==> #[trigger] r.contains(k)
    &&& forall|i: int, j: int|
        0 <= i < j < r.len() ==> comes_before(keys, #[trigger] r[i] as int, #[trigger] r[j] as int)
}

/// No text is less than itself.
proof fn lemma_text_irreflexive(a: Seq<char>)
    ensures
        !text_less(a, a),
    decreases a.len(),
{
    if a.len() > 0 {
        lemma_text_irreflexive(a.skip(1));
    }
}

/// Of two different texts one is less.
proof fn lemma_text_total(a: Seq<char>, b: Seq<char>)
    ensures
        text_less(a, b) || text_less(b, a) || a == b,
    decreases a.len(),
{
    if a.len() > 0 && b.len() > 0 && a[0] == b[0] {
        lemma_text_total(a.skip(1), b.skip(1));
        if a.skip(1) == b.skip(1) {
            assert(a =~= seq![a[0]] + a.skip(1));
            assert(b =~= seq![b[0]] + b.skip(1));
        }
    } else if a.len() == 0 && b.len() == 0 {
        assert(a =~= b);
    }
}

/// The order of texts is transitive.
proof fn lemma_text_transitive(a: Seq<char>, b: Seq<char>, c: Seq<char>)
    requires
        text_less(a, b),
        text_less(b, c),
    ensures
        text_less(a, c),
    decreases a.len(),
{
    if a.len() > 0 && b.len() > 0 && c.len() > 0 && a[0] == b[0] && b[0] == c[0] {
        lemma_text_transitive(a.skip(1), b.skip(1), c.skip(1));
    }
}

/// The order of positions is transitive.
proof fn lemma_before_transitive(keys: Seq<(u128, Seq<char>)>, i: int, j: int, k: int)
    requires
        comes_before(keys, i, j),
        comes_before(keys, j, k),
    ensures
        comes_before(keys, i, k),
{
    if text_less(keys[i].1, keys[j].1) && text_less(keys[j].1, keys[k].1) {
        lemma_text_transitive(keys[i].1, keys[j].1, keys[k].1);
    }
}

/// There is only one stable order of a list.
pub proof fn law_stable_order_unique(keys: Seq<(u128, Seq<char>)>, r: Seq<usize>, s: Seq<usize>)
    requires
        stable_order(keys, r),
        stable_order(keys, s),
    ensures
        r == s,
{
    lemma_prefix_equal(keys, r, s, r.len() as int);
    assert(r.take(r.len() as int) =~= r);
    assert(s.take(r.len() as int) =~= s);
}

/// Two stable orders agree on every prefix.
proof fn lemma_prefix_equal(
    keys: Seq<(u128, Seq<char>)>,
    r: Seq<usize>,
    s: Seq<usize>,
    n: int,
)
    requires
        stable_order(keys, r),
        stable_order(keys, s),
        0 <= n <= r.len(),
    ensures
        r.take(n) == s.take(n),
    decreases n,
{
    if n > 0 {
        lemma_prefix_equal(keys, r, s, n - 1);
        let m = n - 1;
        if r[m] != s[m] {
            assert(s.contains(r[m]));
            assert(r.contains(s[m]));
            let p = choose|p: int| 0 <= p < s.len() && s[p] == r[m];
            let q = choose|q: int| 0 <= q < r.len() && r[q] == s[m];
            if p < m {
                assert(r.take(m)[p] == s.take(m)[p]);
                lemma_before_irreflexive(keys, r[m] as int);
                assert(comes_before(keys, r[p] as int, r[m] as int));
            }
            if q < m {
                assert(r.take(m)[q] == s.take(m)[q]);
                lemma_before_irreflexive(keys, s[m] as int);
                assert(comes_before(keys, s[q] as int, s[m] as int));
            }
            assert(comes_before(keys, s[m] as int, s[p] as int));
            assert(comes_before(keys, r[m] as int, r[q] as int));
            lemma_before_transitive(keys, r[m] as int, s[m] as int, r[m] as int);
            lemma_before_irreflexive(keys, r[m] as int);
        }
        assert(r.take(n) =~= r.take(m).push(r[m]));
        assert(s.take(n) =~= s.take(m).push(s[m]));
    } else {
        assert(r.take(0) =~= s.take(0));
    }
}

/// No position comes before itself.
proof fn lemma_before_irreflexive(keys: Seq<(u128, Seq<char>)>, i: int)
    ensures
        !comes_before(keys, i, i),
{
    lemma_text_irreflexive(keys[i].1);
}

/// Whether `a` comes before `b` in the dictionary order of code points.
fn is_text_less(a: &Vec<char>, b: &Vec<char>) -> (r: bool)
    ensures
        r == text_less(a@, b@),
{
    let mut i: usize = 0;
    proof {
        assert(a@.skip(0) =~= a@);
        assert(b@.skip(0) =~= b@);
    }
    while i < a.len() && i < b.len() && a[i] == b[i]
        invariant
            i <= a@.len(),
            i <= b@.len(),
            text_less(a@, b@) == text_less(a@.skip(i as int), b@.skip(i as int)),
        decreases a@.len() - i,
    {
        proof {
            assert(a@.skip(i as int).skip(1) =~= a@.skip(i + 1));
            assert(b@.skip(i as int).skip(1) =~= b@.skip(i + 1));
        }
        i += 1;
    }
    if i >= b.len() {
        false
    } else if i >= a.len() {
        true
    } else {
        a[i] < b[i]
    }
}

/// The positions of `keys` in stable order.
pub fn sort_positions(keys: &Vec<SortKey>) -> (r: Vec<usize>)
    ensures
        stable_order(key_views(keys@), r@),
{
    let ghost kv = key_views(keys@);
    let mut texts: Vec<Vec<char>> = Vec::new();
    let mut t: usize = 0;
    while t < keys.len()
        invariant
            t <= keys@.len(),
            texts@.len() == t,
            forall|i: int| 0 <= i < t ==> (#[trigger] texts@[i])@ == keys@[i].text@,
        decreases keys@.len() - t,
    {
        texts.push(chars_of(&keys[t].text));
        t += 1;
    }
    let mut r: Vec<usize> = Vec::new();
    let mut n: usize = 0;
    while n < keys.len()
        invariant
            kv == key_views(keys@),
            texts@.len() == keys@.len(),
            forall|i: int| 0 <= i < keys@.len() ==> (#[trigger] texts@[i])@ == keys@[i].text@,
            n <= keys@.len(),
            r@.len() == n,
            forall|i: int| 0 <= i < n ==> (#[trigger] r@[i]) < n,
            forall|k: usize| k < n ==> #[trigger] r@.contains(k),
            forall|i: int, j: int|
                0 <= i < j < n ==> comes_before(
                    kv,
                    #[trigger] r@[i] as int,
                    #[trigger] r@[j] as int,
                ),
        decreases keys@.len() - n,
    {
        let mut p: usize = 0;
        while p < r.len() && !(keys[n].number < keys[r[p]].number || (keys[n].number
            == keys[r[p]].number && is_text_less(&texts[n], &texts[r[p]])))
            invariant
                kv == key_views(keys@),
                texts@.len() == keys@.len(),
                forall|i: int| 0 <= i < keys@.len() ==> (#[trigger] texts@[i])@ == keys@[i].text@,
                n < keys@.len(),
                r@.len() == n,
                p <= n,
                forall|i: int| 0 <= i < n ==> (#[trigger] r@[i]) < n,
                forall|i: int| 0 <= i < p ==> !key_less(kv[n as int], kv[#[trigger] r@[i] as int]),
            decreases n - p,
        {
            p += 1;
        }
        let ghost before = r@;
        r.insert(p, n);
        proof {
            let after = before.insert(p as int, n);
            assert(r@ == after);
            assert forall|i: int, j: int| 0 <= i < j < n + 1 implies comes_before(
                kv,
                #[trigger] after[i] as int,
                #[trigger] after[j] as int,
            ) by {
                let a = if i < p {
                    before[i]
                } else if i == p {
                    n
                } else {
                    before[i - 1]
                };
                let b = if j < p {
                    before[j]
                } else if j == p {
                    n
                } else {
                    before[j - 1]
                };
                assert(after[i] == a);
                assert(after[j] == b);
                if j == p {
                    lemma_text_total(kv[n as int].1, kv[before[i] as int].1);
                } else if i == p {
                    assert(key_less(kv[n as int], kv[before[p as int] as int]));
                    assert(comes_before(kv, n as int, before[p as int] as int));
                    if j - 1 > p {
                        assert(comes_before(kv, before[p as int] as int, before[j - 1] as int));
                        lemma_before_transitive(
                            kv,
                            n as int,
                            before[p as int] as int,
                            before[j - 1] as int,
                        );
                    }
                }
            }
            assert forall|k: usize| k < n + 1 implies #[trigger] after.contains(k) by {
                if k == n {
                    assert(after[p as int] == n);
                } else {
                    assert(before.contains(k));
                    let q = choose|q: int| 0 <= q < before.len() && before[q] == k;
                    if q < p {
                        assert(after[q] == k);
                    } else {
                        assert(after[q + 1] == k);
                    }
                }
            }
        }
        n += 1;
    }
    r
}

/// In the dictionary order the first character in which two texts differ decides, and a text comes
/// before every longer one that starts with it.
pub proof fn law_dictionary_order(
    common: Seq<char>,
    c: char,
    d: char,
    x: Seq<char>,
    y: Seq<char>,
)
    requires
        c < d,
    ensures
        text_less(common + seq![c] + x, common + seq![d] + y),
        !text_less(common + seq![d] + y, common + seq![c] + x),
        text_less(common, common + seq![c] + x),
        !text_less(common + seq![c] + x, common),
        !text_less(common, common),
    decreases common.len(),
{
    lemma_text_irreflexive(common);
    let a = common + seq![c] + x;
    let b = common + seq![d] + y;
    if common.len() == 0 {
        assert(a[0] == c && b[0] == d);
    } else {
        let rest = common.skip(1);
        law_dictionary_order(rest, c, d, x, y);
        assert(a.skip(1) =~= rest + seq![c] + x);
        assert(b.skip(1) =~= rest + seq![d] + y);
        assert(a[0] == common[0] && b[0] == common[0]);
    }
}

/// A list in stable order never goes down, and what is equal stays in its order.
pub proof fn law_stable_order_sorts(keys: Seq<(u128, Seq<char>)>, r: Seq<usize>, i: int, j: int)
    requires
        stable_order(keys, r),
        0 <= i < j < r.len(),
    ensures
        keys[r[i] as int].0 <= keys[r[j] as int].0,
        keys[r[i] as int].0 == keys[r[j] as int].0 ==> !text_less(
            keys[r[j] as int].1,
            keys[r[i] as int].1,
        ),
        keys[r[i] as int] == keys[r[j] as int] ==> r[i] < r[j],
        r[i] != r[j],
{
    let a = keys[r[i] as int];
    let b = keys[r[j] as int];
    assert(comes_before(keys, r[i] as int, r[j] as int));
    lemma_text_irreflexive(a.1);
    if text_less(a.1, b.1) && text_less(b.1, a.1) {
        lemma_text_transitive(a.1, b.1, a.1);
    }
    lemma_before_irreflexive(keys, r[i] as int);
}

} // verus!
