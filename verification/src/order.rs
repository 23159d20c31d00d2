//! The order lists are shown in: files newest first, and skyboxes by their
//! lower-cased label.  Both orders are stable: entries that tie keep the
//! order they were found in.
use vstd::prelude::*;
use crate::detect::{lower_keys, unicode_lowercase};
use crate::text::chars_of;

verus! {

broadcast use vstd::seq_lib::group_seq_properties;

/// Text order, character by character (the order of `str`'s `cmp`: a
/// prefix comes first).
pub open spec fn lex_lt(a: Seq<char>, b: Seq<char>) -> bool
    decreases a.len(),
{
    if a.len() == 0 {
        b.len() > 0
    } else if b.len() == 0 {
        false
    } else if a[0] != b[0] {
        a[0] < b[0]
    } else {
        lex_lt(a.drop_first(), b.drop_first())
    }
}

proof fn lemma_lex_irreflexive(a: Seq<char>)
    ensures
        !lex_lt(a, a),
    decreases a.len(),
{
    if a.len() > 0 {
        lemma_lex_irreflexive(a.drop_first());
    }
}

proof fn lemma_lex_transitive(a: Seq<char>, b: Seq<char>, c: Seq<char>)
    requires
        lex_lt(a, b),
        lex_lt(b, c),
    ensures
        lex_lt(a, c),
    decreases a.len(),
{
    if a.len() > 0 && b.len() > 0 && c.len() > 0 && a[0] == b[0] && b[0] == c[0] {
        lemma_lex_transitive(a.drop_first(), b.drop_first(), c.drop_first());
    }
}

proof fn lemma_lex_total(a: Seq<char>, b: Seq<char>)
    ensures
        a == b || lex_lt(a, b) || lex_lt(b, a),
    decreases a.len(),
{
    if a.len() > 0 && b.len() > 0 && a[0] == b[0] {
        lemma_lex_total(a.drop_first(), b.drop_first());
        if a.drop_first() == b.drop_first() {
            assert(a =~= seq![a[0]] + a.drop_first());
            assert(b =~= seq![b[0]] + b.drop_first());
        }
    } else if a.len() == 0 && b.len() == 0 {
        assert(a =~= b);
    }
}

/// Whether `a` comes before `b` in text order.
fn lex_less(a: &Vec<char>, b: &Vec<char>) -> (r: bool)
    ensures
        r == lex_lt(a@, b@),
{
    let mut i: usize = 0;
    assert(a@.skip(0) =~= a@ && b@.skip(0) =~= b@);
    loop
        invariant
            i <= a.len(),
            i <= b.len(),
            lex_lt(a@, b@) == lex_lt(a@.skip(i as int), b@.skip(i as int)),
        decreases a.len() - i,
    {
        if i == a.len() {
            return i < b.len();
        }
        if i == b.len() {
            return false;
        }
        assert(a@.skip(i as int)[0] == a@[i as int] && b@.skip(i as int)[0] == b@[i as int]);
        if a[i] != b[i] {
            return a[i] < b[i];
        }
        assert(a@.skip(i as int).drop_first() =~= a@.skip(i + 1));
        assert(b@.skip(i as int).drop_first() =~= b@.skip(i + 1));
        i = i + 1;
    }
}

/// Newest first, ties in the order found: entry `i` comes before entry `j`.
pub open spec fn newer_before(secs: Seq<u64>, i: int, j: int) -> bool {
    secs[i] > secs[j] || (secs[i] == secs[j] && i < j)
}

/// By label, ties in the order found: entry `i` comes before entry `j`.
pub open spec fn label_before(keys: Seq<Seq<char>>, i: int, j: int) -> bool {
    lex_lt(keys[i], keys[j]) || (keys[i] == keys[j] && i < j)
}

/// `ord` lists the positions `0..n` newest first.
pub open spec fn newest_order(secs: Seq<u64>, ord: Seq<int>) -> bool {
    &&& ord.len() == secs.len()
    &&& forall|i: int| 0 <= i < ord.len() ==> 0 <= #[trigger] ord[i] < secs.len()
    &&& forall|i: int, j: int|
        0 <= i < j < ord.len() ==> newer_before(secs, #[trigger] ord[i], #[trigger] ord[j])
}

/// `ord` lists the positions `0..n` by label.
pub open spec fn label_order(keys: Seq<Seq<char>>, ord: Seq<int>) -> bool {
    &&& ord.len() == keys.len()
    &&& forall|i: int| 0 <= i < ord.len() ==> 0 <= #[trigger] ord[i] < keys.len()
    &&& forall|i: int, j: int|
        0 <= i < j < ord.len() ==> label_before(keys, #[trigger] ord[i], #[trigger] ord[j])
}

/// The positions of entries with modification times `secs`, newest
/// first, ties in the order found.
fn newest_positions(secs: &Vec<u64>) -> (ord: Vec<usize>)
    ensures
        newest_order(secs@, ord@.map_values(|k: usize| k as int)),
{
    let mut ord: Vec<usize> = Vec::new();
    for k in 0..secs.len()
        invariant
            ord.len() == k,
            forall|i: int| 0 <= i < k ==> #[trigger] ord@[i] < k,
            forall|i: int, j: int|
                0 <= i < j < k ==> newer_before(secs@, #[trigger] ord@[i] as int, #[trigger] ord@[j] as int),
    {
        let mut p: usize = k;
        while p > 0 && secs[ord[p - 1]] < secs[k]
            invariant
                p <= k,
                ord.len() == k,
                k < secs.len(),
                forall|i: int| 0 <= i < k ==> #[trigger] ord@[i] < k,
                forall|q: int| p <= q < k ==> secs@[#[trigger] ord@[q] as int] < secs@[k as int],
            decreases p,
        {
            p = p - 1;
        }
        let ghost old_ord = ord@;
        proof {
            assert forall|q: int| 0 <= q < p implies newer_before(secs@, #[trigger] old_ord[q] as int, k as int) by {
                assert(secs@[old_ord[p - 1] as int] >= secs@[k as int]);
                if q < p - 1 {
                    assert(newer_before(secs@, old_ord[q] as int, old_ord[p - 1] as int));
                }
            }
        }
        ord.insert(p, k);
        assert(ord@ == old_ord.insert(p as int, k));
        assert forall|i: int, j: int|
            0 <= i < j < k + 1 implies newer_before(secs@, #[trigger] ord@[i] as int, #[trigger] ord@[j] as int) by {
            if j < p {
                assert(ord@[i] == old_ord[i] && ord@[j] == old_ord[j]);
            } else if j == p {
                assert(ord@[i] == old_ord[i]);
            } else if i < p {
                assert(ord@[i] == old_ord[i] && ord@[j] == old_ord[j - 1]);
                assert(newer_before(secs@, old_ord[i] as int, k as int));
                assert(secs@[old_ord[j - 1] as int] < secs@[k as int]);
            } else if i == p {
                assert(ord@[j] == old_ord[j - 1]);
            } else {
                assert(ord@[i] == old_ord[i - 1] && ord@[j] == old_ord[j - 1]);
            }
        }
        assert forall|i: int| 0 <= i < k + 1 implies #[trigger] ord@[i] < k + 1 by {
            if i < p {
                assert(ord@[i] == old_ord[i]);
            } else if i > p {
                assert(ord@[i] == old_ord[i - 1]);
            }
        }
    }
    proof {
        let o = ord@.map_values(|k: usize| k as int);
        assert forall|i: int, j: int| 0 <= i < j < o.len() implies newer_before(secs@, #[trigger] o[i], #[trigger] o[j]) by {
            assert(o[i] == ord@[i] as int && o[j] == ord@[j] as int);
        }
        assert forall|i: int| 0 <= i < o.len() implies 0 <= #[trigger] o[i] < secs.len() by {
            assert(o[i] == ord@[i] as int);
        }
    }
    ord
}

/// Files newest first by their modification time in seconds, files with
/// the same time in the order they were found.
pub fn newest_first(files: &Vec<(String, u64)>) -> (r: Vec<String>)
    ensures
        exists|ord: Seq<int>|
            newest_order(files@.map_values(|f: (String, u64)| f.1), ord) && r.len() == ord.len()
                && forall|i: int| 0 <= i < r.len() ==> #[trigger] r@[i]@ == files@[ord[i]].0@,
{
    let mut secs: Vec<u64> = Vec::new();
    for i in 0..files.len()
        invariant
            secs@ == files@.take(i as int).map_values(|f: (String, u64)| f.1),
    {
        secs.push(files[i].1);
        assert(files@.take(i + 1) =~= files@.take(i as int).push(files@[i as int]));
    }
    assert(files@.take(files.len() as int) =~= files@);
    let ord = newest_positions(&secs);
    let ghost o = ord@.map_values(|k: usize| k as int);
    let mut r: Vec<String> = Vec::new();
    for m in 0..ord.len()
        invariant
            ord.len() == files.len(),
            secs@ == files@.map_values(|f: (String, u64)| f.1),
            o == ord@.map_values(|k: usize| k as int),
            newest_order(secs@, o),
            r.len() == m,
            forall|i: int| 0 <= i < m ==> #[trigger] r@[i]@ == files@[o[i]].0@,
    {
        assert(0 <= o[m as int] < secs.len());
        r.push(files[ord[m]].0.clone());
    }
    r
}

/// The positions of entries with lower-cased labels `kv`, by label, ties
/// in the order found.
fn label_positions(kv: &Vec<Vec<char>>) -> (ord: Vec<usize>)
    ensures
        label_order(kv@.map_values(|v: Vec<char>| v@), ord@.map_values(|k: usize| k as int)),
{
    let ghost keys = kv@.map_values(|v: Vec<char>| v@);
    assert forall|j: int| 0 <= j < kv.len() implies #[trigger] kv@[j]@ == keys[j] by {}
    let mut ord: Vec<usize> = Vec::new();
    for k in 0..kv.len()
        invariant
            kv.len() == keys.len(),
            keys == kv@.map_values(|v: Vec<char>| v@),
            forall|j: int| 0 <= j < kv.len() ==> #[trigger] kv@[j]@ == keys[j],
            ord.len() == k,
            forall|i: int| 0 <= i < k ==> #[trigger] ord@[i] < k,
            forall|i: int, j: int|
                0 <= i < j < k ==> label_before(keys, #[trigger] ord@[i] as int, #[trigger] ord@[j] as int),
    {
        let mut p: usize = k;
        while p > 0 && lex_less(&kv[k], &kv[ord[p - 1]])
            invariant
                p <= k,
                ord.len() == k,
                k < kv.len(),
                kv.len() == keys.len(),
                forall|j: int| 0 <= j < kv.len() ==> #[trigger] kv@[j]@ == keys[j],
                forall|i: int| 0 <= i < k ==> #[trigger] ord@[i] < k,
                forall|q: int| p <= q < k ==> lex_lt(keys[k as int], keys[#[trigger] ord@[q] as int]),
            decreases p,
        {
            assert(kv@[ord@[p - 1] as int]@ == keys[ord@[p - 1] as int]);
            p = p - 1;
        }
        let ghost old_ord = ord@;
        proof {
            if p > 0 {
                let w = old_ord[p - 1] as int;
                assert(kv@[w]@ == keys[w]);
                assert(!lex_lt(keys[k as int], keys[w]));
                lemma_lex_total(keys[k as int], keys[w]);
                assert(label_before(keys, w, k as int));
            }
            assert forall|q: int| 0 <= q < p implies label_before(keys, #[trigger] old_ord[q] as int, k as int) by {
                let w = old_ord[p - 1] as int;
                let x = old_ord[q] as int;
                if q < p - 1 {
                    assert(label_before(keys, x, w));
                    if lex_lt(keys[x], keys[w]) && lex_lt(keys[w], keys[k as int]) {
                        lemma_lex_transitive(keys[x], keys[w], keys[k as int]);
                    }
                }
            }
        }
        ord.insert(p, k);
        assert(ord@ == old_ord.insert(p as int, k));
        assert forall|i: int, j: int|
            0 <= i < j < k + 1 implies label_before(keys, #[trigger] ord@[i] as int, #[trigger] ord@[j] as int) by {
            if j < p {
                assert(ord@[i] == old_ord[i] && ord@[j] == old_ord[j]);
            } else if j == p {
                assert(ord@[i] == old_ord[i]);
            } else if i < p {
                assert(ord@[i] == old_ord[i] && ord@[j] == old_ord[j - 1]);
                let x = old_ord[i] as int;
                let y = old_ord[j - 1] as int;
                assert(label_before(keys, x, k as int));
                assert(lex_lt(keys[k as int], keys[y]));
                if lex_lt(keys[x], keys[k as int]) {
                    lemma_lex_transitive(keys[x], keys[k as int], keys[y]);
                }
            } else if i == p {
                assert(ord@[j] == old_ord[j - 1]);
            } else {
                assert(ord@[i] == old_ord[i - 1] && ord@[j] == old_ord[j - 1]);
            }
        }
        assert forall|i: int| 0 <= i < k + 1 implies #[trigger] ord@[i] < k + 1 by {
            if i < p {
                assert(ord@[i] == old_ord[i]);
            } else if i > p {
                assert(ord@[i] == old_ord[i - 1]);
            }
        }
    }
    let ghost o = ord@.map_values(|k: usize| k as int);
    proof {
        assert forall|i: int, j: int| 0 <= i < j < o.len() implies label_before(keys, #[trigger] o[i], #[trigger] o[j]) by {
            assert(o[i] == ord@[i] as int && o[j] == ord@[j] as int);
        }
        assert forall|i: int| 0 <= i < o.len() implies 0 <= #[trigger] o[i] < keys.len() by {
            assert(o[i] == ord@[i] as int);
        }
    }
    ord
}

/// The lower-cased labels of the entries, as characters.
fn lowered_labels(entries: &Vec<(String, String)>) -> (kv: Vec<Vec<char>>)
    ensures
        kv@.map_values(|v: Vec<char>| v@) == entries@.map_values(
            |e: (String, String)| unicode_lowercase(e.0@),
        ),
{
    let mut labels: Vec<String> = Vec::new();
    for i in 0..entries.len()
        invariant
            labels.len() == i,
            labels@.map_values(|s: String| s@) == entries@.take(i as int).map_values(
                |e: (String, String)| e.0@,
            ),
    {
        let ghost before = labels@;
        labels.push(entries[i].0.clone());
        assert(labels@ =~= before.push(labels@[i as int]));
        assert(entries@.take(i + 1) =~= entries@.take(i as int).push(entries@[i as int]));
        assert(labels@.map_values(|s: String| s@) =~= before.map_values(|s: String| s@).push(
            entries@[i as int].0@,
        ));
    }
    assert(entries@.take(entries.len() as int) =~= entries@);
    let low = lower_keys(&labels);
    let ghost keys = entries@.map_values(|e: (String, String)| unicode_lowercase(e.0@));
    assert forall|j: int| 0 <= j < labels.len() implies #[trigger] labels@[j]@ == entries@[j].0@ by {
        assert(labels@.map_values(|s: String| s@)[j] == labels@[j]@);
    }
    assert(labels@.map_values(|s: String| unicode_lowercase(s@)) =~= keys);
    assert(low@.map_values(|s: String| s@) =~= keys);
    let mut kv: Vec<Vec<char>> = Vec::new();
    for i in 0..low.len()
        invariant
            kv.len() == i,
            low.len() == entries.len(),
            low@.map_values(|s: String| s@) == keys,
            forall|j: int| 0 <= j < i ==> #[trigger] kv@[j]@ == keys[j],
    {
        kv.push(chars_of(low[i].as_str()));
        assert(low@.map_values(|s: String| s@)[i as int] == low@[i as int]@);
    }
    assert(kv@.map_values(|v: Vec<char>| v@) =~= keys);
    kv
}

/// Skyboxes ordered by their lower-cased label, skyboxes with the same
/// lower-cased label in the order they were found.
pub fn by_label(entries: &Vec<(String, String)>) -> (r: Vec<(String, String)>)
    ensures
        exists|ord: Seq<int>|
            label_order(entries@.map_values(|e: (String, String)| unicode_lowercase(e.0@)), ord)
                && r.len() == ord.len() && forall|i: int|
                0 <= i < r.len() ==> #[trigger] r@[i].0@ == entries@[ord[i]].0@ && r@[i].1@
                    == entries@[ord[i]].1@,
{
    let kv = lowered_labels(entries);
    let ghost keys = entries@.map_values(|e: (String, String)| unicode_lowercase(e.0@));
    let ord = label_positions(&kv);
    let ghost o = ord@.map_values(|k: usize| k as int);
    assert(kv@.map_values(|v: Vec<char>| v@) =~= keys);
    let mut r: Vec<(String, String)> = Vec::new();
    for m in 0..ord.len()
        invariant
            ord.len() == entries.len(),
            o == ord@.map_values(|k: usize| k as int),
            label_order(keys, o),
            keys.len() == entries.len(),
            r.len() == m,
            forall|i: int| 0 <= i < m ==> (#[trigger] r@[i]).0@ == entries@[o[i]].0@,
            forall|i: int| 0 <= i < m ==> (#[trigger] r@[i]).1@ == entries@[o[i]].1@,
    {
        assert(0 <= o[m as int] < keys.len());
        let k = ord[m];
        r.push((entries[k].0.clone(), entries[k].1.clone()));
    }
    r
}

/// Whether position `k` occurs in `ord`.
pub open spec fn lists(ord: Seq<int>, k: int) -> bool {
    exists|i: int| 0 <= i < ord.len() && ord[i] == k
}

/// Distinct positions, `n` of them, all below `n`, name every position
/// below `n`.
proof fn lemma_positions_cover(ord: Seq<int>, n: nat)
    requires
        ord.len() == n,
        forall|i: int| 0 <= i < n ==> 0 <= #[trigger] ord[i] < n,
        forall|i: int, j: int| 0 <= i < j < n ==> #[trigger] ord[i] != #[trigger] ord[j],
    ensures
        forall|k: int| 0 <= k < n ==> #[trigger] lists(ord, k),
{
    assert(ord.no_duplicates()) by {
        assert forall|i: int, j: int| 0 <= i < ord.len() && 0 <= j < ord.len() && i != j implies ord[i]
            != ord[j] by {
            if i > j {
                assert(ord[j] != ord[i]);
            }
        }
    }
    ord.unique_seq_to_set();
    let range = vstd::set_lib::set_int_range(0, n as int);
    vstd::set_lib::lemma_int_range(0, n as int);
    assert(ord.to_set().subset_of(range)) by {
        assert forall|x: int| ord.to_set().contains(x) implies range.contains(x) by {
            let i = choose|i: int| 0 <= i < ord.len() && ord[i] == x;
        }
    }
    vstd::set_lib::lemma_subset_equality(ord.to_set(), range);
    assert forall|k: int| 0 <= k < n implies #[trigger] lists(ord, k) by {
        assert(range.contains(k));
        assert(ord.to_set().contains(k));
    }
}

/// Ordering newest first lists every file exactly once.
pub proof fn lemma_newest_order_each_once(secs: Seq<u64>, ord: Seq<int>)
    requires
        newest_order(secs, ord),
    ensures
        forall|i: int, j: int| 0 <= i < j < ord.len() ==> #[trigger] ord[i] != #[trigger] ord[j],
        forall|k: int| 0 <= k < secs.len() ==> #[trigger] lists(ord, k),
{
    assert forall|i: int, j: int| 0 <= i < j < ord.len() implies #[trigger] ord[i] != #[trigger] ord[j] by {
        assert(newer_before(secs, ord[i], ord[j]));
    }
    lemma_positions_cover(ord, secs.len());
}

/// Ordering by label lists every skybox exactly once.
pub proof fn lemma_label_order_each_once(keys: Seq<Seq<char>>, ord: Seq<int>)
    requires
        label_order(keys, ord),
    ensures
        forall|i: int, j: int| 0 <= i < j < ord.len() ==> #[trigger] ord[i] != #[trigger] ord[j],
        forall|k: int| 0 <= k < keys.len() ==> #[trigger] lists(ord, k),
{
    assert forall|i: int, j: int| 0 <= i < j < ord.len() implies #[trigger] ord[i] != #[trigger] ord[j] by {
        assert(label_before(keys, ord[i], ord[j]));
        if ord[i] == ord[j] {
            lemma_lex_irreflexive(keys[ord[i]]);
        }
    }
    lemma_positions_cover(ord, keys.len());
}

} // verus!
