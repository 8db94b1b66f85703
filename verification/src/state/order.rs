//! The order in which conflicting events are looked at.
use crate::text::{before, lemma_lex_irreflexive, lemma_lex_total, lemma_lex_transitive, lex_less};
use vstd::prelude::*;

verus! {

/// What events are ordered by: a rank, then the time, then the identifier.
pub struct SortKey {
    pub rank: usize,
    pub ts: i64,
    pub id: String,
}

/// What a `SortKey` says.
pub struct SortKeyView {
    pub rank: int,
    pub ts: int,
    pub id: Seq<char>,
}

impl View for SortKey {
    type V = SortKeyView;

    open spec fn view(&self) -> SortKeyView {
        SortKeyView { rank: self.rank as int, ts: self.ts as int, id: self.id@ }
    }
}

/// Whether one key comes before another.
pub open spec fn key_less(a: SortKeyView, b: SortKeyView) -> bool {
    a.rank < b.rank || (a.rank == b.rank && (a.ts < b.ts || (a.ts == b.ts && lex_less(
        a.id,
        b.id,
    ))))
}

/// Whether the keys stand in ascending order, each once.
pub open spec fn is_sorted(keys: Seq<SortKeyView>) -> bool {
    forall|i: int, j: int|
        0 <= i < j < keys.len() ==> key_less(#[trigger] keys[i], #[trigger] keys[j])
}

/// The keys of a set in ascending order.
pub open spec fn sorted(keys: Set<SortKeyView>) -> Seq<SortKeyView> {
    choose|s: Seq<SortKeyView>| #[trigger] is_sorted(s) && s.to_set() == keys
}

/// The identifiers in a list of keys.
pub open spec fn key_ids(keys: Seq<SortKeyView>) -> Seq<Seq<char>> {
    Seq::new(keys.len(), |i: int| keys[i].id)
}

/// What a list of keys says.
pub open spec fn key_views(keys: Seq<SortKey>) -> Seq<SortKeyView> {
    Seq::new(keys.len(), |i: int| keys[i]@)
}

/// No key comes before itself.
pub proof fn law_key_irreflexive(a: SortKeyView)
    ensures
        !key_less(a, a),
{
    lemma_lex_irreflexive(a.id);
}

/// A key that comes before another comes before all that come after that one.
pub proof fn law_key_transitive(a: SortKeyView, b: SortKeyView, c: SortKeyView)
    requires
        key_less(a, b),
        key_less(b, c),
    ensures
        key_less(a, c),
{
    if lex_less(a.id, b.id) && lex_less(b.id, c.id) {
        lemma_lex_transitive(a.id, b.id, c.id);
    }
}

/// Of two keys that differ, one comes before the other, and not the other way round.
pub proof fn law_key_total(a: SortKeyView, b: SortKeyView)
    requires
        a != b,
    ensures
        key_less(a, b) == !key_less(b, a),
{
    if a.id != b.id {
        lemma_lex_total(a.id, b.id);
    }
    if key_less(a, b) && key_less(b, a) {
        law_key_transitive(a, b, a);
        law_key_irreflexive(a);
    }
}

/// There is at most one way to put the keys of a set in ascending order.
pub proof fn lemma_sorted_unique(a: Seq<SortKeyView>, b: Seq<SortKeyView>)
    requires
        is_sorted(a),
        is_sorted(b),
        a.to_set() == b.to_set(),
    ensures
        a == b,
    decreases a.len(),
{
    if a.len() == 0 {
        if b.len() > 0 {
            assert(b.to_set().contains(b[0]));
            assert(a.contains(b[0]));
        }
        assert(a =~= b);
    } else {
        assert(a.to_set().contains(a[0]));
        assert(b.contains(a[0]));
        let j = choose|j: int| 0 <= j < b.len() && b[j] == a[0];
        assert(b.to_set().contains(b[0]));
        assert(a.contains(b[0]));
        let i = choose|i: int| 0 <= i < a.len() && a[i] == b[0];
        if j > 0 {
            assert(key_less(b[0], b[j]));
            if i > 0 {
                assert(key_less(a[0], a[i]));
                law_key_transitive(a[0], a[i], a[0]);
            }
            law_key_irreflexive(a[0]);
        }
        assert(a[0] == b[0]);
        let ra = a.drop_first();
        let rb = b.drop_first();
        assert forall|x: SortKeyView| ra.to_set().contains(x) == rb.to_set().contains(x) by {
            lemma_rest(a, x);
            lemma_rest(b, x);
            assert(a.to_set().contains(x) == a.contains(x));
            assert(b.to_set().contains(x) == b.contains(x));
        }
        assert(ra.to_set() =~= rb.to_set());
        lemma_sorted_unique(ra, rb);
        assert(a =~= seq![a[0]] + ra);
        assert(b =~= seq![b[0]] + rb);
    }
}

proof fn lemma_rest(a: Seq<SortKeyView>, x: SortKeyView)
    requires
        is_sorted(a),
        a.len() > 0,
    ensures
        a.drop_first().contains(x) == (a.contains(x) && x != a[0]),
{
    let r = a.drop_first();
    if r.contains(x) {
        let i = choose|i: int| 0 <= i < r.len() && r[i] == x;
        assert(a[i + 1] == x);
        assert(key_less(a[0], a[i + 1]));
        law_key_irreflexive(x);
    }
    if a.contains(x) && x != a[0] {
        let i = choose|i: int| 0 <= i < a.len() && a[i] == x;
        assert(r[i - 1] == x);
    }
}

/// An ascending list is the ordering of the set of its keys.
pub proof fn lemma_is_ordering(keys: Seq<SortKeyView>)
    requires
        is_sorted(keys),
    ensures
        sorted(keys.to_set()) == keys,
{
    let s = sorted(keys.to_set());
    assert(is_sorted(s) && s.to_set() == keys.to_set());
    lemma_sorted_unique(s, keys);
}

/// The keys of a finite set with distinct identifiers can be put in ascending order.
pub proof fn lemma_sorted(keys: Set<SortKeyView>)
    requires
        keys.finite(),
        forall|a: SortKeyView, b: SortKeyView| #[trigger]
            keys.contains(a) && #[trigger] keys.contains(b) && a.id == b.id ==> a == b,
    ensures
        is_sorted(sorted(keys)),
        sorted(keys).to_set() == keys,
    decreases keys.len(),
{
    if keys.len() == 0 {
        let none = Seq::<SortKeyView>::empty();
        assert(none.to_set() =~= keys);
        assert(is_sorted(none));
    } else {
        let k = keys.choose();
        assert(keys.contains(k));
        let rest = keys.remove(k);
        lemma_sorted(rest);
        let s = sorted(rest);
        assert forall|j: int| 0 <= j < s.len() implies (#[trigger] s[j]).id != k.id by {
            assert(s.to_set().contains(s[j]));
        }
        let t = lemma_placed(s, k);
        assert forall|x: SortKeyView| t.to_set().contains(x) == keys.contains(x) by {
            assert(s.to_set().contains(x) == s.contains(x));
        }
        assert(t.to_set() =~= keys);
        assert(is_sorted(t) && t.to_set() == keys);
    }
}

proof fn lemma_placed(s: Seq<SortKeyView>, k: SortKeyView) -> (t: Seq<SortKeyView>)
    requires
        is_sorted(s),
        forall|j: int| 0 <= j < s.len() ==> (#[trigger] s[j]).id != k.id,
    ensures
        is_sorted(t),
        forall|x: SortKeyView| #[trigger] t.contains(x) <==> s.contains(x) || x == k,
    decreases s.len(),
{
    if s.len() == 0 {
        let t = seq![k];
        assert(t[0] == k);
        t
    } else if key_less(k, s[0]) {
        let t = s.insert(0, k);
        assert forall|x: SortKeyView| #[trigger] t.contains(x) <==> s.contains(x) || x == k by {
            lemma_inserted(s, 0, k, x);
        }
        assert forall|i: int, j: int| 0 <= i < j < t.len() implies key_less(
            #[trigger] t[i],
            #[trigger] t[j],
        ) by {
            assert(t[j] == s[j - 1]);
            if i > 0 {
                assert(t[i] == s[i - 1]);
            } else if j > 1 {
                assert(key_less(s[0], s[j - 1]));
                law_key_transitive(k, s[0], s[j - 1]);
            }
        }
        t
    } else {
        law_key_total(s[0], k);
        let r = lemma_placed(s.drop_first(), k);
        let t = r.insert(0, s[0]);
        assert forall|x: SortKeyView| #[trigger] t.contains(x) <==> s.contains(x) || x == k by {
            lemma_inserted(r, 0, s[0], x);
            lemma_rest(s, x);
            assert(s.contains(s[0]));
        }
        assert forall|i: int, j: int| 0 <= i < j < t.len() implies key_less(
            #[trigger] t[i],
            #[trigger] t[j],
        ) by {
            assert(t[j] == r[j - 1]);
            if i > 0 {
                assert(t[i] == r[i - 1]);
            } else {
                assert(r.contains(r[j - 1]));
                if r[j - 1] != k {
                    lemma_rest(s, r[j - 1]);
                    let m = choose|m: int| 0 <= m < s.len() && s[m] == r[j - 1];
                    assert(key_less(s[0], s[m]));
                }
            }
        }
        t
    }
}

fn key_before(a: &SortKey, b: &SortKey) -> (r: bool)
    ensures
        r == key_less(a@, b@),
{
    a.rank < b.rank || (a.rank == b.rank && (a.ts < b.ts || (a.ts == b.ts && before(
        a.id.as_str(),
        b.id.as_str(),
    ))))
}

/// Puts keys with distinct identifiers in ascending order.
pub fn sort_keys(keys: Vec<SortKey>) -> (r: Vec<SortKey>)
    requires
        forall|i: int, j: int|
            0 <= i < j < keys@.len() ==> (#[trigger] keys@[i]).id@ != (#[trigger] keys@[j]).id@,
    ensures
        key_views(r@) == sorted(key_views(keys@).to_set()),
        is_sorted(key_views(r@)),
        key_views(r@).to_set() == key_views(keys@).to_set(),
{
    let ghost all = key_views(keys@);
    let mut rest = keys;
    let mut done: Vec<SortKey> = Vec::new();
    assert(all.skip(all.len() as int).len() == 0);
    assert(key_views(done@).to_set() =~= all.skip(all.len() as int).to_set());
    while rest.len() > 0
        invariant
            rest@.len() <= all.len(),
            key_views(rest@) == all.take(rest@.len() as int),
            forall|i: int, j: int|
                0 <= i < j < all.len() ==> (#[trigger] all[i]).id != (#[trigger] all[j]).id,
            is_sorted(key_views(done@)),
            key_views(done@).to_set() == all.skip(rest@.len() as int).to_set(),
        decreases rest@.len(),
    {
        let ghost n = rest@.len() as int;
        let ghost before_rest = key_views(rest@);
        let key = rest.pop().unwrap();
        proof {
            assert(before_rest[n - 1] == key@);
            assert(all.take(n)[n - 1] == all[n - 1]);
            assert(key_views(rest@) =~= all.take(n - 1));
        }
        let ghost old_done = key_views(done@);
        proof {
            assert forall|j: int| 0 <= j < old_done.len() implies (#[trigger] old_done[j]).id
                != key@.id by {
                assert(old_done.to_set().contains(old_done[j]));
                assert(all.skip(n).contains(old_done[j]));
                let m = choose|m: int| 0 <= m < all.skip(n).len() && all.skip(n)[m] == old_done[j];
                assert(all[n + m] == old_done[j]);
                assert(all[n - 1].id != all[n + m].id);
            }
        }
        let mut at: usize = 0;
        while at < done.len() && key_before(&done[at], &key)
            invariant
                at <= done@.len(),
                old_done == key_views(done@),
                forall|j: int| 0 <= j < at ==> key_less(#[trigger] old_done[j], key@),
            decreases done@.len() - at,
        {
            assert(old_done[at as int] == done@[at as int]@);
            at += 1;
        }
        let ghost k = key@;
        proof {
            if at < done@.len() {
                assert(old_done[at as int] == done@[at as int]@);
                law_key_total(old_done[at as int], k);
            }
        }
        done.insert(at, key);
        proof {
            let now = key_views(done@);
            assert(now =~= old_done.insert(at as int, k));
            assert forall|i: int, j: int| 0 <= i < j < now.len() implies key_less(
                #[trigger] now[i],
                #[trigger] now[j],
            ) by {
                let oi = if i < at {
                    i
                } else {
                    i - 1
                };
                let oj = if j < at {
                    j
                } else {
                    j - 1
                };
                if i == at {
                    assert(now[j] == old_done[oj]);
                    if oj > at {
                        assert(key_less(old_done[at as int], old_done[oj]));
                        law_key_transitive(k, old_done[at as int], old_done[oj]);
                    }
                } else if j == at {
                    assert(now[i] == old_done[i]);
                } else {
                    assert(now[i] == old_done[oi]);
                    assert(now[j] == old_done[oj]);
                }
            }
            assert forall|x: SortKeyView| now.to_set().contains(x) == all.skip(
                n - 1,
            ).to_set().contains(x) by {
                lemma_inserted(old_done, at as int, k, x);
                let s = all.skip(n - 1);
                assert(old_done.to_set().contains(x) == all.skip(n).to_set().contains(x));
                if s.contains(x) {
                    let m = choose|m: int| 0 <= m < s.len() && s[m] == x;
                    if m > 0 {
                        assert(all.skip(n)[m - 1] == x);
                    }
                }
                if all.skip(n).contains(x) {
                    let m = choose|m: int| 0 <= m < all.skip(n).len() && all.skip(n)[m] == x;
                    assert(s[m + 1] == x);
                }
                assert(s[0] == k);
            }
            assert(now.to_set() =~= all.skip(n - 1).to_set());
        }
    }
    proof {
        assert(all.skip(0) =~= all);
        lemma_is_ordering(key_views(done@));
    }
    done
}

proof fn lemma_inserted(s: Seq<SortKeyView>, at: int, k: SortKeyView, x: SortKeyView)
    requires
        0 <= at <= s.len(),
    ensures
        s.insert(at, k).contains(x) == (s.contains(x) || x == k),
{
    let t = s.insert(at, k);
    assert(t[at] == k);
    if s.contains(x) {
        let i = choose|i: int| 0 <= i < s.len() && s[i] == x;
        let j = if i < at {
            i
        } else {
            i + 1
        };
        assert(t[j] == x);
    }
    if t.contains(x) && x != k {
        let i = choose|i: int| 0 <= i < t.len() && t[i] == x;
        let j = if i < at {
            i
        } else {
            i - 1
        };
        assert(s[j] == x);
    }
}

} // verus!
