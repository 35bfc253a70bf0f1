//! The order of strings by their chars (the order of `str`'s `Ord`, since
//! UTF-8 byte order agrees with code point order), and a sort by it.
use vstd::prelude::*;
use vstd::relations::{sorted_by, total_ordering};

verus! {

broadcast use vstd::seq_lib::group_to_multiset_ensures;

/// `a` comes no later than `b` in lexicographic code point order.
pub open spec fn lex_le(a: Seq<char>, b: Seq<char>) -> bool
    decreases a.len(),
{
    if a.len() == 0 {
        true
    } else if b.len() == 0 {
        false
    } else if a[0] != b[0] {
        (a[0] as int) < (b[0] as int)
    } else {
        lex_le(a.drop_first(), b.drop_first())
    }
}

/// The order as a relation.
pub open spec fn lex_leq() -> spec_fn(Seq<char>, Seq<char>) -> bool {
    |a: Seq<char>, b: Seq<char>| lex_le(a, b)
}

proof fn lemma_lex_reflexive(a: Seq<char>)
    ensures
        lex_le(a, a),
    decreases a.len(),
{
    if a.len() > 0 {
        lemma_lex_reflexive(a.drop_first());
    }
}

proof fn lemma_lex_antisymmetric(a: Seq<char>, b: Seq<char>)
    requires
        lex_le(a, b),
        lex_le(b, a),
    ensures
        a == b,
    decreases a.len(),
{
    if a.len() > 0 && b.len() > 0 {
        if a[0] == b[0] {
            lemma_lex_antisymmetric(a.drop_first(), b.drop_first());
            assert(a =~= seq![a[0]] + a.drop_first());
            assert(b =~= seq![b[0]] + b.drop_first());
        }
    }
}

proof fn lemma_lex_transitive(a: Seq<char>, b: Seq<char>, c: Seq<char>)
    requires
        lex_le(a, b),
        lex_le(b, c),
    ensures
        lex_le(a, c),
    decreases a.len(),
{
    if a.len() > 0 && b.len() > 0 && c.len() > 0 {
        if a[0] == b[0] && b[0] == c[0] {
            lemma_lex_transitive(a.drop_first(), b.drop_first(), c.drop_first());
        }
    }
}

proof fn lemma_lex_total(a: Seq<char>, b: Seq<char>)
    ensures
        lex_le(a, b) || lex_le(b, a),
    decreases a.len(),
{
    if a.len() > 0 && b.len() > 0 && a[0] == b[0] {
        lemma_lex_total(a.drop_first(), b.drop_first());
    }
}

/// The lexicographic order is a total order.
pub proof fn lemma_lex_total_ordering()
    ensures
        total_ordering(lex_leq()),
{
    assert forall|a: Seq<char>| #[trigger] lex_leq()(a, a) by {
        lemma_lex_reflexive(a);
    }
    assert forall|a: Seq<char>, b: Seq<char>| #[trigger]
        lex_leq()(a, b) && #[trigger] lex_leq()(b, a) implies a == b by {
        lemma_lex_antisymmetric(a, b);
    }
    assert forall|a: Seq<char>, b: Seq<char>, c: Seq<char>| #[trigger]
        lex_leq()(a, b) && #[trigger] lex_leq()(b, c) implies lex_leq()(a, c) by {
        lemma_lex_transitive(a, b, c);
    }
    assert forall|a: Seq<char>, b: Seq<char>| #[trigger]
        lex_leq()(a, b) || #[trigger] lex_leq()(b, a) by {
        lemma_lex_total(a, b);
    }
}

/// Whether `a` comes no later than `b`.
pub fn chars_le(a: &Vec<char>, b: &Vec<char>) -> (r: bool)
    ensures
        r == lex_le(a@, b@),
{
    let mut i: usize = 0;
    assert(a@.skip(0) =~= a@);
    assert(b@.skip(0) =~= b@);
    while i < a.len() && i < b.len()
        invariant
            i <= a@.len(),
            i <= b@.len(),
            forall|j: int| 0 <= j < i ==> a@[j] == b@[j],
            lex_le(a@, b@) == lex_le(a@.skip(i as int), b@.skip(i as int)),
        decreases a@.len() - i,
    {
        if a[i] != b[i] {
            return a[i] < b[i];
        }
        assert(a@.skip(i as int).drop_first() =~= a@.skip(i + 1));
        assert(b@.skip(i as int).drop_first() =~= b@.skip(i + 1));
        i += 1;
    }
    i == a.len()
}

/// The char sequences of `v`.
pub open spec fn views(v: Seq<Vec<char>>) -> Seq<Seq<char>> {
    v.map_values(|c: Vec<char>| c@)
}

/// The sequences of `v`, sorted in lexicographic order.
pub fn sort_chars(v: Vec<Vec<char>>) -> (res: Vec<Vec<char>>)
    ensures
        views(res@) == views(v@).sort_by(lex_leq()),
{
    let ghost input = views(v@);
    let mut out: Vec<Vec<char>> = Vec::new();
    let mut i: usize = 0;
    proof {
        lemma_lex_total_ordering();
        assert(views(out@) =~= input.take(0));
    }
    while i < v.len()
        invariant
            input == views(v@),
            i <= v@.len(),
            total_ordering(lex_leq()),
            sorted_by(views(out@), lex_leq()),
            views(out@).to_multiset() == input.take(i as int).to_multiset(),
        decreases v@.len() - i,
    {
        let x = v[i].clone();
        assert(x@ == input[i as int]);
        let ghost before = views(out@);
        // Insert after every element that is no later than x.
        let mut p: usize = 0;
        while p < out.len() && chars_le(&out[p], &x)
            invariant
                p <= out@.len(),
                before == views(out@),
                forall|k: int| 0 <= k < p ==> lex_le(#[trigger] before[k], x@),
            decreases out@.len() - p,
        {
            assert(before[p as int] == out@[p as int]@);
            p += 1;
        }
        proof {
            if p < before.len() {
                assert(before[p as int] == out@[p as int]@);
                lemma_lex_total(x@, before[p as int]);
                assert forall|j: int| p <= j < before.len() implies lex_le(x@, #[trigger] before[j]) by {
                    if j > p {
                        assert(lex_leq()(before[p as int], before[j]));
                        lemma_lex_transitive(x@, before[p as int], before[j]);
                    }
                }
            }
        }
        out.insert(p, x);
        proof {
            let o = views(out@);
            assert(o =~= before.insert(p as int, x@));
            vstd::seq_lib::to_multiset_insert(before, p as int, x@);
            assert(input.take(i + 1) =~= input.take(i as int).push(x@));
            vstd::seq_lib::to_multiset_build(input.take(i as int), x@);
            assert forall|a: int, b: int| 0 <= a < b < o.len() implies #[trigger]
                lex_leq()(o[a], o[b]) by {
                if b < p {
                    assert(lex_leq()(before[a], before[b]));
                } else if b == p {
                } else if a < p {
                    assert(lex_le(x@, before[b - 1]));
                    lemma_lex_transitive(before[a], x@, before[b - 1]);
                } else if a == p {
                } else {
                    assert(lex_leq()(before[a - 1], before[b - 1]));
                }
            }
        }
        i += 1;
    }
    proof {
        assert(input.take(v@.len() as int) =~= input);
        input.lemma_sort_by_ensures(lex_leq());
        vstd::seq_lib::lemma_sorted_unique(views(out@), input.sort_by(lex_leq()), lex_leq());
    }
    out
}

/// The order of directory entries: by name, then files before
/// directories.
pub open spec fn entry_le(a: (Seq<char>, bool), b: (Seq<char>, bool)) -> bool {
    lex_le(a.0, b.0) && (a.0 == b.0 ==> (!a.1 || b.1))
}

/// The entry order as a relation.
pub open spec fn entry_leq() -> spec_fn((Seq<char>, bool), (Seq<char>, bool)) -> bool {
    |a: (Seq<char>, bool), b: (Seq<char>, bool)| entry_le(a, b)
}

proof fn lemma_entry_transitive(a: (Seq<char>, bool), b: (Seq<char>, bool), c: (Seq<char>, bool))
    requires
        entry_le(a, b),
        entry_le(b, c),
    ensures
        entry_le(a, c),
{
    lemma_lex_transitive(a.0, b.0, c.0);
    if a.0 == c.0 {
        lemma_lex_antisymmetric(a.0, b.0);
    }
}

proof fn lemma_entry_total(a: (Seq<char>, bool), b: (Seq<char>, bool))
    ensures
        entry_le(a, b) || entry_le(b, a),
{
    lemma_lex_total(a.0, b.0);
    if a.0 == b.0 {
        lemma_lex_reflexive(a.0);
    }
}

/// The entry order is a total order.
pub proof fn lemma_entry_total_ordering()
    ensures
        total_ordering(entry_leq()),
{
    assert forall|a: (Seq<char>, bool)| #[trigger] entry_leq()(a, a) by {
        lemma_lex_reflexive(a.0);
    }
    assert forall|a: (Seq<char>, bool), b: (Seq<char>, bool)| #[trigger]
        entry_leq()(a, b) && #[trigger] entry_leq()(b, a) implies a == b by {
        lemma_lex_antisymmetric(a.0, b.0);
    }
    assert forall|a: (Seq<char>, bool), b: (Seq<char>, bool), c: (Seq<char>, bool)| #[trigger]
        entry_leq()(a, b) && #[trigger] entry_leq()(b, c) implies entry_leq()(a, c) by {
        lemma_entry_transitive(a, b, c);
    }
    assert forall|a: (Seq<char>, bool), b: (Seq<char>, bool)| #[trigger]
        entry_leq()(a, b) || #[trigger] entry_leq()(b, a) by {
        lemma_entry_total(a, b);
    }
}

/// The name chars and flag of each entry.
pub open spec fn entry_views(v: Seq<(Vec<char>, bool)>) -> Seq<(Seq<char>, bool)> {
    v.map_values(|e: (Vec<char>, bool)| (e.0@, e.1))
}

fn entry_le_exec(a: &(Vec<char>, bool), b: &(Vec<char>, bool)) -> (r: bool)
    ensures
        r == entry_le((a.0@, a.1), (b.0@, b.1)),
{
    let le = chars_le(&a.0, &b.0);
    let ge = chars_le(&b.0, &a.0);
    proof {
        if le && ge {
            lemma_lex_antisymmetric(a.0@, b.0@);
        }
        if a.0@ == b.0@ {
            lemma_lex_reflexive(a.0@);
        }
    }
    le && (!(le && ge) || (!a.1 || b.1))
}

/// The entries of `v`, sorted by name and then by flag.
pub fn sort_entries(v: Vec<(Vec<char>, bool)>) -> (res: Vec<(Vec<char>, bool)>)
    ensures
        entry_views(res@) == entry_views(v@).sort_by(entry_leq()),
{
    let ghost input = entry_views(v@);
    let mut out: Vec<(Vec<char>, bool)> = Vec::new();
    let mut i: usize = 0;
    proof {
        lemma_entry_total_ordering();
        assert(entry_views(out@) =~= input.take(0));
    }
    while i < v.len()
        invariant
            input == entry_views(v@),
            i <= v@.len(),
            total_ordering(entry_leq()),
            sorted_by(entry_views(out@), entry_leq()),
            entry_views(out@).to_multiset() == input.take(i as int).to_multiset(),
        decreases v@.len() - i,
    {
        let x = (v[i].0.clone(), v[i].1);
        let ghost xv = (x.0@, x.1);
        assert(xv == input[i as int]);
        let ghost before = entry_views(out@);
        let mut p: usize = 0;
        while p < out.len() && entry_le_exec(&out[p], &x)
            invariant
                p <= out@.len(),
                before == entry_views(out@),
                xv == (x.0@, x.1),
                forall|k: int| 0 <= k < p ==> entry_le(#[trigger] before[k], xv),
            decreases out@.len() - p,
        {
            assert(before[p as int] == (out@[p as int].0@, out@[p as int].1));
            p += 1;
        }
        proof {
            if p < before.len() {
                assert(before[p as int] == (out@[p as int].0@, out@[p as int].1));
                lemma_entry_total(xv, before[p as int]);
                assert forall|j: int| p <= j < before.len() implies entry_le(xv, #[trigger] before[j]) by {
                    if j > p {
                        assert(entry_leq()(before[p as int], before[j]));
                        lemma_entry_transitive(xv, before[p as int], before[j]);
                    }
                }
            }
        }
        out.insert(p, x);
        proof {
            let o = entry_views(out@);
            assert(o =~= before.insert(p as int, xv));
            vstd::seq_lib::to_multiset_insert(before, p as int, xv);
            assert(input.take(i + 1) =~= input.take(i as int).push(xv));
            vstd::seq_lib::to_multiset_build(input.take(i as int), xv);
            assert forall|a: int, b: int| 0 <= a < b < o.len() implies #[trigger]
                entry_leq()(o[a], o[b]) by {
                if b < p {
                    assert(entry_leq()(before[a], before[b]));
                } else if b == p {
                } else if a < p {
                    assert(entry_le(xv, before[b - 1]));
                    lemma_entry_transitive(before[a], xv, before[b - 1]);
                } else if a == p {
                } else {
                    assert(entry_leq()(before[a - 1], before[b - 1]));
                }
            }
        }
        i += 1;
    }
    proof {
        assert(input.take(v@.len() as int) =~= input);
        input.lemma_sort_by_ensures(entry_leq());
        vstd::seq_lib::lemma_sorted_unique(entry_views(out@), input.sort_by(entry_leq()), entry_leq());
    }
    out
}

} // verus!
