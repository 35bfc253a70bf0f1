//! Buffer names made unique among the open buffers, Emacs style: a name
//! that collides is qualified by trailing directories of the file's path
//! (`mod.rs<lib>`), and failing that numbered (`mod.rs<2>`).
use vstd::prelude::*;
use vstd::relations::injective_on;
use vstd::set_lib::{lemma_int_range, lemma_len_subset, lemma_map_size, set_int_range};

use crate::buffer::Buffer;
use crate::path::{components, components_exec, is_dot_dot, join_chars, join_slash};
use crate::text::{chars_of, str_eq, string_of};

verus! {

/// The decimal digit char of `d` (0 to 9).
pub open spec fn digit_char(d: int) -> char {
    if d == 0 {
        '0'
    } else if d == 1 {
        '1'
    } else if d == 2 {
        '2'
    } else if d == 3 {
        '3'
    } else if d == 4 {
        '4'
    } else if d == 5 {
        '5'
    } else if d == 6 {
        '6'
    } else if d == 7 {
        '7'
    } else if d == 8 {
        '8'
    } else {
        '9'
    }
}

/// The decimal digits of `n`.
pub open spec fn decimal_digits(n: nat) -> Seq<char>
    decreases n,
{
    if n < 10 {
        seq![digit_char(n as int)]
    } else {
        decimal_digits(n / 10).push(digit_char((n % 10) as int))
    }
}

proof fn lemma_decimal_len(n: nat)
    ensures
        n < 10 ==> decimal_digits(n).len() == 1,
        n >= 10 ==> decimal_digits(n).len() >= 2,
    decreases n,
{
    if n >= 10 {
        lemma_decimal_len(n / 10);
    }
}

/// Different numbers have different decimal digits.
pub proof fn lemma_decimal_injective(a: nat, b: nat)
    requires
        decimal_digits(a) == decimal_digits(b),
    ensures
        a == b,
    decreases a,
{
    lemma_decimal_len(a);
    lemma_decimal_len(b);
    if a < 10 && b < 10 {
        assert(decimal_digits(a)[0] == digit_char(a as int));
        assert(decimal_digits(b)[0] == digit_char(b as int));
    } else if a >= 10 && b >= 10 {
        let da = decimal_digits(a);
        let db = decimal_digits(b);
        assert(da.last() == db.last());
        assert(da.drop_last() =~= decimal_digits(a / 10));
        assert(db.drop_last() =~= decimal_digits(b / 10));
        lemma_decimal_injective(a / 10, b / 10);
        assert(digit_char((a % 10) as int) == digit_char((b % 10) as int));
    }
}

fn digit(d: usize) -> (c: char)
    requires
        d < 10,
    ensures
        c == digit_char(d as int),
{
    if d == 0 {
        '0'
    } else if d == 1 {
        '1'
    } else if d == 2 {
        '2'
    } else if d == 3 {
        '3'
    } else if d == 4 {
        '4'
    } else if d == 5 {
        '5'
    } else if d == 6 {
        '6'
    } else if d == 7 {
        '7'
    } else if d == 8 {
        '8'
    } else {
        '9'
    }
}

/// Appends the decimal digits of `n` to `out`.
fn push_decimal(n: usize, out: &mut Vec<char>)
    ensures
        final(out)@ == old(out)@ + decimal_digits(n as nat),
    decreases n,
{
    if n >= 10 {
        push_decimal(n / 10, out);
    }
    out.push(digit(n % 10));
    assert(final(out)@ =~= old(out)@ + decimal_digits(n as nat)) by {
        if n >= 10 {
            assert(decimal_digits(n as nat) == decimal_digits((n / 10) as nat).push(
                digit_char((n % 10) as int),
            ));
        }
    }
}

/// The open buffers as (id, name) pairs.
pub open spec fn buffer_entries(bufs: Seq<Buffer>) -> Seq<(usize, Seq<char>)> {
    bufs.map_values(|b: Buffer| (b.id, b.name@))
}

/// Whether some open buffer other than `exclude` is named `name`.
pub open spec fn name_taken(bufs: Seq<(usize, Seq<char>)>, exclude: Option<usize>, name: Seq<char>) -> bool {
    exists|i: int| 0 <= i < bufs.len() && (#[trigger] bufs[i]).1 == name && Some(bufs[i].0) != exclude
}

/// `base<tag>`.
pub open spec fn tagged(base: Seq<char>, tag: Seq<char>) -> Seq<char> {
    base + seq!['<'] + tag + seq!['>']
}

/// The directories of a path that can qualify a buffer name, outermost
/// first: the normal components of the path's parent (none when the path
/// has no parent).
pub open spec fn qualifiers(path: Seq<char>) -> Seq<Seq<char>> {
    let c = components(path);
    if c.len() == 0 {
        Seq::empty()
    } else {
        c.drop_last().filter(|s: Seq<char>| s != seq!['.', '.'])
    }
}

/// The name qualified by the last `n` of the qualifiers `q`, joined by `/`.
pub open spec fn qualified_name(base: Seq<char>, q: Seq<Seq<char>>, n: nat) -> Seq<char> {
    tagged(base, join_slash(q.skip(q.len() - n)))
}

/// The name numbered `k`.
pub open spec fn numbered_name(base: Seq<char>, k: nat) -> Seq<char> {
    tagged(base, decimal_digits(k))
}

/// Whether `n` is the fewest trailing qualifiers that make a free name.
pub open spec fn first_free_qualified(
    bufs: Seq<(usize, Seq<char>)>,
    exclude: Option<usize>,
    base: Seq<char>,
    q: Seq<Seq<char>>,
    n: nat,
) -> bool {
    &&& 1 <= n <= q.len()
    &&& !name_taken(bufs, exclude, qualified_name(base, q, n))
    &&& forall|m: nat| 1 <= m < n ==> name_taken(bufs, exclude, #[trigger] qualified_name(base, q, m))
}

/// Whether `k` is the least number from 2 up that makes a free name.
pub open spec fn first_free_number(
    bufs: Seq<(usize, Seq<char>)>,
    exclude: Option<usize>,
    base: Seq<char>,
    k: nat,
) -> bool {
    &&& k >= 2
    &&& !name_taken(bufs, exclude, numbered_name(base, k))
    &&& forall|m: nat| 2 <= m < k ==> name_taken(bufs, exclude, #[trigger] numbered_name(base, m))
}

/// The name a buffer named `base` (for the file at `path`, if any) gets
/// among the open buffers `bufs`, ignoring the buffer `exclude`: `base`
/// when it is free; else the free name qualified by the fewest trailing
/// directories of the path; else the free name with the least number from
/// 2 up.
pub open spec fn unique_name(
    bufs: Seq<(usize, Seq<char>)>,
    exclude: Option<usize>,
    base: Seq<char>,
    path: Option<Seq<char>>,
) -> Seq<char> {
    unique_name_among(bufs, exclude, base, path_qualifiers(path))
}

/// The qualifiers of an optional path (none without a path).
pub open spec fn path_qualifiers(path: Option<Seq<char>>) -> Seq<Seq<char>> {
    match path {
        Some(p) => qualifiers(p),
        None => Seq::empty(),
    }
}

/// `unique_name` for the qualifiers `q`.
pub open spec fn unique_name_among(
    bufs: Seq<(usize, Seq<char>)>,
    exclude: Option<usize>,
    base: Seq<char>,
    q: Seq<Seq<char>>,
) -> Seq<char> {
    if !name_taken(bufs, exclude, base) {
        base
    } else if exists|n: nat| #[trigger] first_free_qualified(bufs, exclude, base, q, n) {
        qualified_name(base, q, choose|n: nat| #[trigger] first_free_qualified(bufs, exclude, base, q, n))
    } else {
        numbered_name(base, choose|k: nat| #[trigger] first_free_number(bufs, exclude, base, k))
    }
}

/// Numbered names differ for different numbers.
proof fn lemma_numbered_injective(base: Seq<char>, a: nat, b: nat)
    requires
        numbered_name(base, a) == numbered_name(base, b),
    ensures
        a == b,
{
    let na = numbered_name(base, a);
    let nb = numbered_name(base, b);
    lemma_decimal_len(a);
    lemma_decimal_len(b);
    assert(na.len() == nb.len());
    assert(na.subrange((base.len() + 1) as int, na.len() - 1) =~= decimal_digits(a));
    assert(nb.subrange((base.len() + 1) as int, nb.len() - 1) =~= decimal_digits(b));
    lemma_decimal_injective(a, b);
}

/// When the numbered names 2 up to `k` are all taken, there are at least
/// `k - 2` open buffers: each holds one of them.
proof fn lemma_taken_numbers_bounded(
    bufs: Seq<(usize, Seq<char>)>,
    exclude: Option<usize>,
    base: Seq<char>,
    k: nat,
)
    requires
        k >= 2,
        forall|m: nat| 2 <= m < k ==> name_taken(bufs, exclude, #[trigger] numbered_name(base, m)),
    ensures
        k - 2 <= bufs.len(),
{
    let s = set_int_range(2, k as int);
    let f = |m: int|
        choose|i: int|
            0 <= i < bufs.len() && (#[trigger] bufs[i]).1 == numbered_name(base, m as nat) && Some(
                bufs[i].0,
            ) != exclude;
    lemma_int_range(2, k as int);
    lemma_int_range(0, bufs.len() as int);
    assert forall|m: int| s.contains(m) implies 0 <= #[trigger] f(m) < bufs.len() && bufs[f(m)].1
        == numbered_name(base, m as nat) by {
        assert(name_taken(bufs, exclude, numbered_name(base, m as nat)));
    }
    assert(injective_on(f, s)) by {
        assert forall|m1: int, m2: int|
            s.contains(m1) && s.contains(m2) && #[trigger] f(m1) == #[trigger] f(m2) implies m1
            == m2 by {
            lemma_numbered_injective(base, m1 as nat, m2 as nat);
        }
    }
    let t = s.map(f);
    lemma_map_size(s, t, f);
    assert(t.subset_of(set_int_range(0, bufs.len() as int)));
    lemma_len_subset(t, set_int_range(0, bufs.len() as int));
}

/// Whether a buffer of `bufs` other than `exclude` is named `name`.
fn is_taken(bufs: &[Buffer], exclude: Option<usize>, name: &str) -> (b: bool)
    ensures
        b == name_taken(buffer_entries(bufs@), exclude, name@),
{
    let ghost e = buffer_entries(bufs@);
    let mut i: usize = 0;
    while i < bufs.len()
        invariant
            e == buffer_entries(bufs@),
            i <= bufs@.len(),
            forall|j: int| 0 <= j < i ==> !((#[trigger] e[j]).1 == name@ && Some(e[j].0) != exclude),
        decreases bufs@.len() - i,
    {
        assert(e[i as int] == (bufs@[i as int].id, bufs@[i as int].name@));
        let other = match exclude {
            Some(x) => bufs[i].id != x,
            None => true,
        };
        if other && str_eq(bufs[i].name.as_str(), name) {
            return true;
        }
        i += 1;
    }
    false
}

/// `base<tag>` as chars.
fn tagged_chars(base: &Vec<char>, tag: &Vec<char>) -> (r: Vec<char>)
    ensures
        r@ == tagged(base@, tag@),
{
    let mut r = base.clone();
    assert(r@ =~= base@);
    r.push('<');
    let mut t = tag.clone();
    assert(t@ =~= tag@);
    r.append(&mut t);
    r.push('>');
    assert(r@ =~= tagged(base@, tag@));
    r
}

/// The parts of `q` from index `from` on.
fn suffix(q: &Vec<Vec<char>>, from: usize) -> (r: Vec<Vec<char>>)
    requires
        from <= q@.len(),
    ensures
        crate::order::views(r@) == crate::order::views(q@).skip(from as int),
{
    let mut r: Vec<Vec<char>> = Vec::new();
    let mut i = from;
    while i < q.len()
        invariant
            from <= i <= q@.len(),
            crate::order::views(r@) == crate::order::views(q@).subrange(from as int, i as int),
        decreases q@.len() - i,
    {
        let ghost before = crate::order::views(r@);
        let part = q[i].clone();
        assert(part@ =~= q@[i as int]@);
        r.push(part);
        assert(crate::order::views(r@) =~= before.push(q@[i as int]@));
        assert(crate::order::views(q@)[i as int] == q@[i as int]@);
        assert(crate::order::views(r@) =~= crate::order::views(q@).subrange(from as int, i + 1));
        i += 1;
    }
    assert(crate::order::views(q@).subrange(from as int, q@.len() as int) =~= crate::order::views(
        q@,
    ).skip(from as int));
    r
}

/// The qualifiers of `path` (see `qualifiers`).
fn qualifiers_of(path: &str) -> (q: Vec<Vec<char>>)
    ensures
        crate::order::views(q@) == qualifiers(path@),
{
    let p = chars_of(path);
    let c = components_exec(&p);
    let mut q: Vec<Vec<char>> = Vec::new();
    if c.len() == 0 {
        assert(crate::order::views(q@) =~= Seq::<Seq<char>>::empty());
        return q;
    }
    let ghost cv = crate::order::views(c@);
    let ghost keep = |s: Seq<char>| s != seq!['.', '.'];
    let mut i: usize = 0;
    assert(cv.drop_last().take(0) =~= Seq::<Seq<char>>::empty());
    while i < c.len() - 1
        invariant
            cv == crate::order::views(c@),
            c@.len() >= 1,
            i + 1 <= c@.len(),
            keep == (|s: Seq<char>| s != seq!['.', '.']),
            crate::order::views(q@) == cv.drop_last().take(i as int).filter(keep),
        decreases c@.len() - i,
    {
        let ghost before = crate::order::views(q@);
        assert(cv.drop_last().take(i + 1).drop_last() =~= cv.drop_last().take(i as int));
        reveal(Seq::filter);
        if !is_dot_dot(&c[i]) {
            let seg = c[i].clone();
            assert(seg@ =~= c@[i as int]@);
            q.push(seg);
            assert(crate::order::views(q@) =~= before.push(cv[i as int]));
        } else {
            assert(crate::order::views(q@) =~= before);
        }
        i += 1;
    }
    assert(cv.drop_last().take(i as int) =~= cv.drop_last());
    q
}

/// The name a buffer named `base`, for the file at `path` if any, gets
/// among `bufs`, ignoring the buffer with id `exclude` (see
/// `unique_name`).
pub fn unique_buffer_name_excluding(
    bufs: &[Buffer],
    base: &str,
    path: Option<&str>,
    exclude: Option<usize>,
) -> (r: String)
    requires
        bufs@.len() + 3 <= usize::MAX,
    ensures
        r@ == unique_name(buffer_entries(bufs@), exclude, base@, match path {
            Some(p) => Some(p@),
            None => None,
        }),
        !name_taken(buffer_entries(bufs@), exclude, r@),
{
    let ghost e = buffer_entries(bufs@);
    let ghost pv: Option<Seq<char>> = match path {
        Some(p) => Some(p@),
        None => None,
    };
    if !is_taken(bufs, exclude, base) {
        return crate::text::copy_str(base);
    }
    let basev = chars_of(base);
    let q: Vec<Vec<char>> = match path {
        Some(p) => qualifiers_of(p),
        None => Vec::new(),
    };
    let ghost qv = crate::order::views(q@);
    assert(qv == match pv {
        Some(p) => qualifiers(p),
        None => Seq::<Seq<char>>::empty(),
    });
    let mut used: usize = 0;
    while used < q.len()
        invariant
            qv == crate::order::views(q@),
            qv == match pv {
                Some(p) => qualifiers(p),
                None => Seq::<Seq<char>>::empty(),
            },
            pv == match path {
                Some(p) => Some(p@),
                None => None::<Seq<char>>,
            },
            basev@ == base@,
            e == buffer_entries(bufs@),
            name_taken(e, exclude, base@),
            used <= q@.len(),
            forall|m: nat|
                1 <= m <= used ==> name_taken(e, exclude, #[trigger] qualified_name(base@, qv, m)),
        decreases q@.len() - used,
    {
        let n = used + 1;
        let tail = suffix(&q, q.len() - n);
        assert(crate::order::views(tail@) =~= qv.skip(qv.len() - n));
        let joined = join_chars(&tail);
        let candidate = string_of(tagged_chars(&basev, &joined).as_slice());
        assert(candidate@ == qualified_name(base@, qv, n as nat));
        if !is_taken(bufs, exclude, candidate.as_str()) {
            proof {
                assert(first_free_qualified(e, exclude, base@, qv, n as nat));
                let c = choose|k: nat| #[trigger] first_free_qualified(e, exclude, base@, qv, k);
                if c < n {
                    assert(name_taken(e, exclude, qualified_name(base@, qv, c)));
                }
                if n < c {
                    assert(name_taken(e, exclude, qualified_name(base@, qv, n as nat)));
                }
                assert(c == n);
                assert(path_qualifiers(pv) == qv);
            }
            return candidate;
        }
        used += 1;
    }
    let mut k: usize = 2;
    loop
        invariant
            qv == match pv {
                Some(p) => qualifiers(p),
                None => Seq::<Seq<char>>::empty(),
            },
            pv == match path {
                Some(p) => Some(p@),
                None => None::<Seq<char>>,
            },
            basev@ == base@,
            e == buffer_entries(bufs@),
            name_taken(e, exclude, base@),
            forall|m: nat|
                1 <= m <= qv.len() ==> name_taken(e, exclude, #[trigger] qualified_name(base@, qv, m)),
            bufs@.len() + 3 <= usize::MAX,
            2 <= k <= bufs@.len() + 2,
            forall|m: nat| 2 <= m < k ==> name_taken(e, exclude, #[trigger] numbered_name(base@, m)),
        decreases bufs@.len() + 2 - k,
    {
        let mut digits: Vec<char> = Vec::new();
        push_decimal(k, &mut digits);
        assert(digits@ =~= decimal_digits(k as nat));
        let candidate = string_of(tagged_chars(&basev, &digits).as_slice());
        if !is_taken(bufs, exclude, candidate.as_str()) {
            proof {
                assert forall|n: nat| !first_free_qualified(e, exclude, base@, qv, n) by {
                    if 1 <= n <= qv.len() {
                        assert(name_taken(e, exclude, qualified_name(base@, qv, n)));
                    }
                }
                assert(first_free_number(e, exclude, base@, k as nat));
                let c = choose|j: nat| #[trigger] first_free_number(e, exclude, base@, j);
                if c < k {
                    assert(name_taken(e, exclude, numbered_name(base@, c)));
                }
                if k < c {
                    assert(name_taken(e, exclude, numbered_name(base@, k as nat)));
                }
                assert(c == k);
            }
            return candidate;
        }
        proof {
            lemma_taken_numbers_bounded(e, exclude, base@, (k + 1) as nat);
        }
        k += 1;
    }
}

/// The name a new buffer named `base`, for the file at `path` if any, gets
/// among `bufs` (see `unique_name`).
pub fn unique_buffer_name(bufs: &[Buffer], base: &str, path: Option<&str>) -> (r: String)
    requires
        bufs@.len() + 3 <= usize::MAX,
    ensures
        r@ == unique_name(buffer_entries(bufs@), None, base@, match path {
            Some(p) => Some(p@),
            None => None,
        }),
        !name_taken(buffer_entries(bufs@), None, r@),
{
    unique_buffer_name_excluding(bufs, base, path, None)
}

} // verus!
