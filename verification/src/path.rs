//! Lexical path handling for the path prompts: `~` expansion, `.`/`..`
//! resolution, and the pure part of file-name completion.
use vstd::prelude::*;

use crate::command::{is_prefix, starts_with};
use crate::minibuffer::{common_prefix, common_prefix_len, string_views};
use crate::order::{entry_leq, entry_views, sort_entries};
use crate::text::{chars_of, copy_str, string_of};

verus! {

/// `s` without its trailing `/` chars.
pub open spec fn trim_trailing_slashes(s: Seq<char>) -> Seq<char>
    decreases s.len(),
{
    if s.len() > 0 && s.last() == '/' {
        trim_trailing_slashes(s.drop_last())
    } else {
        s
    }
}

/// `input` with a leading `~` or `~/...` expanded to `home`. `~user` forms
/// and mid-path tildes are left untouched, as is everything when there is
/// no home directory.
pub open spec fn expand_tilde(input: Seq<char>, home: Option<Seq<char>>) -> Seq<char> {
    match home {
        None => input,
        Some(h) => if input == seq!['~'] {
            h
        } else if input == seq!['~', '/'] {
            if h.len() > 0 && h.last() == '/' {
                h
            } else {
                h.push('/')
            }
        } else if starts_with(input, seq!['~', '/']) {
            trim_trailing_slashes(h) + seq!['/'] + input.skip(2)
        } else {
            input
        },
    }
}

fn trim_trailing_slashes_exec(s: &Vec<char>) -> (r: Vec<char>)
    ensures
        r@ == trim_trailing_slashes(s@),
{
    let mut n = s.len();
    assert(s@.take(n as int) =~= s@);
    while n > 0 && s[n - 1] == '/'
        invariant
            n <= s@.len(),
            trim_trailing_slashes(s@) == trim_trailing_slashes(s@.take(n as int)),
        decreases n,
    {
        assert(s@.take(n as int).drop_last() =~= s@.take(n - 1));
        n -= 1;
    }
    let mut r: Vec<char> = Vec::new();
    let mut i: usize = 0;
    while i < n
        invariant
            n <= s@.len(),
            i <= n,
            r@ == s@.take(i as int),
        decreases n - i,
    {
        r.push(s[i]);
        assert(s@.take(i + 1) =~= s@.take(i as int).push(s@[i as int]));
        i += 1;
    }
    r
}

fn append_chars(dst: &mut Vec<char>, src: &Vec<char>, from: usize)
    requires
        from <= src@.len(),
    ensures
        final(dst)@ == old(dst)@ + src@.skip(from as int),
{
    let mut i = from;
    while i < src.len()
        invariant
            from <= i <= src@.len(),
            dst@ == old(dst)@ + src@.subrange(from as int, i as int),
        decreases src@.len() - i,
    {
        dst.push(src[i]);
        assert(src@.subrange(from as int, i + 1) =~= src@.subrange(from as int, i as int).push(
            src@[i as int],
        ));
        i += 1;
    }
    assert(src@.subrange(from as int, src@.len() as int) =~= src@.skip(from as int));
}

/// Expand a leading `~` or `~/` in the chars of `input` to the given home
/// directory.
fn expand_tilde_chars(input: &Vec<char>, home: Option<&str>) -> (r: Vec<char>)
    ensures
        r@ == expand_tilde(input@, match home {
            Some(h) => Some(h@),
            None => None,
        }),
{
    match home {
        None => input.clone(),
        Some(h) => {
            let hv = chars_of(h);
            if input.len() == 1 && input[0] == '~' {
                assert(input@ =~= seq!['~']);
                hv
            } else if input.len() == 2 && input[0] == '~' && input[1] == '/' {
                assert(input@ =~= seq!['~', '/']);
                let mut s = hv;
                if !(s.len() > 0 && s[s.len() - 1] == '/') {
                    s.push('/');
                }
                s
            } else if input.len() >= 2 && input[0] == '~' && input[1] == '/' {
                assert(input@.take(2) =~= seq!['~', '/']);
                assert(input@ != seq!['~']);
                let mut s = trim_trailing_slashes_exec(&hv);
                s.push('/');
                append_chars(&mut s, input, 2);
                s
            } else {
                proof {
                    if starts_with(input@, seq!['~', '/']) {
                        assert(input@.take(2)[0] == '~' && input@.take(2)[1] == '/');
                    }
                    if input@ == seq!['~'] || input@ == seq!['~', '/'] {
                        assert(input@[0] == '~');
                    }
                }
                input.clone()
            }
        },
    }
}

/// Expand a leading `~` or `~/...` to the given home directory.
/// `~user` forms and mid-path tildes are left untouched.
pub fn expand_tilde_with(input: &str, home: Option<&str>) -> (res: String)
    ensures
        res@ == expand_tilde(input@, match home {
            Some(h) => Some(h@),
            None => None,
        }),
{
    let v = chars_of(input);
    let r = expand_tilde_chars(&v, home);
    string_of(r.as_slice())
}

/// The segments of `s` between `/` separators (empty ones included).
pub open spec fn split_slash(s: Seq<char>) -> Seq<Seq<char>>
    decreases s.len(),
{
    if s.len() == 0 {
        seq![Seq::empty()]
    } else {
        let r = split_slash(s.drop_last());
        if s.last() == '/' {
            r.push(Seq::empty())
        } else {
            r.drop_last().push(r.last().push(s.last()))
        }
    }
}

/// A segment that names a path component: not empty, not `.`.
pub open spec fn is_component(seg: Seq<char>) -> bool {
    seg.len() > 0 && seg != seq!['.']
}

/// The `.`/`..`-resolution of the components `comps`: the number of `..`
/// that climb above a rootless start, and the components that remain. On a
/// rooted path `..` clamps at the root.
pub open spec fn resolve_components(comps: Seq<Seq<char>>, rooted: bool) -> (nat, Seq<Seq<char>>)
    decreases comps.len(),
{
    if comps.len() == 0 {
        (0, Seq::empty())
    } else {
        let (up, kept) = resolve_components(comps.drop_last(), rooted);
        if comps.last() == seq!['.', '.'] {
            if kept.len() > 0 {
                (up, kept.drop_last())
            } else if !rooted {
                ((up + 1) as nat, kept)
            } else {
                (up, kept)
            }
        } else {
            (up, kept.push(comps.last()))
        }
    }
}

/// The parts joined with `/` between them.
pub open spec fn join_slash(parts: Seq<Seq<char>>) -> Seq<char>
    decreases parts.len(),
{
    if parts.len() == 0 {
        Seq::empty()
    } else if parts.len() == 1 {
        parts[0]
    } else {
        join_slash(parts.drop_last()) + seq!['/'] + parts.last()
    }
}

/// The lexical normal form of the chars of a path: components separated by
/// single `/`, no `.` components, each `..` resolved against the component
/// before it; `..` that climb above a rootless start are kept in front, a
/// leading `/` is kept, and so is a trailing `/` when the result is not
/// empty.
pub open spec fn normal_form(e: Seq<char>) -> Seq<char> {
    let rooted = e.len() > 0 && e[0] == '/';
    let comps = split_slash(e).filter(|seg: Seq<char>| is_component(seg));
    let (up, kept) = resolve_components(comps, rooted);
    let parts = Seq::new(up, |_i: int| seq!['.', '.']) + kept;
    let body = if rooted {
        seq!['/'] + join_slash(parts)
    } else {
        join_slash(parts)
    };
    if e.len() > 0 && e.last() == '/' && body.len() > 0 && body.last() != '/' {
        body.push('/')
    } else {
        body
    }
}

proof fn lemma_split_nonempty(s: Seq<char>)
    ensures
        split_slash(s).len() >= 1,
    decreases s.len(),
{
    if s.len() > 0 {
        lemma_split_nonempty(s.drop_last());
    }
}

fn is_dot(seg: &Vec<char>) -> (b: bool)
    ensures
        b == (seg@ == seq!['.']),
{
    if seg.len() == 1 && seg[0] == '.' {
        assert(seg@ =~= seq!['.']);
        true
    } else {
        proof {
            if seg@ == seq!['.'] {
                assert(seg@[0] == '.');
            }
        }
        false
    }
}

pub(crate) fn is_dot_dot(seg: &Vec<char>) -> (b: bool)
    ensures
        b == (seg@ == seq!['.', '.']),
{
    if seg.len() == 2 && seg[0] == '.' && seg[1] == '.' {
        assert(seg@ =~= seq!['.', '.']);
        true
    } else {
        proof {
            if seg@ == seq!['.', '.'] {
                assert(seg@[0] == '.' && seg@[1] == '.');
            }
        }
        false
    }
}

/// One resolution step: the state after the segment `seg`.
fn resolve_step(up: &mut usize, kept: &mut Vec<Vec<char>>, seg: Vec<char>, rooted: bool)
    requires
        *old(up) < usize::MAX,
    ensures
        ({
            let (u, k) = if is_component(seg@) {
                if seg@ == seq!['.', '.'] {
                    if old(kept)@.len() > 0 {
                        (*old(up) as nat, crate::order::views(old(kept)@).drop_last())
                    } else if !rooted {
                        ((*old(up) + 1) as nat, crate::order::views(old(kept)@))
                    } else {
                        (*old(up) as nat, crate::order::views(old(kept)@))
                    }
                } else {
                    (*old(up) as nat, crate::order::views(old(kept)@).push(seg@))
                }
            } else {
                (*old(up) as nat, crate::order::views(old(kept)@))
            };
            *final(up) == u && crate::order::views(final(kept)@) == k
        }),
        2 * *final(up) <= 2 * *old(up) + seg@.len(),
{
    if seg.len() == 0 || is_dot(&seg) {
        return ;
    }
    if is_dot_dot(&seg) {
        if kept.len() > 0 {
            let ghost before = crate::order::views(kept@);
            kept.pop();
            assert(crate::order::views(kept@) =~= before.drop_last());
        } else if !rooted {
            *up = *up + 1;
        }
    } else {
        let ghost before = crate::order::views(kept@);
        let ghost sv = seg@;
        kept.push(seg);
        assert(crate::order::views(kept@) =~= before.push(sv));
    }
}

/// Normalize the chars of a path (see [`normal_form`]).
pub fn normalize_chars(e: &Vec<char>) -> (r: Vec<char>)
    ensures
        r@ == normal_form(e@),
{
    let rooted = e.len() > 0 && e[0] == '/';
    let mut up: usize = 0;
    let mut kept: Vec<Vec<char>> = Vec::new();
    let mut cur: Vec<char> = Vec::new();
    let mut i: usize = 0;
    let ghost good = |seg: Seq<char>| is_component(seg);
    assert(e@.take(0) =~= Seq::<char>::empty());
    assert(split_slash(Seq::<char>::empty()).drop_last() =~= Seq::<Seq<char>>::empty());
    while i < e.len()
        invariant
            i <= e@.len(),
            2 * up + cur@.len() <= i,
            rooted == (e@.len() > 0 && e@[0] == '/'),
            good == (|seg: Seq<char>| is_component(seg)),
            split_slash(e@.take(i as int)).len() >= 1,
            cur@ == split_slash(e@.take(i as int)).last(),
            (up as nat, crate::order::views(kept@)) == resolve_components(
                split_slash(e@.take(i as int)).drop_last().filter(good),
                rooted,
            ),
        decreases e@.len() - i,
    {
        let c = e[i];
        let ghost prev = e@.take(i as int);
        let ghost segs = split_slash(prev);
        proof {
            assert(e@.take(i + 1).drop_last() =~= prev);
            assert(e@.take(i + 1).last() == c);
            lemma_split_nonempty(prev);
        }
        if c == '/' {
            let mut seg: Vec<char> = Vec::new();
            std::mem::swap(&mut seg, &mut cur);
            let ghost sv = seg@;
            resolve_step(&mut up, &mut kept, seg, rooted);
            proof {
                let next = split_slash(e@.take(i + 1));
                assert(next == segs.push(Seq::empty()));
                assert(next.drop_last() =~= segs);
                assert(segs =~= segs.drop_last().push(sv));
                reveal(Seq::filter);
                assert(segs.drop_last().push(sv).drop_last() =~= segs.drop_last());
                let f = segs.filter(good);
                if good(sv) {
                    assert(f == segs.drop_last().filter(good).push(sv));
                    assert(f.drop_last() =~= segs.drop_last().filter(good));
                } else {
                    assert(f == segs.drop_last().filter(good));
                }
            }
        } else {
            cur.push(c);
            proof {
                let next = split_slash(e@.take(i + 1));
                assert(next == segs.drop_last().push(segs.last().push(c)));
                assert(next.drop_last() =~= segs.drop_last());
            }
        }
        i += 1;
    }
    // The final segment.
    let ghost segs = split_slash(e@);
    proof {
        assert(e@.take(e@.len() as int) =~= e@);
        assert(segs =~= segs.drop_last().push(cur@));
    }
    let ghost sv = cur@;
    resolve_step(&mut up, &mut kept, cur, rooted);
    proof {
        reveal(Seq::filter);
        assert(segs.drop_last().push(sv).drop_last() =~= segs.drop_last());
        let f = segs.filter(good);
        if good(sv) {
            assert(f == segs.drop_last().filter(good).push(sv));
            assert(f.drop_last() =~= segs.drop_last().filter(good));
        } else {
            assert(f == segs.drop_last().filter(good));
        }
        assert((up as nat, crate::order::views(kept@)) == resolve_components(
            segs.filter(|seg: Seq<char>| is_component(seg)),
            rooted,
        ));
    }
    // The parts: the kept leading `..`, then the remaining components.
    let mut parts: Vec<Vec<char>> = Vec::new();
    let mut k: usize = 0;
    while k < up
        invariant
            k <= up,
            crate::order::views(parts@) == Seq::new(k as nat, |_i: int| seq!['.', '.']),
        decreases up - k,
    {
        let ghost before = crate::order::views(parts@);
        let mut dd: Vec<char> = Vec::new();
        dd.push('.');
        dd.push('.');
        assert(dd@ =~= seq!['.', '.']);
        parts.push(dd);
        assert(crate::order::views(parts@) =~= before.push(seq!['.', '.']));
        assert(crate::order::views(parts@) =~= Seq::new((k + 1) as nat, |_i: int| seq!['.', '.']));
        k += 1;
    }
    let ghost front = crate::order::views(parts@);
    let mut m: usize = 0;
    while m < kept.len()
        invariant
            m <= kept@.len(),
            crate::order::views(parts@) == front + crate::order::views(kept@).take(m as int),
        decreases kept@.len() - m,
    {
        let ghost before = crate::order::views(parts@);
        let item = kept[m].clone();
        assert(item@ =~= kept@[m as int]@);
        parts.push(item);
        assert(crate::order::views(parts@) =~= before.push(kept@[m as int]@));
        assert(crate::order::views(parts@) =~= front + crate::order::views(kept@).take(m + 1));
        m += 1;
    }
    assert(crate::order::views(kept@).take(kept@.len() as int) =~= crate::order::views(kept@));
    let mut body: Vec<char> = Vec::new();
    if rooted {
        body.push('/');
    }
    let joined = join_chars(&parts);
    append_chars(&mut body, &joined, 0);
    assert(joined@.skip(0) =~= joined@);
    proof {
        if rooted {
            assert(body@ =~= seq!['/'] + join_slash(crate::order::views(parts@)));
        } else {
            assert(body@ =~= join_slash(crate::order::views(parts@)));
        }
    }
    if e.len() > 0 && e[e.len() - 1] == '/' && body.len() > 0 && body[body.len() - 1] != '/' {
        body.push('/');
    }
    body
}

/// The parts joined with `/` between them.
pub(crate) fn join_chars(parts: &Vec<Vec<char>>) -> (r: Vec<char>)
    ensures
        r@ == join_slash(crate::order::views(parts@)),
{
    let mut r: Vec<char> = Vec::new();
    let mut i: usize = 0;
    while i < parts.len()
        invariant
            i <= parts@.len(),
            r@ == join_slash(crate::order::views(parts@).take(i as int)),
        decreases parts@.len() - i,
    {
        let ghost ps = crate::order::views(parts@);
        assert(ps.take(i + 1).drop_last() =~= ps.take(i as int));
        if i > 0 {
            r.push('/');
        } else {
            assert(r@ =~= Seq::<char>::empty());
        }
        append_chars(&mut r, &parts[i], 0);
        assert(parts@[i as int]@.skip(0) =~= parts@[i as int]@);
        proof {
            if i == 0 {
                assert(ps.take(1) =~= seq![ps[0]]);
            }
        }
        i += 1;
    }
    assert(crate::order::views(parts@).take(parts@.len() as int) =~= crate::order::views(parts@));
    r
}

/// The lexical normal form of a path prompt's input (see [`normal_form`]),
/// after a leading `~` is expanded to `home`.
pub open spec fn normalized_path(input: Seq<char>, home: Option<Seq<char>>) -> Seq<char> {
    normal_form(expand_tilde(input, home))
}

/// Normalize a path string: expand a leading `~` to `home`, remove `.`
/// components, and resolve `..` components lexically. On a rootless
/// (relative) path, `..` components that climb above the starting point are
/// preserved (`a/../../b` becomes `../b`) so the caller can resolve them
/// against a base directory; on a rooted path `..` clamps at `/`. Preserves
/// trailing `/` if present.
pub fn normalize_path_string(input: &str, home: Option<&str>) -> (res: String)
    ensures
        res@ == normalized_path(input@, match home {
            Some(h) => Some(h@),
            None => None,
        }),
{
    let v = chars_of(input);
    let e = expand_tilde_chars(&v, home);
    let r = normalize_chars(&e);
    string_of(r.as_slice())
}

/// The components of the chars of a path (no empty or `.` segments).
pub open spec fn components(p: Seq<char>) -> Seq<Seq<char>> {
    split_slash(p).filter(|seg: Seq<char>| is_component(seg))
}

/// The parent of a path in normal form: the path without its last
/// component, or `None` when it has no component.
pub open spec fn path_parent(p: Seq<char>) -> Option<Seq<char>> {
    let comps = components(p);
    if comps.len() == 0 {
        None
    } else if p.len() > 0 && p[0] == '/' {
        Some(seq!['/'] + join_slash(comps.drop_last()))
    } else {
        Some(join_slash(comps.drop_last()))
    }
}

/// The file name of a path in normal form: its last component, unless that
/// is `..`.
pub open spec fn path_file_name(p: Seq<char>) -> Option<Seq<char>> {
    let comps = components(p);
    if comps.len() == 0 || comps.last() == seq!['.', '.'] {
        None
    } else {
        Some(comps.last())
    }
}

/// The directory to list and the name prefix to complete for the path `p`
/// of a completion: a directory is listed whole; anything else completes
/// its file name (none when it has none) inside its parent (`.` when it has
/// none).
pub open spec fn completion_split(p: Seq<char>, p_is_dir: bool) -> (Seq<char>, Seq<char>) {
    if p_is_dir {
        (p, Seq::empty())
    } else {
        (
            match path_parent(p) {
                Some(d) => d,
                None => seq!['.'],
            },
            match path_file_name(p) {
                Some(n) => n,
                None => Seq::empty(),
            },
        )
    }
}

/// The last component of the chars of a path, with what `components` says
/// of it.
pub(crate) fn components_exec(p: &Vec<char>) -> (r: Vec<Vec<char>>)
    ensures
        crate::order::views(r@) == components(p@),
{
    let mut kept: Vec<Vec<char>> = Vec::new();
    let mut cur: Vec<char> = Vec::new();
    let mut i: usize = 0;
    let ghost good = |seg: Seq<char>| is_component(seg);
    assert(p@.take(0) =~= Seq::<char>::empty());
    assert(split_slash(Seq::<char>::empty()).drop_last() =~= Seq::<Seq<char>>::empty());
    while i < p.len()
        invariant
            i <= p@.len(),
            good == (|seg: Seq<char>| is_component(seg)),
            split_slash(p@.take(i as int)).len() >= 1,
            cur@ == split_slash(p@.take(i as int)).last(),
            crate::order::views(kept@) == split_slash(p@.take(i as int)).drop_last().filter(good),
        decreases p@.len() - i,
    {
        let c = p[i];
        let ghost prev = p@.take(i as int);
        let ghost segs = split_slash(prev);
        proof {
            assert(p@.take(i + 1).drop_last() =~= prev);
            assert(p@.take(i + 1).last() == c);
            lemma_split_nonempty(prev);
        }
        if c == '/' {
            let mut seg: Vec<char> = Vec::new();
            std::mem::swap(&mut seg, &mut cur);
            let ghost sv = seg@;
            let keep = seg.len() > 0 && !is_dot(&seg);
            let ghost before = crate::order::views(kept@);
            if keep {
                kept.push(seg);
                assert(crate::order::views(kept@) =~= before.push(sv));
            }
            proof {
                let next = split_slash(p@.take(i + 1));
                assert(next == segs.push(Seq::empty()));
                assert(next.drop_last() =~= segs);
                assert(segs =~= segs.drop_last().push(sv));
                reveal(Seq::filter);
                assert(segs.drop_last().push(sv).drop_last() =~= segs.drop_last());
            }
        } else {
            cur.push(c);
            proof {
                let next = split_slash(p@.take(i + 1));
                assert(next == segs.drop_last().push(segs.last().push(c)));
                assert(next.drop_last() =~= segs.drop_last());
            }
        }
        i += 1;
    }
    let ghost segs = split_slash(p@);
    proof {
        assert(p@.take(p@.len() as int) =~= p@);
        assert(segs =~= segs.drop_last().push(cur@));
        reveal(Seq::filter);
        assert(segs.drop_last().push(cur@).drop_last() =~= segs.drop_last());
    }
    let ghost sv = cur@;
    let ghost before = crate::order::views(kept@);
    if cur.len() > 0 && !is_dot(&cur) {
        kept.push(cur);
        assert(crate::order::views(kept@) =~= before.push(sv));
    }
    kept
}

/// The file name of `path`: its last component, unless there is none or it
/// is `..`.
pub fn file_name_of(path: &str) -> (r: Option<String>)
    ensures
        match r {
            Some(n) => path_file_name(path@) == Some(n@),
            None => path_file_name(path@) is None,
        },
{
    let p = chars_of(path);
    let comps = components_exec(&p);
    let n = comps.len();
    if n == 0 {
        return None;
    }
    let last = &comps[n - 1];
    if is_dot_dot(last) {
        None
    } else {
        Some(string_of(last.as_slice()))
    }
}

/// The name a buffer visiting `path` is given: the path's file name, or the
/// whole path when it has none.
pub open spec fn name_for_path(path: Seq<char>) -> Seq<char> {
    match path_file_name(path) {
        Some(n) => n,
        None => path,
    }
}

/// The name a buffer visiting `path` is given (see [`name_for_path`]).
pub fn buffer_name_for_path(path: &str) -> (r: String)
    ensures
        r@ == name_for_path(path@),
{
    match file_name_of(path) {
        Some(n) => n,
        None => copy_str(path),
    }
}

/// The directory to list and the name prefix to complete for the path of a
/// completion (see [`completion_split`]); `path_is_dir` says whether the
/// path names a directory on disk.
pub fn completion_dir_and_prefix(path: &str, path_is_dir: bool) -> (res: (String, String))
    ensures
        (res.0@, res.1@) == completion_split(path@, path_is_dir),
{
    if path_is_dir {
        return (copy_str(path), String::new());
    }
    let p = chars_of(path);
    let comps = components_exec(&p);
    let n = comps.len();
    if n == 0 {
        let mut dot: Vec<char> = Vec::new();
        dot.push('.');
        assert(dot@ =~= seq!['.']);
        return (string_of(dot.as_slice()), String::new());
    }
    let mut init: Vec<Vec<char>> = Vec::new();
    let mut k: usize = 0;
    while k + 1 < n
        invariant
            n == comps@.len(),
            k < n,
            crate::order::views(init@) == crate::order::views(comps@).take(k as int),
        decreases n - k,
    {
        let ghost before = crate::order::views(init@);
        let item = comps[k].clone();
        assert(item@ =~= comps@[k as int]@);
        init.push(item);
        assert(crate::order::views(init@) =~= before.push(comps@[k as int]@));
        assert(crate::order::views(comps@).take(k + 1) =~= crate::order::views(comps@).take(
            k as int,
        ).push(comps@[k as int]@));
        k += 1;
    }
    assert(crate::order::views(comps@).take(k as int) =~= crate::order::views(comps@).drop_last());
    let joined = join_chars(&init);
    let mut dir: Vec<char> = Vec::new();
    if p.len() > 0 && p[0] == '/' {
        dir.push('/');
    }
    append_chars(&mut dir, &joined, 0);
    assert(joined@.skip(0) =~= joined@);
    proof {
        if p@.len() > 0 && p@[0] == '/' {
            assert(dir@ =~= seq!['/'] + join_slash(crate::order::views(comps@).drop_last()));
        } else {
            assert(dir@ =~= join_slash(crate::order::views(comps@).drop_last()));
        }
    }
    let last = &comps[n - 1];
    let prefix = if is_dot_dot(last) {
        String::new()
    } else {
        string_of(last.as_slice())
    };
    (string_of(dir.as_slice()), prefix)
}

/// What completion knows of a directory entry: its name and whether it is
/// a directory.
pub struct DirEntryInfo {
    pub name: String,
    pub is_dir: bool,
}

/// `dir` joined with the relative name `name`.
pub open spec fn join_path(dir: Seq<char>, name: Seq<char>) -> Seq<char> {
    if dir.len() == 0 {
        name
    } else if dir.last() == '/' {
        dir + name
    } else {
        dir + seq!['/'] + name
    }
}

/// `s`, with a `/` appended when `is_dir` holds.
pub open spec fn with_dir_slash(s: Seq<char>, is_dir: bool) -> Seq<char> {
    if is_dir {
        s.push('/')
    } else {
        s
    }
}

/// The entries whose name starts with `prefix`, as (name, is_dir), in
/// listing order.
pub open spec fn matching_entries(
    entries: Seq<(Seq<char>, bool)>,
    prefix: Seq<char>,
) -> Seq<(Seq<char>, bool)> {
    entries.filter(|e: (Seq<char>, bool)| starts_with(e.0, prefix))
}

/// The (name, is_dir) of each listed entry.
pub open spec fn listing_view(entries: Seq<DirEntryInfo>) -> Seq<(Seq<char>, bool)> {
    entries.map_values(|e: DirEntryInfo| (e.name@, e.is_dir))
}

/// The completion of `input`, given the listing of `dir` (`None` when it
/// could not be read) and the name `prefix` to complete: with one match,
/// its path (with a `/` for a directory) and no candidates; with several,
/// the longest common prefix of their paths (or `input` when they share
/// none) and their names sorted (with a `/` for each directory); otherwise
/// `input` and no candidates.
pub open spec fn completion_result(
    input: Seq<char>,
    dir: Seq<char>,
    prefix: Seq<char>,
    listing: Option<Seq<(Seq<char>, bool)>>,
) -> (Seq<char>, Seq<Seq<char>>) {
    match listing {
        None => (input, Seq::empty()),
        Some(entries) => {
            let ms = matching_entries(entries, prefix).sort_by(entry_leq());
            let paths = ms.map_values(|e: (Seq<char>, bool)| join_path(dir, e.0));
            if ms.len() == 1 {
                (with_dir_slash(paths[0], ms[0].1), Seq::empty())
            } else if ms.len() > 1 {
                (
                    if common_prefix_len(paths) > 0 {
                        paths[0].take(common_prefix_len(paths) as int)
                    } else {
                        input
                    },
                    ms.map_values(|e: (Seq<char>, bool)| with_dir_slash(e.0, e.1)),
                )
            } else {
                (input, Seq::empty())
            }
        },
    }
}

fn join_path_exec(dir: &Vec<char>, name: &Vec<char>) -> (r: Vec<char>)
    ensures
        r@ == join_path(dir@, name@),
{
    let mut r = dir.clone();
    assert(r@ =~= dir@);
    if dir.len() > 0 && dir[dir.len() - 1] != '/' {
        r.push('/');
    }
    append_chars(&mut r, name, 0);
    assert(name@.skip(0) =~= name@);
    proof {
        if dir@.len() == 0 {
            assert(r@ =~= name@);
        }
    }
    r
}

/// Tab completion for file paths, from the listing of the directory that
/// [`completion_dir_and_prefix`] chose (see [`completion_result`]).
pub fn complete_path_from_listing(
    input: &str,
    dir: &str,
    prefix: &str,
    listing: Option<Vec<DirEntryInfo>>,
) -> (res: (String, Vec<String>))
    ensures
        (res.0@, string_views(res.1@)) == completion_result(input@, dir@, prefix@, match listing {
            Some(v) => Some(listing_view(v@)),
            None => None,
        }),
{
    let entries = match listing {
        Some(v) => v,
        None => {
            let none: Vec<String> = Vec::new();
            assert(string_views(none@) =~= Seq::empty());
            return (copy_str(input), none);
        },
    };
    let ghost lv = listing_view(entries@);
    let pre = chars_of(prefix);
    let dirv = chars_of(dir);
    let mut ms: Vec<(Vec<char>, bool)> = Vec::new();
    let mut i: usize = 0;
    while i < entries.len()
        invariant
            lv == listing_view(entries@),
            pre@ == prefix@,
            i <= entries@.len(),
            entry_views(ms@) == matching_entries(lv.take(i as int), prefix@),
        decreases entries@.len() - i,
    {
        let name = chars_of(entries[i].name.as_str());
        let ghost ev = (name@, entries@[i as int].is_dir);
        proof {
            reveal(Seq::filter);
            assert(lv.take(i + 1).drop_last() =~= lv.take(i as int));
            assert(lv.take(i + 1).last() == ev);
        }
        if is_prefix(&pre, &name) {
            let ghost before = entry_views(ms@);
            ms.push((name, entries[i].is_dir));
            assert(entry_views(ms@) =~= before.push(ev));
        }
        i += 1;
    }
    assert(lv.take(entries@.len() as int) =~= lv);
    let sorted = sort_entries(ms);
    let ghost msv = entry_views(sorted@);
    let ghost paths = msv.map_values(|e: (Seq<char>, bool)| join_path(dir@, e.0));
    let n = sorted.len();
    let mut full: Vec<String> = Vec::new();
    let mut cands: Vec<String> = Vec::new();
    let mut k: usize = 0;
    while k < n
        invariant
            n == sorted@.len(),
            msv == entry_views(sorted@),
            dirv@ == dir@,
            paths == msv.map_values(|e: (Seq<char>, bool)| join_path(dir@, e.0)),
            k <= n,
            string_views(full@) == paths.take(k as int),
            string_views(cands@) == msv.map_values(
                |e: (Seq<char>, bool)| with_dir_slash(e.0, e.1),
            ).take(k as int),
        decreases n - k,
    {
        let p = join_path_exec(&dirv, &sorted[k].0);
        let mut c = sorted[k].0.clone();
        assert(c@ =~= sorted@[k as int].0@);
        if sorted[k].1 {
            c.push('/');
        }
        let ghost bf = string_views(full@);
        let ghost bc = string_views(cands@);
        full.push(string_of(p.as_slice()));
        cands.push(string_of(c.as_slice()));
        assert(string_views(full@) =~= bf.push(paths[k as int]));
        assert(paths.take(k + 1) =~= paths.take(k as int).push(paths[k as int]));
        let ghost wd = msv.map_values(|e: (Seq<char>, bool)| with_dir_slash(e.0, e.1));
        assert(wd[k as int] == with_dir_slash(msv[k as int].0, msv[k as int].1));
        assert(msv[k as int] == (sorted@[k as int].0@, sorted@[k as int].1));
        assert(string_views(cands@) =~= bc.push(wd[k as int]));
        assert(wd.take(k + 1) =~= wd.take(k as int).push(wd[k as int]));
        k += 1;
    }
    assert(paths.take(n as int) =~= paths);
    assert(msv.map_values(|e: (Seq<char>, bool)| with_dir_slash(e.0, e.1)).take(n as int)
        =~= msv.map_values(|e: (Seq<char>, bool)| with_dir_slash(e.0, e.1)));
    if n == 1 {
        let mut one = chars_of(full[0].as_str());
        if sorted[0].1 {
            one.push('/');
        }
        let none: Vec<String> = Vec::new();
        assert(string_views(none@) =~= Seq::empty());
        (string_of(one.as_slice()), none)
    } else if n > 1 {
        let completed = match common_prefix(full.as_slice()) {
            Some(p) => p,
            None => copy_str(input),
        };
        (completed, cands)
    } else {
        let none: Vec<String> = Vec::new();
        assert(string_views(none@) =~= Seq::empty());
        (copy_str(input), none)
    }
}

/// Resolving components keeps only real components, none of them `..`;
/// `..` that climb above the start are counted apart, and a rooted path
/// counts none.
proof fn lemma_resolve_components_clean(comps: Seq<Seq<char>>, rooted: bool)
    requires
        forall|i: int| 0 <= i < comps.len() ==> is_component(#[trigger] comps[i]),
    ensures
        ({
            let (up, kept) = resolve_components(comps, rooted);
            &&& forall|i: int|
                0 <= i < kept.len() ==> is_component(#[trigger] kept[i]) && kept[i] != seq!['.', '.']
            &&& rooted ==> up == 0
        }),
    decreases comps.len(),
{
    if comps.len() > 0 {
        let front = comps.drop_last();
        assert forall|i: int| 0 <= i < front.len() implies is_component(#[trigger] front[i]) by {
            assert(front[i] == comps[i]);
        }
        lemma_resolve_components_clean(front, rooted);
        let (up, kept) = resolve_components(front, rooted);
        assert(is_component(comps[comps.len() - 1]));
        if comps.last() == seq!['.', '.'] {
            if kept.len() > 0 {
                let k2 = kept.drop_last();
                assert forall|i: int| 0 <= i < k2.len() implies is_component(#[trigger] k2[i])
                    && k2[i] != seq!['.', '.'] by {
                    assert(k2[i] == kept[i]);
                }
            }
        } else {
            let k2 = kept.push(comps.last());
            assert forall|i: int| 0 <= i < k2.len() implies is_component(#[trigger] k2[i]) && k2[i]
                != seq!['.', '.'] by {
                if i < kept.len() {
                    assert(k2[i] == kept[i]);
                }
            }
        }
    }
}

/// A normalized path is made of the `..` that climb above a rootless start
/// followed by real components: no empty or `.` component is left and no
/// `..` follows a real one; a rooted path keeps no `..` at all (it clamps
/// at `/`).
pub proof fn lemma_normal_form_parts(e: Seq<char>)
    ensures
        ({
            let rooted = e.len() > 0 && e[0] == '/';
            let comps = split_slash(e).filter(|seg: Seq<char>| is_component(seg));
            let (up, kept) = resolve_components(comps, rooted);
            &&& forall|i: int|
                0 <= i < kept.len() ==> is_component(#[trigger] kept[i]) && kept[i] != seq!['.', '.']
            &&& rooted ==> up == 0
        }),
{
    let rooted = e.len() > 0 && e[0] == '/';
    let pred = |seg: Seq<char>| is_component(seg);
    let comps = split_slash(e).filter(pred);
    assert forall|i: int| 0 <= i < comps.len() implies is_component(#[trigger] comps[i]) by {
        split_slash(e).lemma_filter_pred(pred, i);
    }
    lemma_resolve_components_clean(comps, rooted);
}

/// No char of `seg` is a `/`.
pub open spec fn slash_free(seg: Seq<char>) -> bool {
    forall|i: int| 0 <= i < seg.len() ==> seg[i] != '/'
}

/// `n` parts `..`.
pub open spec fn ups(n: nat) -> Seq<Seq<char>> {
    Seq::new(n, |_i: int| seq!['.', '.'])
}

proof fn lemma_split_slash_free(s: Seq<char>)
    ensures
        forall|i: int| 0 <= i < split_slash(s).len() ==> slash_free(#[trigger] split_slash(s)[i]),
    decreases s.len(),
{
    lemma_split_nonempty(s);
    if s.len() > 0 {
        lemma_split_slash_free(s.drop_last());
        lemma_split_nonempty(s.drop_last());
        let r = split_slash(s.drop_last());
        if s.last() != '/' {
            let l = r.last().push(s.last());
            assert(slash_free(r[r.len() - 1]));
            assert(slash_free(l));
            let n = r.drop_last().push(l);
            assert forall|i: int| 0 <= i < n.len() implies slash_free(#[trigger] n[i]) by {
                if i < n.len() - 1 {
                    assert(n[i] == r[i]);
                }
            }
        } else {
            let n = r.push(Seq::<char>::empty());
            assert forall|i: int| 0 <= i < n.len() implies slash_free(#[trigger] n[i]) by {
                if i < n.len() - 1 {
                    assert(n[i] == r[i]);
                }
            }
        }
    }
}

proof fn lemma_resolve_slash_free(comps: Seq<Seq<char>>, rooted: bool)
    requires
        forall|i: int| 0 <= i < comps.len() ==> slash_free(#[trigger] comps[i]),
    ensures
        forall|i: int|
            0 <= i < resolve_components(comps, rooted).1.len() ==> slash_free(
                #[trigger] resolve_components(comps, rooted).1[i],
            ),
    decreases comps.len(),
{
    if comps.len() > 0 {
        let front = comps.drop_last();
        assert forall|i: int| 0 <= i < front.len() implies slash_free(#[trigger] front[i]) by {
            assert(front[i] == comps[i]);
        }
        lemma_resolve_slash_free(front, rooted);
        let kept = resolve_components(front, rooted).1;
        let k2 = resolve_components(comps, rooted).1;
        assert(slash_free(comps[comps.len() - 1]));
        assert forall|i: int| 0 <= i < k2.len() implies slash_free(#[trigger] k2[i]) by {
            if i < kept.len() {
                assert(k2[i] == kept[i]);
            }
        }
    }
}

proof fn lemma_split_single(seg: Seq<char>)
    requires
        slash_free(seg),
    ensures
        split_slash(seg) == seq![seg],
    decreases seg.len(),
{
    if seg.len() > 0 {
        let init = seg.drop_last();
        assert forall|i: int| 0 <= i < init.len() implies init[i] != '/' by {
            assert(init[i] == seg[i]);
        }
        lemma_split_single(init);
        assert(seg[seg.len() - 1] != '/');
        assert(init.push(seg.last()) =~= seg);
        assert(seq![init].drop_last().push(init.push(seg.last())) =~= seq![seg]);
    } else {
        assert(seg =~= Seq::<char>::empty());
    }
}

proof fn lemma_split_concat(a: Seq<char>, b: Seq<char>)
    ensures
        split_slash(a + seq!['/'] + b) == split_slash(a) + split_slash(b),
    decreases b.len(),
{
    let w = a + seq!['/'] + b;
    if b.len() == 0 {
        assert(w.drop_last() =~= a);
        assert(split_slash(b) =~= seq![Seq::<char>::empty()]);
        assert(split_slash(a).push(Seq::<char>::empty()) =~= split_slash(a) + split_slash(b));
    } else {
        let b0 = b.drop_last();
        lemma_split_concat(a, b0);
        lemma_split_nonempty(b0);
        assert(w.drop_last() =~= a + seq!['/'] + b0);
        assert(w.last() == b.last());
        let r = split_slash(a) + split_slash(b0);
        if b.last() == '/' {
            assert(r.push(Seq::<char>::empty()) =~= split_slash(a) + split_slash(b0).push(
                Seq::<char>::empty(),
            ));
        } else {
            let sb = split_slash(b0);
            assert(r.drop_last() =~= split_slash(a) + sb.drop_last());
            assert(r.last() == sb.last());
            assert(r.drop_last().push(r.last().push(b.last())) =~= split_slash(a) + sb.drop_last().push(
                sb.last().push(b.last()),
            ));
        }
    }
}

proof fn lemma_split_join(parts: Seq<Seq<char>>)
    requires
        parts.len() >= 1,
        forall|i: int| 0 <= i < parts.len() ==> slash_free(#[trigger] parts[i]),
    ensures
        split_slash(join_slash(parts)) == parts,
    decreases parts.len(),
{
    if parts.len() == 1 {
        lemma_split_single(parts[0]);
        assert(seq![parts[0]] =~= parts);
    } else {
        let init = parts.drop_last();
        assert forall|i: int| 0 <= i < init.len() implies slash_free(#[trigger] init[i]) by {
            assert(init[i] == parts[i]);
        }
        lemma_split_join(init);
        assert(slash_free(parts[parts.len() - 1]));
        lemma_split_single(parts.last());
        lemma_split_concat(join_slash(init), parts.last());
        assert(init + seq![parts.last()] =~= parts);
    }
}

proof fn lemma_join_first(parts: Seq<Seq<char>>)
    requires
        parts.len() >= 1,
    ensures
        join_slash(parts).len() >= parts[0].len(),
        forall|i: int| 0 <= i < parts[0].len() ==> join_slash(parts)[i] == parts[0][i],
    decreases parts.len(),
{
    if parts.len() > 1 {
        let init = parts.drop_last();
        lemma_join_first(init);
        assert(init[0] == parts[0]);
    }
}

proof fn lemma_filter_all(s: Seq<Seq<char>>)
    requires
        forall|i: int| 0 <= i < s.len() ==> is_component(#[trigger] s[i]),
    ensures
        s.filter(|seg: Seq<char>| is_component(seg)) == s,
    decreases s.len(),
{
    reveal(Seq::filter);
    if s.len() > 0 {
        let init = s.drop_last();
        assert forall|i: int| 0 <= i < init.len() implies is_component(#[trigger] init[i]) by {
            assert(init[i] == s[i]);
        }
        lemma_filter_all(init);
        assert(is_component(s[s.len() - 1]));
        assert(init.push(s.last()) =~= s);
    }
}

proof fn lemma_resolve_normal(n: nat, kept: Seq<Seq<char>>, rooted: bool)
    requires
        forall|i: int|
            0 <= i < kept.len() ==> is_component(#[trigger] kept[i]) && kept[i] != seq!['.', '.'],
        rooted ==> n == 0,
    ensures
        resolve_components(ups(n) + kept, rooted) == (n, kept),
    decreases kept.len(), n,
{
    if kept.len() > 0 {
        let init = kept.drop_last();
        assert forall|i: int| 0 <= i < init.len() implies is_component(#[trigger] init[i]) && init[i]
            != seq!['.', '.'] by {
            assert(init[i] == kept[i]);
        }
        lemma_resolve_normal(n, init, rooted);
        assert((ups(n) + kept).drop_last() =~= ups(n) + init);
        assert((ups(n) + kept).last() == kept[kept.len() - 1]);
        assert(init.push(kept.last()) =~= kept);
    } else if n > 0 {
        lemma_resolve_normal((n - 1) as nat, kept, rooted);
        assert((ups(n) + kept).drop_last() =~= ups((n - 1) as nat) + kept);
        assert((ups(n) + kept).last() == seq!['.', '.']);
        assert(ups((n - 1) as nat) + kept =~= ups((n - 1) as nat));
        assert(ups(n) + kept =~= ups(n));
    } else {
        assert(ups(0) + kept =~= Seq::<Seq<char>>::empty());
    }
}

proof fn lemma_normal_form_root()
    ensures
        normal_form(seq!['/']) == seq!['/'],
{
    let pred = |seg: Seq<char>| is_component(seg);
    let empty = Seq::<char>::empty();
    let r = seq!['/'];
    assert(r.drop_last() =~= empty);
    assert(r.last() == '/');
    assert(split_slash(empty) == seq![empty]);
    let ee = seq![empty, empty];
    assert(seq![empty].push(empty) =~= ee);
    assert(split_slash(r) == ee);
    assert(ee.all(|x: Seq<char>| !pred(x)));
    ee.lemma_all_neg_filter_empty(pred);
    let none = Seq::<Seq<char>>::empty();
    assert(ee.filter(pred) =~= none);
    assert(resolve_components(none, true) == (0nat, none));
    assert(Seq::new(0, |_i: int| seq!['.', '.']) + none =~= none);
    assert(seq!['/'] + join_slash(none) =~= r);
}

proof fn lemma_normal_form_empty()
    ensures
        normal_form(Seq::<char>::empty()) == Seq::<char>::empty(),
{
    let pred = |seg: Seq<char>| is_component(seg);
    let empty = Seq::<char>::empty();
    let ef = seq![empty];
    assert(split_slash(empty) == ef);
    assert(ef.all(|x: Seq<char>| !pred(x)));
    ef.lemma_all_neg_filter_empty(pred);
    assert(split_slash(empty).filter(pred) =~= Seq::<Seq<char>>::empty());
    assert(ups(0) + Seq::<Seq<char>>::empty() =~= Seq::<Seq<char>>::empty());
}

/// Normalizing a path twice gives what normalizing it once gave.
#[verifier::rlimit(80)]
pub proof fn lemma_normal_form_idempotent(e: Seq<char>)
    ensures
        normal_form(normal_form(e)) == normal_form(e),
{
    let pred = |seg: Seq<char>| is_component(seg);
    let rooted = e.len() > 0 && e[0] == '/';
    let comps = split_slash(e).filter(pred);
    let (up, kept) = resolve_components(comps, rooted);
    let parts = ups(up) + kept;
    let j = join_slash(parts);
    let body = if rooted {
        seq!['/'] + j
    } else {
        j
    };
    let r = normal_form(e);
    lemma_normal_form_parts(e);
    lemma_split_slash_free(e);
    assert forall|i: int| 0 <= i < comps.len() implies slash_free(#[trigger] comps[i]) by {
        assert(comps.contains(comps[i]));
        split_slash(e).lemma_filter_contains_rev(pred, comps[i]);
        let k = choose|k: int| 0 <= k < split_slash(e).len() && split_slash(e)[k] == comps[i];
        assert(slash_free(split_slash(e)[k]));
    }
    lemma_resolve_slash_free(comps, rooted);
    assert forall|i: int| 0 <= i < comps.len() implies is_component(#[trigger] comps[i]) by {
        split_slash(e).lemma_filter_pred(pred, i);
    }
    lemma_resolve_components_clean(comps, rooted);
    assert forall|i: int| 0 <= i < parts.len() implies is_component(#[trigger] parts[i]) && slash_free(
        parts[i],
    ) by {
        if i < up {
            let dd = seq!['.', '.'];
            assert(parts[i] == dd);
            assert(dd.len() == 2);
            assert(dd != seq!['.']) by {
                assert(seq!['.'].len() == 1);
            }
            assert(dd[0] == '.' && dd[1] == '.');
        } else {
            assert(parts[i] == kept[i - up]);
            assert(is_component(kept[i - up]));
            assert(slash_free(resolve_components(comps, rooted).1[i - up]));
        }
    }
    assert(r == if e.len() > 0 && e.last() == '/' && body.len() > 0 && body.last() != '/' {
        body.push('/')
    } else {
        body
    });
    let empty = Seq::<char>::empty();
    if parts.len() == 0 {
        assert(j == empty);
        if rooted {
            assert(r =~= seq!['/']);
            lemma_normal_form_root();
        } else {
            assert(r =~= empty);
            lemma_normal_form_empty();
        }
    } else {
        lemma_split_join(parts);
        lemma_join_first(parts);
        lemma_filter_all(parts);
        let ef = seq![empty];
        assert(ef.drop_last() =~= Seq::<Seq<char>>::empty());
        assert(ef.all(|x: Seq<char>| !pred(x)));
        ef.lemma_all_neg_filter_empty(pred);
        assert(ef.filter(pred) =~= Seq::<Seq<char>>::empty());
        assert(split_slash(empty) =~= ef);
        let pushed = e.len() > 0 && e.last() == '/' && body.len() > 0 && body.last() != '/';
        let core = if rooted {
            empty + seq!['/'] + j
        } else {
            j
        };
        assert(core =~= body);
        let sc = if rooted {
            ef + parts
        } else {
            parts
        };
        if rooted {
            lemma_split_concat(empty, j);
        }
        assert(split_slash(body) == sc);
        let sr = if pushed {
            sc + ef
        } else {
            sc
        };
        if pushed {
            lemma_split_concat(body, empty);
            assert(body + seq!['/'] + empty =~= r);
        }
        assert(split_slash(r) == sr);
        Seq::filter_distributes_over_add(ef, parts, pred);
        Seq::filter_distributes_over_add(sc, ef, pred);
        assert(split_slash(r).filter(pred) =~= parts);
        assert(parts[0].len() > 0);
        if !rooted {
            assert(r[0] == parts[0][0]);
            assert(slash_free(parts[0]));
        }
        let rooted2 = r.len() > 0 && r[0] == '/';
        assert(rooted2 == rooted);
        lemma_resolve_normal(up, kept, rooted);
        assert(resolve_components(split_slash(r).filter(pred), rooted2) == (up, kept));
        assert(normal_form(r) == if r.len() > 0 && r.last() == '/' && body.len() > 0 && body.last()
            != '/' {
            body.push('/')
        } else {
            body
        });
        if pushed {
            assert(r.last() == '/');
        } else {
            assert(r == body);
        }
    }
}

/// Normalizing a path prompt's input twice (see `normalize_path_string`)
/// gives what normalizing it once gave, unless the first result is `~` or
/// starts with `~/` and there is a home directory: the second pass would
/// expand that tilde.
pub proof fn lemma_normalize_path_idempotent(input: Seq<char>, home: Option<Seq<char>>)
    requires
        ({
            let r = normalized_path(input, home);
            home is None || !(r == seq!['~'] || r == seq!['~', '/'] || starts_with(r, seq!['~', '/']))
        }),
    ensures
        normalized_path(normalized_path(input, home), home) == normalized_path(input, home),
{
    lemma_normal_form_idempotent(expand_tilde(input, home));
}

} // verus!
