//! Incremental search: the search state, its matches, and the decisions
//! the editor acts on as the query changes and the user cycles matches.
use vstd::prelude::*;

use unicode_segmentation::UnicodeSegmentation;

use crate::text::{chars_of, string_of};

verus! {

/// Direction of incremental search.
#[derive(Debug, Clone, Copy, PartialEq, Eq, Structural)]
pub enum SearchDirection {
    Forward,
    Backward,
}

/// Whether `q` occurs in `text` at char position `p`.
pub open spec fn occurs_at(text: Seq<char>, q: Seq<char>, p: int) -> bool {
    0 <= p && p + q.len() <= text.len() && text.subrange(p, p + q.len()) == q
}

/// `ms` lists, in increasing order, every char position where the non-empty
/// `q` occurs in `text` (overlapping occurrences included); for an empty
/// `q` it is empty.
pub open spec fn all_matches(text: Seq<char>, q: Seq<char>, ms: Seq<usize>) -> bool {
    if q.len() == 0 {
        ms.len() == 0
    } else {
        &&& forall|i: int, j: int| 0 <= i < j < ms.len() ==> ms[i] < ms[j]
        &&& forall|i: int| 0 <= i < ms.len() ==> occurs_at(text, q, #[trigger] ms[i] as int)
        &&& forall|p: int| #[trigger] occurs_at(text, q, p) ==> ms.contains(p as usize)
    }
}

/// The first element of `ms` at or after `x` (strictly after when `strict`).
pub open spec fn first_from(ms: Seq<usize>, x: int, strict: bool) -> Option<usize>
    decreases ms.len(),
{
    if ms.len() == 0 {
        None
    } else if (strict && ms[0] > x) || (!strict && ms[0] >= x) {
        Some(ms[0])
    } else {
        first_from(ms.drop_first(), x, strict)
    }
}

/// The last element `p` of `ms` whose match of length `n` ends at or
/// before `x`.
pub open spec fn last_ending_by(ms: Seq<usize>, n: int, x: int) -> Option<usize>
    decreases ms.len(),
{
    if ms.len() == 0 {
        None
    } else if ms.last() + n <= x {
        Some(ms.last())
    } else {
        last_ending_by(ms.drop_last(), n, x)
    }
}

/// The char positions of all occurrences of `query` in `text`, overlapping
/// ones included, in increasing order; none for an empty query.
pub fn compute_matches_for_query(text: &str, query: &str) -> (ms: Vec<usize>)
    ensures
        all_matches(text@, query@, ms@),
{
    let t = chars_of(text);
    let q = chars_of(query);
    let mut ms: Vec<usize> = Vec::new();
    if q.len() == 0 || q.len() > t.len() {
        proof {
            if q@.len() > 0 {
                assert forall|p: int| #[trigger] occurs_at(text@, query@, p) implies ms@.contains(
                    p as usize,
                ) by {}
            }
        }
        return ms;
    }
    let last = t.len() - q.len();
    let mut p: usize = 0;
    while p <= last
        invariant
            t@ == text@,
            q@ == query@,
            q@.len() > 0,
            last == t@.len() - q@.len(),
            t@.len() <= usize::MAX,
            p <= last + 1,
            forall|i: int, j: int| 0 <= i < j < ms@.len() ==> ms@[i] < ms@[j],
            forall|i: int| 0 <= i < ms@.len() ==> ms@[i] < p,
            forall|i: int| 0 <= i < ms@.len() ==> occurs_at(text@, query@, #[trigger] ms@[i] as int),
            forall|x: int| 0 <= x < p && #[trigger] occurs_at(text@, query@, x) ==> ms@.contains(
                x as usize,
            ),
        decreases last + 1 - p,
    {
        let mut k: usize = 0;
        while k < q.len() && t[p + k] == q[k]
            invariant
                p <= last,
                last == t@.len() - q@.len(),
                t@.len() <= usize::MAX,
                k <= q@.len(),
                forall|m: int| 0 <= m < k ==> t@[p + m] == q@[m],
            decreases q@.len() - k,
        {
            k += 1;
        }
        let ghost before = ms@;
        if k == q.len() {
            assert(t@.subrange(p as int, p + q@.len()) =~= q@);
            ms.push(p);
            assert(ms@.last() == p);
        } else {
            assert(!occurs_at(text@, query@, p as int)) by {
                if occurs_at(text@, query@, p as int) {
                    assert(t@.subrange(p as int, p + q@.len())[k as int] == q@[k as int]);
                }
            }
        }
        assert forall|x: int| 0 <= x < p + 1 && #[trigger] occurs_at(text@, query@, x) implies ms@.contains(
            x as usize,
        ) by {
            if x < p {
                assert(before.contains(x as usize));
                let w = choose|w: int| 0 <= w < before.len() && before[w] == x as usize;
                assert(ms@[w] == x as usize);
            } else {
                assert(ms@[ms@.len() - 1] == p);
            }
        }
        p += 1;
    }
    assert forall|x: int| #[trigger] occurs_at(text@, query@, x) implies ms@.contains(x as usize) by {
        assert(x <= last);
    }
    ms
}

proof fn lemma_first_from(ms: Seq<usize>, x: int, strict: bool)
    ensures
        first_from(ms, x, strict) matches Some(p) ==> ms.contains(p) && (if strict {
            p > x
        } else {
            p >= x
        }) && exists|i: int| 0 <= i < ms.len() && ms[i] == p && (forall|j: int|
            0 <= j < i ==> !(if strict {
                ms[j] > x
            } else {
                ms[j] >= x
            })),
        first_from(ms, x, strict) is None ==> forall|j: int|
            0 <= j < ms.len() ==> !(if strict {
                #[trigger] ms[j] > x
            } else {
                ms[j] >= x
            }),
    decreases ms.len(),
{
    if ms.len() > 0 {
        lemma_first_from(ms.drop_first(), x, strict);
        if (strict && ms[0] > x) || (!strict && ms[0] >= x) {
            assert(ms[0] == ms[0]);
        } else {
            if first_from(ms.drop_first(), x, strict) is Some {
                let p = first_from(ms.drop_first(), x, strict)->0;
                let i = choose|i: int| 0 <= i < ms.drop_first().len() && ms.drop_first()[i] == p && (forall|j: int|
                    0 <= j < i ==> !(if strict {
                        ms.drop_first()[j] > x
                    } else {
                        ms.drop_first()[j] >= x
                    }));
                assert(ms[i + 1] == p);
                assert forall|j: int| 0 <= j < i + 1 implies !(if strict {
                    ms[j] > x
                } else {
                    ms[j] >= x
                }) by {
                    if j > 0 {
                        assert(ms[j] == ms.drop_first()[j - 1]);
                    }
                }
            } else {
                assert forall|j: int| 0 <= j < ms.len() implies !(if strict {
                    #[trigger] ms[j] > x
                } else {
                    ms[j] >= x
                }) by {
                    if j > 0 {
                        assert(ms[j] == ms.drop_first()[j - 1]);
                    }
                }
            }
        }
    }
}

/// A forward search goes to the nearest occurrence of the query at or
/// after the point it starts from (strictly after, when cycling), and
/// fails only when there is none.
pub proof fn lemma_forward_search_finds_nearest(
    text: Seq<char>,
    q: Seq<char>,
    ms: Seq<usize>,
    x: int,
    strict: bool,
)
    requires
        q.len() > 0,
        text.len() <= usize::MAX,
        all_matches(text, q, ms),
    ensures
        first_from(ms, x, strict) matches Some(p) ==> {
            &&& occurs_at(text, q, p as int)
            &&& if strict {
                p > x
            } else {
                p >= x
            }
            &&& forall|y: int|
                (if strict {
                    y > x
                } else {
                    y >= x
                }) && y < p ==> !#[trigger] occurs_at(text, q, y)
        },
        first_from(ms, x, strict) is None ==> forall|y: int|
            (if strict {
                y > x
            } else {
                y >= x
            }) ==> !#[trigger] occurs_at(text, q, y),
{
    lemma_first_from(ms, x, strict);
    if first_from(ms, x, strict) is Some {
        let p = first_from(ms, x, strict)->0;
        let i = choose|i: int| 0 <= i < ms.len() && ms[i] == p && (forall|j: int|
            0 <= j < i ==> !(if strict {
                ms[j] > x
            } else {
                ms[j] >= x
            }));
        assert(occurs_at(text, q, ms[i] as int));
        assert forall|y: int|
            (if strict {
                y > x
            } else {
                y >= x
            }) && y < p implies !#[trigger] occurs_at(text, q, y) by {
            if occurs_at(text, q, y) {
                assert(ms.contains(y as usize));
                let j = choose|j: int| 0 <= j < ms.len() && ms[j] == y as usize;
                if j > i {
                    assert(ms[i] < ms[j]);
                } else if j < i {
                    assert(!(if strict {
                        ms[j] > x
                    } else {
                        ms[j] >= x
                    }));
                }
            }
        }
    } else {
        assert forall|y: int|
            (if strict {
                y > x
            } else {
                y >= x
            }) implies !#[trigger] occurs_at(text, q, y) by {
            if occurs_at(text, q, y) {
                assert(ms.contains(y as usize));
                let j = choose|j: int| 0 <= j < ms.len() && ms[j] == y as usize;
                assert(!(if strict {
                    ms[j] > x
                } else {
                    ms[j] >= x
                }));
            }
        }
    }
}

proof fn lemma_last_ending_by(ms: Seq<usize>, n: int, x: int)
    ensures
        last_ending_by(ms, n, x) matches Some(p) ==> exists|i: int|
            0 <= i < ms.len() && ms[i] == p && p + n <= x && (forall|j: int|
                i < j < ms.len() ==> #[trigger] ms[j] + n > x),
        last_ending_by(ms, n, x) is None ==> forall|j: int| 0 <= j < ms.len() ==> #[trigger] ms[j] + n > x,
    decreases ms.len(),
{
    if ms.len() > 0 {
        let init = ms.drop_last();
        lemma_last_ending_by(init, n, x);
        if ms.last() + n <= x {
            let i = ms.len() - 1;
            assert(ms[i] == ms.last());
        } else {
            if last_ending_by(init, n, x) is Some {
                let p = last_ending_by(init, n, x)->0;
                let i = choose|i: int|
                    0 <= i < init.len() && init[i] == p && p + n <= x && (forall|j: int|
                        i < j < init.len() ==> #[trigger] init[j] + n > x);
                assert(ms[i] == p);
                assert forall|j: int| i < j < ms.len() implies #[trigger] ms[j] + n > x by {
                    if j < ms.len() - 1 {
                        assert(ms[j] == init[j]);
                    }
                }
            } else {
                assert forall|j: int| 0 <= j < ms.len() implies #[trigger] ms[j] + n > x by {
                    if j < ms.len() - 1 {
                        assert(ms[j] == init[j]);
                    }
                }
            }
        }
    }
}

/// A backward search goes to the nearest occurrence of the query that ends
/// at or before the point it starts from, and fails only when no
/// occurrence ends there.
pub proof fn lemma_backward_search_finds_nearest(
    text: Seq<char>,
    q: Seq<char>,
    ms: Seq<usize>,
    x: int,
)
    requires
        q.len() > 0,
        text.len() <= usize::MAX,
        all_matches(text, q, ms),
    ensures
        last_ending_by(ms, q.len() as int, x) matches Some(p) ==> {
            &&& occurs_at(text, q, p as int)
            &&& p + q.len() <= x
            &&& forall|y: int|
                p < y && y + q.len() <= x ==> !#[trigger] occurs_at(text, q, y)
        },
        last_ending_by(ms, q.len() as int, x) is None ==> forall|y: int|
            y + q.len() <= x ==> !#[trigger] occurs_at(text, q, y),
{
    let n = q.len() as int;
    lemma_last_ending_by(ms, n, x);
    if last_ending_by(ms, n, x) is Some {
        let p = last_ending_by(ms, n, x)->0;
        let i = choose|i: int|
            0 <= i < ms.len() && ms[i] == p && p + n <= x && (forall|j: int|
                i < j < ms.len() ==> #[trigger] ms[j] + n > x);
        assert(occurs_at(text, q, ms[i] as int));
        assert forall|y: int| p < y && y + q.len() <= x implies !#[trigger] occurs_at(text, q, y) by {
            if occurs_at(text, q, y) {
                assert(ms.contains(y as usize));
                let j = choose|j: int| 0 <= j < ms.len() && ms[j] == y as usize;
                if j < i {
                    assert(ms[j] < ms[i]);
                } else if j > i {
                    assert(ms[j] + n > x);
                }
            }
        }
    } else {
        assert forall|y: int| y + q.len() <= x implies !#[trigger] occurs_at(text, q, y) by {
            if occurs_at(text, q, y) {
                assert(ms.contains(y as usize));
                let j = choose|j: int| 0 <= j < ms.len() && ms[j] == y as usize;
                assert(ms[j] + n > x);
            }
        }
    }
}

/// The isearch prompt label for the given state — the label is live: it
/// tracks direction changes and failing searches while the prompt is up.
pub fn isearch_label(direction: SearchDirection, failing: bool) -> (label: &'static str)
    ensures
        label@ == isearch_label_text(direction, failing),
{
    match (direction, failing) {
        (SearchDirection::Forward, false) => "I-search: ",
        (SearchDirection::Forward, true) => "Failing I-search: ",
        (SearchDirection::Backward, false) => "I-search backward: ",
        (SearchDirection::Backward, true) => "Failing I-search backward: ",
    }
}

/// The text of the isearch prompt label.
pub open spec fn isearch_label_text(direction: SearchDirection, failing: bool) -> Seq<char> {
    match (direction, failing) {
        (SearchDirection::Forward, false) => "I-search: "@,
        (SearchDirection::Forward, true) => "Failing I-search: "@,
        (SearchDirection::Backward, false) => "I-search backward: "@,
        (SearchDirection::Backward, true) => "Failing I-search backward: "@,
    }
}

/// What the editor does with point after the query changed.
#[derive(Debug, Clone, Copy, PartialEq, Eq, Structural)]
pub enum ISearchMove {
    /// The query is empty: restore the view the search started from.
    RestoreOriginal,
    /// Move point to the match at this char position.
    GoTo(usize),
    /// No match: leave point where it is.
    Stay,
}

/// State for incremental search.
#[derive(Debug)]
pub struct ISearchState {
    pub query: String,
    /// Contiguous snapshot made once when search starts. Isearch owns input
    /// until it finishes, so the searched buffer cannot change underneath it.
    pub text_snapshot: String,
    pub direction: SearchDirection,
    /// Position before search started (to restore on C-g).
    pub original_point: usize,
    pub original_scroll_top: usize,
    pub original_scroll_row_offset: usize,
    /// Current match position (char offset of match start).
    pub current_match: Option<usize>,
    /// Char positions of all matches, recomputed once per query change.
    /// Navigation and rendering read this instead of rescanning the buffer.
    pub matches: Vec<usize>,
    /// Whether the last search action failed to find a match. Shown in the
    /// prompt label ("Failing I-search: "), like emacs.
    pub failing: bool,
}

/// The match a search goes to from `point`: forward, the first match at or
/// after it (strictly after when `strict`); backward, the last match that
/// ends at or before it.
pub open spec fn search_target(
    ms: Seq<usize>,
    direction: SearchDirection,
    n: int,
    point: int,
    strict: bool,
) -> Option<usize> {
    match direction {
        SearchDirection::Forward => first_from(ms, point, strict),
        SearchDirection::Backward => last_ending_by(ms, n, point),
    }
}

fn first_from_exec(ms: &Vec<usize>, x: usize, strict: bool) -> (r: Option<usize>)
    ensures
        r == first_from(ms@, x as int, strict),
{
    let mut i: usize = 0;
    assert(ms@.skip(0) =~= ms@);
    while i < ms.len()
        invariant
            i <= ms@.len(),
            first_from(ms@, x as int, strict) == first_from(ms@.skip(i as int), x as int, strict),
        decreases ms@.len() - i,
    {
        let p = ms[i];
        if (strict && p > x) || (!strict && p >= x) {
            return Some(p);
        }
        assert(ms@.skip(i as int).drop_first() =~= ms@.skip(i + 1));
        i += 1;
    }
    None
}

fn last_ending_by_exec(ms: &Vec<usize>, n: usize, x: usize) -> (r: Option<usize>)
    ensures
        r == last_ending_by(ms@, n as int, x as int),
{
    let mut i: usize = ms.len();
    assert(ms@.take(i as int) =~= ms@);
    while i > 0
        invariant
            i <= ms@.len(),
            last_ending_by(ms@, n as int, x as int) == last_ending_by(ms@.take(i as int), n as int, x as int),
        decreases i,
    {
        let p = ms[i - 1];
        if p as u128 + n as u128 <= x as u128 {
            return Some(p);
        }
        assert(ms@.take(i as int).drop_last() =~= ms@.take(i - 1));
        i -= 1;
    }
    None
}

/// The query text after a paste into it: every line-break form becomes a
/// space (the query is a single line).
pub open spec fn paste_into_query(text: Seq<char>) -> Seq<char>
    decreases text.len(),
{
    if text.len() == 0 {
        text
    } else if text.len() >= 2 && text[0] == '\r' && text[1] == '\n' {
        seq![' '] + paste_into_query(text.skip(2))
    } else if text[0] == '\r' || text[0] == '\n' {
        seq![' '] + paste_into_query(text.skip(1))
    } else {
        seq![text[0]] + paste_into_query(text.skip(1))
    }
}

/// The query without its last user-perceived character (extended grapheme
/// cluster), as `unicode_segmentation` splits it.
pub uninterp spec fn without_last_grapheme(s: Seq<char>) -> Seq<char>;

/// The string up to the start of its last extended grapheme cluster
/// (`UnicodeSegmentation::grapheme_indices(true).next_back()`), or the
/// whole string when it is empty. The result is a proper prefix of a
/// non-empty string.
#[verifier::external_body]
fn drop_last_grapheme(s: &str) -> (r: String)
    ensures
        r@ == without_last_grapheme(s@),
        r@.len() <= s@.len(),
        r@ == s@.take(r@.len() as int),
        s@.len() > 0 ==> r@.len() < s@.len(),
{
    match s.grapheme_indices(true).next_back() {
        Some((start, _)) => s[..start].to_string(),
        None => s.to_string(),
    }
}

/// What re-running the search leaves in `s` and tells the editor (`mv`),
/// its matches being those of the query: an empty query returns to the
/// original view with no match and no failure; otherwise the first match
/// from the original point (forward: at or after it; backward: ending at or
/// before it) becomes current and point moves there, and the search fails
/// when there is none.
pub open spec fn updated(s: ISearchState, mv: ISearchMove) -> bool {
    if s.query@.len() == 0 {
        mv == ISearchMove::RestoreOriginal && s.current_match is None && !s.failing
    } else {
        let found = search_target(
            s.matches@,
            s.direction,
            s.query@.len() as int,
            s.original_point as int,
            false,
        );
        &&& s.failing == found is None
        &&& s.current_match == found
        &&& mv == match found {
            Some(p) => ISearchMove::GoTo(p),
            None => ISearchMove::Stay,
        }
    }
}

impl ISearchState {
    /// A search that starts from `original_point` (and the view around it)
    /// over `text_snapshot`, with an empty query.
    pub fn new(
        text_snapshot: String,
        direction: SearchDirection,
        original_point: usize,
        original_scroll_top: usize,
        original_scroll_row_offset: usize,
    ) -> (s: Self)
        ensures
            s.query@.len() == 0,
            s.text_snapshot == text_snapshot,
            s.direction == direction,
            s.original_point == original_point,
            s.original_scroll_top == original_scroll_top,
            s.original_scroll_row_offset == original_scroll_row_offset,
            s.current_match is None,
            s.matches@.len() == 0,
            !s.failing,
    {
        ISearchState {
            query: String::new(),
            text_snapshot,
            direction,
            original_point,
            original_scroll_top,
            original_scroll_row_offset,
            current_match: None,
            matches: Vec::new(),
            failing: false,
        }
    }

    /// The prompt label for the current state.
    pub fn label(&self) -> (label: &'static str)
        ensures
            label@ == isearch_label_text(self.direction, self.failing),
    {
        isearch_label(self.direction, self.failing)
    }

    /// The point and scroll position to restore when the search is
    /// cancelled.
    pub fn original_view(&self) -> (v: (usize, usize, usize))
        ensures
            v == (self.original_point, self.original_scroll_top, self.original_scroll_row_offset),
    {
        (self.original_point, self.original_scroll_top, self.original_scroll_row_offset)
    }

    /// Called when the query changes: rescan the snapshot once, cache all
    /// match positions, and pick the first match from the original point
    /// (forward: at or after it; backward: ending at or before it). An empty
    /// query returns to the original view.
    pub fn update(&mut self) -> (mv: ISearchMove)
        ensures
            final(self).query == old(self).query,
            final(self).text_snapshot == old(self).text_snapshot,
            final(self).direction == old(self).direction,
            final(self).original_point == old(self).original_point,
            final(self).original_scroll_top == old(self).original_scroll_top,
            final(self).original_scroll_row_offset == old(self).original_scroll_row_offset,
            all_matches(old(self).text_snapshot@, old(self).query@, final(self).matches@),
            old(self).query@.len() == 0 ==> mv == ISearchMove::RestoreOriginal
                && final(self).current_match is None && !final(self).failing,
            old(self).query@.len() > 0 ==> ({
                let found = search_target(
                    final(self).matches@,
                    old(self).direction,
                    old(self).query@.len() as int,
                    old(self).original_point as int,
                    false,
                );
                &&& final(self).failing == found is None
                &&& final(self).current_match == found
                &&& mv == match found {
                    Some(p) => ISearchMove::GoTo(p),
                    None => ISearchMove::Stay,
                }
            }),
    {
        let query_len = self.query.as_str().unicode_len();
        if query_len == 0 {
            self.current_match = None;
            self.matches = Vec::new();
            self.failing = false;
            return ISearchMove::RestoreOriginal;
        }
        let matches = compute_matches_for_query(self.text_snapshot.as_str(), self.query.as_str());
        let found = match self.direction {
            SearchDirection::Forward => first_from_exec(&matches, self.original_point, false),
            SearchDirection::Backward => last_ending_by_exec(&matches, query_len, self.original_point),
        };
        self.matches = matches;
        self.failing = found.is_none();
        self.current_match = found;
        match found {
            Some(p) => ISearchMove::GoTo(p),
            None => ISearchMove::Stay,
        }
    }

    /// Append pasted text to the query (emacs `isearch-yank`), with its
    /// line breaks turned into spaces, and re-run the search (see
    /// `update`).
    pub fn yank(&mut self, text: &str) -> (mv: ISearchMove)
        ensures
            final(self).query@ == old(self).query@ + paste_into_query(text@),
            final(self).text_snapshot == old(self).text_snapshot,
            final(self).direction == old(self).direction,
            final(self).original_point == old(self).original_point,
            final(self).original_scroll_top == old(self).original_scroll_top,
            final(self).original_scroll_row_offset == old(self).original_scroll_row_offset,
            all_matches(old(self).text_snapshot@, final(self).query@, final(self).matches@),
            updated(*final(self), mv),
    {
        let cs = chars_of(text);
        let mut q = chars_of(self.query.as_str());
        let ghost q0 = q@;
        let mut i: usize = 0;
        assert(cs@.skip(0) =~= cs@);
        while i < cs.len()
            invariant
                i <= cs@.len(),
                q@ + paste_into_query(cs@.skip(i as int)) == q0 + paste_into_query(cs@),
            decreases cs@.len() - i,
        {
            let ghost rest = cs@.skip(i as int);
            let ghost before = q@;
            if i + 1 < cs.len() && cs[i] == '\r' && cs[i + 1] == '\n' {
                q.push(' ');
                assert(rest.skip(2) =~= cs@.skip(i + 2));
                assert(q@ + paste_into_query(cs@.skip(i + 2)) =~= before + paste_into_query(rest));
                i += 2;
            } else {
                if cs[i] == '\r' || cs[i] == '\n' {
                    q.push(' ');
                } else {
                    q.push(cs[i]);
                }
                assert(rest.skip(1) =~= cs@.skip(i + 1));
                assert(q@ + paste_into_query(cs@.skip(i + 1)) =~= before + paste_into_query(rest));
                i += 1;
            }
        }
        assert(q@ + paste_into_query(cs@.skip(i as int)) =~= q@);
        self.query = string_of(q.as_slice());
        self.update()
    }

    /// Remove one user-perceived character from the query and re-run the
    /// search (see `update`).
    pub fn backspace(&mut self) -> (mv: ISearchMove)
        ensures
            final(self).query@ == without_last_grapheme(old(self).query@),
            old(self).query@.len() > 0 ==> final(self).query@.len() < old(self).query@.len(),
            final(self).text_snapshot == old(self).text_snapshot,
            final(self).direction == old(self).direction,
            final(self).original_point == old(self).original_point,
            final(self).original_scroll_top == old(self).original_scroll_top,
            final(self).original_scroll_row_offset == old(self).original_scroll_row_offset,
            all_matches(old(self).text_snapshot@, final(self).query@, final(self).matches@),
            updated(*final(self), mv),
    {
        self.query = drop_last_grapheme(self.query.as_str());
        self.update()
    }

    /// Cycle to the next (forward: strictly after `point`) or previous
    /// (backward: ending at or before `point`) cached match. Returns the
    /// match to move point to; an empty query moves nothing and changes
    /// nothing.
    pub fn next(&mut self, point: usize) -> (res: Option<usize>)
        ensures
            final(self).query == old(self).query,
            final(self).matches == old(self).matches,
            final(self).direction == old(self).direction,
            final(self).text_snapshot == old(self).text_snapshot,
            final(self).original_point == old(self).original_point,
            final(self).original_scroll_top == old(self).original_scroll_top,
            final(self).original_scroll_row_offset == old(self).original_scroll_row_offset,
            old(self).query@.len() == 0 ==> res is None && final(self).failing == old(
                self,
            ).failing && final(self).current_match == old(self).current_match,
            old(self).query@.len() > 0 ==> ({
                let found = search_target(
                    old(self).matches@,
                    old(self).direction,
                    old(self).query@.len() as int,
                    point as int,
                    true,
                );
                &&& res == found
                &&& final(self).failing == found is None
                &&& final(self).current_match == match found {
                    Some(p) => Some(p),
                    None => old(self).current_match,
                }
            }),
    {
        let query_len = self.query.as_str().unicode_len();
        if query_len == 0 {
            return None;
        }
        let found = match self.direction {
            SearchDirection::Forward => first_from_exec(&self.matches, point, true),
            SearchDirection::Backward => last_ending_by_exec(&self.matches, query_len, point),
        };
        self.failing = found.is_none();
        if let Some(p) = found {
            self.current_match = Some(p);
        }
        found
    }

    /// All match positions for rendering (char offset, query char length);
    /// none for an empty query.
    pub fn matches_for_render(&self) -> (v: Vec<(usize, usize)>)
        ensures
            self.query@.len() == 0 ==> v@.len() == 0,
            self.query@.len() > 0 ==> v@.len() == self.matches@.len() && forall|i: int|
                0 <= i < v@.len() ==> #[trigger] v@[i] == (self.matches@[i], self.query@.len() as usize),
    {
        let n = self.query.as_str().unicode_len();
        let mut v: Vec<(usize, usize)> = Vec::new();
        if n == 0 {
            return v;
        }
        let mut i: usize = 0;
        while i < self.matches.len()
            invariant
                n == self.query@.len(),
                i <= self.matches@.len(),
                v@.len() == i,
                forall|j: int| 0 <= j < i ==> #[trigger] v@[j] == (self.matches@[j], n),
            decreases self.matches@.len() - i,
        {
            v.push((self.matches[i], n));
            i += 1;
        }
        v
    }
}

} // verus!
