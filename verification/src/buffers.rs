//! The editor's list of buffers: which one is current, which was shown
//! before it, and what killing a buffer does to them.
use vstd::prelude::*;

use crate::buffer::Buffer;
use crate::text::chars_of;

verus! {

/// The buffers that do not have id `id`, in order.
pub open spec fn without_id(bufs: Seq<Buffer>, id: usize) -> Seq<Buffer> {
    bufs.filter(|b: Buffer| b.id != id)
}

proof fn lemma_without_id_step(bufs: Seq<Buffer>, id: usize, k: int)
    requires
        0 <= k < bufs.len(),
    ensures
        without_id(bufs.take(k + 1), id) == if bufs[k].id != id {
            without_id(bufs.take(k), id).push(bufs[k])
        } else {
            without_id(bufs.take(k), id)
        },
{
    reveal(Seq::filter);
    assert(bufs.take(k + 1).drop_last() =~= bufs.take(k));
    assert(bufs.take(k + 1).last() == bufs[k]);
}

/// Kills every buffer with id `id`. The others keep their order; when none
/// is left, a fresh scratch buffer takes id `next_id`, which then advances.
/// The current buffer stays current when it survives (at its new index),
/// else the first buffer becomes current; the alternate buffer is forgotten
/// when it was the killed one. Returns whether the current buffer was
/// killed.
pub fn kill_buffer_by_id(
    buffers: &mut Vec<Buffer>,
    current: &mut usize,
    alternate: &mut Option<usize>,
    next_id: &mut usize,
    id: usize,
) -> (killed_current: bool)
    requires
        *old(current) < old(buffers)@.len(),
        *old(next_id) < usize::MAX,
    ensures
        killed_current == (old(buffers)@[*old(current) as int].id == id),
        ({
            let kept = without_id(old(buffers)@, id);
            if kept.len() > 0 {
                &&& final(buffers)@ == kept
                &&& *final(next_id) == *old(next_id)
            } else {
                &&& final(buffers)@.len() == 1
                &&& final(buffers)@[0].id == *old(next_id)
                &&& final(buffers)@[0].chars().len() == 0
                &&& final(buffers)@[0].path is None
                &&& final(buffers)@[0].name@ == "*scratch*"@
                &&& !final(buffers)@[0].modified
                &&& final(buffers)@[0].wf()
                &&& *final(next_id) == *old(next_id) + 1
            }
        }),
        killed_current ==> *final(current) == 0,
        !killed_current ==> *final(current) == without_id(
            old(buffers)@.take(*old(current) as int),
            id,
        ).len(),
        !killed_current ==> final(buffers)@[*final(current) as int] == old(buffers)@[*old(
            current,
        ) as int],
        *final(current) < final(buffers)@.len(),
        *final(alternate) == if *old(alternate) == Some(id) {
            None
        } else {
            *old(alternate)
        },
{
    let ghost orig = buffers@;
    let cur = *current;
    let killed_current = buffers[cur].id == id;
    let mut i: usize = 0;
    let mut k: usize = 0;
    let n = buffers.len();
    let mut new_cur: usize = 0;
    assert(orig.take(0) =~= Seq::<Buffer>::empty());
    assert(orig.skip(0) =~= orig);
    proof {
        reveal(Seq::filter);
    }
    while k < n
        invariant
            n == orig.len(),
            k <= n,
            cur < n,
            buffers@ == without_id(orig.take(k as int), id) + orig.skip(k as int),
            i == without_id(orig.take(k as int), id).len(),
            k > cur && !killed_current ==> new_cur == without_id(orig.take(cur as int), id).len(),
            killed_current == (orig[cur as int].id == id),
        decreases n - k,
    {
        proof {
            lemma_without_id_step(orig, id, k as int);
        }
        let ghost before = without_id(orig.take(k as int), id);
        assert(buffers@[i as int] == orig[k as int]) by {
            assert(orig.skip(k as int)[0] == orig[k as int]);
        }
        if k == cur {
            new_cur = i;
        }
        if buffers[i].id == id {
            buffers.remove(i);
            assert(buffers@ =~= before + orig.skip(k + 1));
        } else {
            assert(before.push(orig[k as int]) + orig.skip(k + 1) =~= before + orig.skip(k as int));
            i = i + 1;
        }
        k = k + 1;
    }
    assert(orig.take(n as int) =~= orig);
    assert(orig.skip(n as int) =~= Seq::<Buffer>::empty());
    assert(buffers@ =~= without_id(orig, id));
    if !killed_current {
        proof {
            let pre = without_id(orig.take(cur as int), id);
            assert(orig.take(cur as int + 1).take(cur as int) =~= orig.take(cur as int));
            lemma_without_id_step(orig, id, cur as int);
            lemma_prefix_filter(orig, id, cur as int + 1);
            let b = without_id(orig.take(cur as int + 1), id);
            let w = without_id(orig, id);
            assert(b == pre.push(orig[cur as int]));
            assert(w.take(b.len() as int)[pre.len() as int] == w[pre.len() as int]);
            assert(w[pre.len() as int] == orig[cur as int]);
        }
    }
    if buffers.len() == 0 {
        let fresh = Buffer::new_scratch(*next_id);
        buffers.push(fresh);
        *next_id = *next_id + 1;
    }
    *current = if killed_current {
        0
    } else {
        new_cur
    };
    if *alternate == Some(id) {
        *alternate = None;
    }
    killed_current
}

/// The buffers kept from a prefix are a prefix of the buffers kept from
/// the whole list.
proof fn lemma_prefix_filter(bufs: Seq<Buffer>, id: usize, k: int)
    requires
        0 <= k <= bufs.len(),
    ensures
        without_id(bufs.take(k), id).len() <= without_id(bufs, id).len(),
        without_id(bufs, id).take(without_id(bufs.take(k), id).len() as int) == without_id(
            bufs.take(k),
            id,
        ),
    decreases bufs.len() - k,
{
    if k == bufs.len() {
        assert(bufs.take(k) =~= bufs);
        assert(without_id(bufs, id).take(without_id(bufs, id).len() as int) =~= without_id(bufs, id));
    } else {
        lemma_prefix_filter(bufs, id, k + 1);
        lemma_without_id_step(bufs, id, k);
        let a = without_id(bufs.take(k), id);
        let b = without_id(bufs.take(k + 1), id);
        let w = without_id(bufs, id);
        assert(w.take(b.len() as int) == b);
        assert(a.len() <= b.len());
        assert(w.take(a.len() as int) =~= w.take(b.len() as int).take(a.len() as int));
        assert(b.take(a.len() as int) =~= a);
    }
}

/// Where point, mark and the first visible line stood in a buffer when
/// it was last shown.
#[derive(Debug, Clone, Copy, PartialEq, Eq, Structural)]
pub struct SavedView {
    pub buffer_id: usize,
    pub point: usize,
    pub mark: Option<usize>,
    pub scroll_top: usize,
}

/// The saved view of buffer `id`: the last one saved for it.
pub open spec fn saved_view_of(views: Seq<SavedView>, id: usize) -> Option<SavedView>
    decreases views.len(),
{
    if views.len() == 0 {
        None
    } else if views.last().buffer_id == id {
        Some(views.last())
    } else {
        saved_view_of(views.drop_last(), id)
    }
}

/// Remembers `v` as the view of its buffer.
pub fn remember_view(views: &mut Vec<SavedView>, v: SavedView)
    ensures
        final(views)@ == old(views)@.push(v),
        forall|id: usize| #[trigger] saved_view_of(final(views)@, id) == if id == v.buffer_id {
            Some(v)
        } else {
            saved_view_of(old(views)@, id)
        },
{
    let ghost before = views@;
    views.push(v);
    assert(views@.drop_last() =~= before);
}

/// The view to show buffer `id` (of `len` chars) with: where it was last
/// shown, point and mark kept within the text; its start when it never
/// was shown.
pub fn recall_view(views: &Vec<SavedView>, id: usize, len: usize) -> (r: (usize, Option<usize>, usize))
    ensures
        r == match saved_view_of(views@, id) {
            Some(v) => (
                if v.point <= len { v.point } else { len },
                match v.mark {
                    Some(m) => Some(if m <= len { m } else { len }),
                    None => None,
                },
                v.scroll_top,
            ),
            None => (0usize, None, 0usize),
        },
{
    let mut i = views.len();
    assert(views@.take(i as int) =~= views@);
    while i > 0
        invariant
            i <= views@.len(),
            saved_view_of(views@, id) == saved_view_of(views@.take(i as int), id),
        decreases i,
    {
        let ghost pre = views@.take(i as int);
        assert(pre.drop_last() =~= views@.take(i - 1));
        assert(pre.last() == views@[i - 1]);
        let v = views[i - 1];
        if v.buffer_id == id {
            let p = if v.point <= len {
                v.point
            } else {
                len
            };
            let m = match v.mark {
                Some(m) => Some(
                    if m <= len {
                        m
                    } else {
                        len
                    },
                ),
                None => None,
            };
            return (p, m, v.scroll_top);
        }
        i -= 1;
    }
    assert(views@.take(0) =~= Seq::<SavedView>::empty());
    (0, None, 0)
}

/// The index of the first buffer with id `id`.
pub open spec fn index_of_id(bufs: Seq<Buffer>, id: usize) -> Option<int> {
    if exists|i: int| 0 <= i < bufs.len() && bufs[i].id == id {
        Some(choose|i: int| 0 <= i < bufs.len() && bufs[i].id == id && forall|j: int| 0 <= j < i ==> bufs[j].id != id)
    } else {
        None
    }
}

/// The index of the first buffer named `name`.
pub open spec fn index_of_name(bufs: Seq<Buffer>, name: Seq<char>) -> Option<int> {
    if exists|i: int| 0 <= i < bufs.len() && bufs[i].name@ == name {
        Some(choose|i: int| 0 <= i < bufs.len() && bufs[i].name@ == name && forall|j: int| 0 <= j < i ==> bufs[j].name@ != name)
    } else {
        None
    }
}

/// Where `switch-to-buffer` with answer `name` goes: the buffer named so,
/// or, for an empty answer, the alternate buffer (the one shown before);
/// `None` when there is no such buffer.
pub fn switch_target(bufs: &Vec<Buffer>, name: &str, alternate: Option<usize>) -> (r: Option<usize>)
    ensures
        match r {
            Some(i) => Some(i as int) == if name@.len() == 0 {
                match alternate {
                    Some(id) => index_of_id(bufs@, id),
                    None => None,
                }
            } else {
                index_of_name(bufs@, name@)
            },
            None => None::<int> == if name@.len() == 0 {
                match alternate {
                    Some(id) => index_of_id(bufs@, id),
                    None => None,
                }
            } else {
                index_of_name(bufs@, name@)
            },
        },
{
    let wanted = chars_of(name);
    if wanted.len() == 0 {
        match alternate {
            None => None,
            Some(id) => {
                let mut i: usize = 0;
                while i < bufs.len()
                    invariant
                        i <= bufs@.len(),
                        name@.len() == 0,
                        alternate == Some(id),
                        forall|j: int| 0 <= j < i ==> bufs@[j].id != id,
                    decreases bufs@.len() - i,
                {
                    if bufs[i].id == id {
                        assert(index_of_id(bufs@, id) == Some(i as int)) by {
                            let k = choose|k: int| 0 <= k < bufs@.len() && bufs@[k].id == id && forall|j: int| 0 <= j < k ==> bufs@[j].id != id;
                            assert(k == i as int);
                        }
                        return Some(i);
                    }
                    i += 1;
                }
                None
            },
        }
    } else {
        let mut i: usize = 0;
        while i < bufs.len()
            invariant
                i <= bufs@.len(),
                wanted@ == name@,
                name@.len() != 0,
                forall|j: int| 0 <= j < i ==> bufs@[j].name@ != name@,
            decreases bufs@.len() - i,
        {
            if crate::text::str_eq(bufs[i].name.as_str(), name) {
                assert(index_of_name(bufs@, name@) == Some(i as int)) by {
                    let k = choose|k: int| 0 <= k < bufs@.len() && bufs@[k].name@ == name@ && forall|j: int| 0 <= j < k ==> bufs@[j].name@ != name@;
                    assert(k == i as int);
                }
                return Some(i);
            }
            i += 1;
        }
        None
    }
}

} // verus!
