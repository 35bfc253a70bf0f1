//! The `describe-bindings` help text: every binding of a keymap table, one
//! per line, its keys in a column as wide as the widest chord.
use vstd::prelude::*;

use crate::command::Command;
use crate::keymap::{binding_views, default_binding_table, default_bindings, key_display, Key};
use crate::text::{chars_of, string_of};

verus! {

/// The keys of a chord, each shown as on the mode line, a space between
/// two.
pub open spec fn chord_text(keys: Seq<Key>) -> Seq<char>
    decreases keys.len(),
{
    if keys.len() == 0 {
        Seq::empty()
    } else if keys.len() == 1 {
        key_display(keys[0])
    } else {
        chord_text(keys.drop_last()) + seq![' '] + key_display(keys.last())
    }
}

/// The width of the keys column: the widest chord's text, and at least 3
/// (the width of its heading).
pub open spec fn keys_width(t: Seq<(Seq<Key>, Command)>) -> nat
    decreases t.len(),
{
    if t.len() == 0 {
        3
    } else {
        let w = keys_width(t.drop_last());
        let c = chord_text(t.last().0).len();
        if c > w {
            c
        } else {
            w
        }
    }
}

/// `t` followed by `c` up to width `w` (nothing when `t` is that wide).
pub open spec fn filled(t: Seq<char>, w: nat, c: char) -> Seq<char> {
    t + Seq::new(if t.len() < w { (w - t.len()) as nat } else { 0 }, |_i: int| c)
}

/// One line per binding: the chord filled to width `w`, two spaces, the
/// command's name.
pub open spec fn help_rows(t: Seq<(Seq<Key>, Command)>, w: nat) -> Seq<char>
    decreases t.len(),
{
    if t.len() == 0 {
        Seq::empty()
    } else {
        help_rows(t.drop_last(), w) + filled(chord_text(t.last().0), w, ' ') + "  "@
            + t.last().1.spec_name() + "\n"@
    }
}

/// The help text of a binding table: a title, a heading over the keys and
/// command columns, a rule of dashes, then one row per binding.
pub open spec fn help_text(t: Seq<(Seq<Key>, Command)>) -> Seq<char> {
    let w = keys_width(t);
    "Key bindings\n\n"@ + filled("Key"@, w, ' ') + "  Command\n"@ + filled(Seq::empty(), w, '-')
        + "  -------\n"@ + help_rows(t, w)
}

fn append(out: &mut Vec<char>, s: &str)
    ensures
        final(out)@ == old(out)@ + s@,
{
    let v = chars_of(s);
    let mut i: usize = 0;
    while i < v.len()
        invariant
            i <= v@.len(),
            v@ == s@,
            out@ == old(out)@ + v@.take(i as int),
        decreases v@.len() - i,
    {
        out.push(v[i]);
        assert(v@.take(i + 1) =~= v@.take(i as int).push(v@[i as int]));
        i += 1;
    }
    assert(v@.take(v@.len() as int) =~= v@);
}

fn append_filled(out: &mut Vec<char>, t: &Vec<char>, w: usize, c: char)
    ensures
        final(out)@ == old(out)@ + filled(t@, w as nat, c),
{
    let ghost start = out@;
    let mut i: usize = 0;
    while i < t.len()
        invariant
            i <= t@.len(),
            out@ == start + t@.take(i as int),
        decreases t@.len() - i,
    {
        out.push(t[i]);
        assert(t@.take(i + 1) =~= t@.take(i as int).push(t@[i as int]));
        i += 1;
    }
    assert(t@.take(t@.len() as int) =~= t@);
    let n = if t.len() < w {
        w - t.len()
    } else {
        0
    };
    let mut k: usize = 0;
    while k < n
        invariant
            k <= n,
            out@ == start + t@ + Seq::new(k as nat, |_i: int| c),
        decreases n - k,
    {
        out.push(c);
        assert(Seq::new((k + 1) as nat, |_i: int| c) =~= Seq::new(k as nat, |_i: int| c).push(c));
        k += 1;
    }
    assert(start + t@ + Seq::new(n as nat, |_i: int| c) =~= start + filled(t@, w as nat, c));
}

/// The text of a chord (see [`chord_text`]).
fn chord_chars(keys: &Vec<Key>) -> (v: Vec<char>)
    ensures
        v@ == chord_text(keys@),
{
    let mut v: Vec<char> = Vec::new();
    let mut i: usize = 0;
    while i < keys.len()
        invariant
            i <= keys@.len(),
            v@ == chord_text(keys@.take(i as int)),
        decreases keys@.len() - i,
    {
        let ghost before = keys@.take(i as int);
        assert(keys@.take(i + 1).drop_last() =~= before);
        if i > 0 {
            v.push(' ');
        } else {
            assert(before.len() == 0);
        }
        keys[i].display_into(&mut v);
        proof {
            let now = keys@.take(i + 1);
            assert(now.last() == keys@[i as int]);
            if i == 0 {
                assert(now[0] == keys@[0]);
                assert(v@ =~= key_display(now[0]));
            } else {
                assert(v@ =~= chord_text(before) + seq![' '] + key_display(now.last()));
            }
        }
        i += 1;
    }
    assert(keys@.take(keys@.len() as int) =~= keys@);
    v
}

/// The help text of `table` (see [`help_text`]).
pub fn describe_bindings(table: &Vec<(Vec<Key>, Command)>) -> (s: String)
    ensures
        s@ == help_text(binding_views(table@)),
{
    let ghost t = binding_views(table@);
    let n = table.len();
    let mut chords: Vec<Vec<char>> = Vec::new();
    let mut w: usize = 3;
    let mut i: usize = 0;
    while i < n
        invariant
            n == table@.len(),
            t == binding_views(table@),
            i <= n,
            chords@.len() == i,
            forall|j: int| 0 <= j < i ==> (#[trigger] chords@[j])@ == chord_text(t[j].0),
            w == keys_width(t.take(i as int)),
        decreases n - i,
    {
        let c = chord_chars(&table[i].0);
        assert(t[i as int] == (table@[i as int].0@, table@[i as int].1));
        assert(t.take(i + 1).drop_last() =~= t.take(i as int));
        assert(t.take(i + 1).last() == t[i as int]);
        if c.len() > w {
            w = c.len();
        }
        chords.push(c);
        i += 1;
    }
    assert(t.take(n as int) =~= t);
    let mut out: Vec<char> = Vec::new();
    append(&mut out, "Key bindings\n\n");
    let key = chars_of("Key");
    append_filled(&mut out, &key, w, ' ');
    append(&mut out, "  Command\n");
    let none: Vec<char> = Vec::new();
    append_filled(&mut out, &none, w, '-');
    append(&mut out, "  -------\n");
    let ghost head = out@;
    let mut k: usize = 0;
    assert(t.take(0) =~= Seq::<(Seq<Key>, Command)>::empty());
    while k < n
        invariant
            n == table@.len(),
            t == binding_views(table@),
            k <= n,
            chords@.len() == n,
            forall|j: int| 0 <= j < n ==> (#[trigger] chords@[j])@ == chord_text(t[j].0),
            out@ == head + help_rows(t.take(k as int), w as nat),
        decreases n - k,
    {
        assert(t[k as int] == (table@[k as int].0@, table@[k as int].1));
        assert(t.take(k + 1).drop_last() =~= t.take(k as int));
        assert(t.take(k + 1).last() == t[k as int]);
        let ghost before = out@;
        append_filled(&mut out, &chords[k], w, ' ');
        append(&mut out, "  ");
        append(&mut out, table[k].1.name());
        append(&mut out, "\n");
        assert(out@ =~= head + help_rows(t.take(k + 1), w as nat));
        k += 1;
    }
    string_of(out.as_slice())
}

/// The help text of the default keymap's bindings.
pub fn describe_default_bindings() -> (s: String)
    ensures
        s@ == help_text(default_bindings()),
{
    describe_bindings(&default_binding_table())
}

} // verus!
