//! What a submitted minibuffer prompt asks the editor to do: the decisions
//! of each prompt kind on its input, as values the editor then carries out.
use vstd::prelude::*;

use crate::command::Command;
use crate::minibuffer::PromptKind;
use crate::path::{
    completion_dir_and_prefix, components, components_exec, normalize_path_string, normalized_path,
    path_parent,
};
use crate::text::{chars_of, copy_str, str_eq, string_of};

verus! {

/// What std's `char::is_whitespace` says of `c`.
pub uninterp spec fn whitespace(c: char) -> bool;

/// `char::is_whitespace` of std: Unicode `White_Space`. Among ASCII chars
/// these are exactly space and U+0009 to U+000D; for other chars the answer
/// is left to the name.
#[verifier::external_body]
fn is_whitespace(c: char) -> (b: bool)
    ensures
        b == whitespace(c),
        (c as u32) < 0x80 ==> (b <==> (c == ' ' || (0x09 <= (c as u32) && (c as u32) <= 0x0d))),
{
    c.is_whitespace()
}

/// Whether `s` is empty once trimmed: every char is whitespace.
pub open spec fn blank(s: Seq<char>) -> bool {
    forall|i: int| 0 <= i < s.len() ==> whitespace(#[trigger] s[i])
}

/// Whether `input` is all whitespace (`str::trim` leaves nothing).
pub fn is_blank(input: &str) -> (b: bool)
    ensures
        b == blank(input@),
{
    let chars = chars_of(input);
    let mut i: usize = 0;
    while i < chars.len()
        invariant
            chars@ == input@,
            i <= chars@.len(),
            forall|j: int| 0 <= j < i ==> whitespace(#[trigger] input@[j]),
        decreases chars@.len() - i,
    {
        if !is_whitespace(chars[i]) {
            return false;
        }
        i += 1;
    }
    true
}

/// The path a path prompt's input names: its normal form, taken relative
/// to `cwd` when it is relative (and normalized again); an empty normal
/// form stays empty.
pub open spec fn input_path(input: Seq<char>, cwd: Seq<char>, home: Option<Seq<char>>) -> Seq<
    char,
> {
    let n = normalized_path(input, home);
    if n.len() == 0 || n[0] == '/' {
        n
    } else {
        normalized_path(cwd + seq!['/'] + n, home)
    }
}

/// The path a path prompt accepts: `None` for blank input or input whose
/// path is empty (`.`, `a/..`).
pub open spec fn accepted_path(input: Seq<char>, cwd: Seq<char>, home: Option<Seq<char>>) -> Option<
    Seq<char>,
> {
    if blank(input) || input_path(input, cwd, home).len() == 0 {
        None
    } else {
        Some(input_path(input, cwd, home))
    }
}

/// The view of an optional home directory.
pub open spec fn home_view(home: Option<&str>) -> Option<Seq<char>> {
    match home {
        Some(h) => Some(h@),
        None => None,
    }
}

/// The path that path-prompt input names (see `input_path`), with `~`
/// expanded to `home` and relative input resolved against `cwd`.
pub fn path_from_input(input: &str, cwd: &str, home: Option<&str>) -> (r: String)
    ensures
        r@ == input_path(input@, cwd@, home_view(home)),
{
    let normalized = normalize_path_string(input, home);
    let n = chars_of(normalized.as_str());
    if n.len() == 0 || n[0] == '/' {
        return normalized;
    }
    let mut joined = chars_of(cwd);
    joined.push('/');
    let mut rest = n;
    joined.append(&mut rest);
    let joined = string_of(joined.as_slice());
    assert(joined@ =~= cwd@ + seq!['/'] + normalized@);
    normalize_path_string(joined.as_str(), home)
}

/// The path a path prompt accepts for `input` (see `accepted_path`).
pub fn validated_path_from_input(input: &str, cwd: &str, home: Option<&str>) -> (r: Option<
    String,
>)
    ensures
        match accepted_path(input@, cwd@, home_view(home)) {
            Some(p) => r matches Some(q) && q@ == p,
            None => r is None,
        },
{
    if is_blank(input) {
        return None;
    }
    let path = path_from_input(input, cwd, home);
    if path.as_str().is_empty() {
        return None;
    }
    Some(path)
}

/// The value of the decimal digits `d`.
pub open spec fn decimal_value(d: Seq<char>) -> int
    decreases d.len(),
{
    if d.len() == 0 {
        0
    } else {
        decimal_value(d.drop_last()) * 10 + ((d.last() as u32) - 0x30)
    }
}

/// Whether `c` is an ASCII digit.
pub open spec fn is_digit(c: char) -> bool {
    0x30 <= (c as u32) && (c as u32) <= 0x39
}

/// The digits of a number to parse: `s` without a leading `+`.
pub open spec fn unsigned_digits(s: Seq<char>) -> Seq<char> {
    if s.len() > 0 && s[0] == '+' {
        s.skip(1)
    } else {
        s
    }
}

/// Whether every char of `d` is an ASCII digit.
pub open spec fn all_digits(d: Seq<char>) -> bool {
    forall|i: int| 0 <= i < d.len() ==> is_digit(#[trigger] d[i])
}

/// What `str::parse::<usize>` gives for `s`: an optional `+`, then at least
/// one ASCII digit and nothing else, with a value that fits.
pub open spec fn parsed_usize(s: Seq<char>) -> Option<usize> {
    let d = unsigned_digits(s);
    if d.len() > 0 && all_digits(d) && decimal_value(d) <= usize::MAX {
        Some(decimal_value(d) as usize)
    } else {
        None
    }
}

proof fn lemma_decimal_value_grows(d: Seq<char>, i: int)
    requires
        0 <= i <= d.len(),
        forall|k: int| 0 <= k < d.len() ==> is_digit(#[trigger] d[k]),
    ensures
        0 <= decimal_value(d.take(i)) <= decimal_value(d),
    decreases d.len() - i,
{
    if i < d.len() {
        lemma_decimal_value_grows(d, i + 1);
        assert(d.take(i + 1).drop_last() =~= d.take(i));
        assert(is_digit(d[i]));
    } else {
        assert(d.take(i) =~= d);
    }
    lemma_decimal_value_nonnegative(d.take(i));
}

proof fn lemma_decimal_value_nonnegative(d: Seq<char>)
    requires
        forall|k: int| 0 <= k < d.len() ==> is_digit(#[trigger] d[k]),
    ensures
        decimal_value(d) >= 0,
    decreases d.len(),
{
    if d.len() > 0 {
        assert(is_digit(d[d.len() - 1]));
        lemma_decimal_value_nonnegative(d.drop_last());
    }
}

/// Parses `s` as `str::parse::<usize>` does (see `parsed_usize`).
pub fn parse_usize(s: &str) -> (r: Option<usize>)
    ensures
        r == parsed_usize(s@),
{
    let chars = chars_of(s);
    let start: usize = if chars.len() > 0 && chars[0] == '+' {
        1
    } else {
        0
    };
    let ghost d = unsigned_digits(s@);
    assert(d =~= chars@.skip(start as int));
    if start >= chars.len() {
        assert(d.len() == 0);
        return None;
    }
    let mut value: usize = 0;
    let mut i: usize = start;
    while i < chars.len()
        invariant
            chars@ == s@,
            d == unsigned_digits(s@),
            d == chars@.skip(start as int),
            start <= i <= chars@.len(),
            forall|k: int| 0 <= k < i - start ==> is_digit(#[trigger] d[k]),
            value == decimal_value(d.take(i - start)),
        decreases chars@.len() - i,
    {
        let c = chars[i];
        assert(d[i - start] == c);
        let v = c as u32;
        if !(0x30 <= v && v <= 0x39) {
            assert(!is_digit(d[i - start]));
            assert(!all_digits(d));
            assert(parsed_usize(s@) is None);
            return None;
        }
        assert(is_digit(d[i - start]));
        assert(d.take(i + 1 - start).drop_last() =~= d.take(i - start));
        assert(d.take(i + 1 - start).last() == c);
        let digit = (v - 0x30) as usize;
        match value.checked_mul(10) {
            None => {
                proof {
                    lemma_decimal_value_nonnegative(d.take(i + 1 - start));
                    assert(decimal_value(d.take(i + 1 - start)) > usize::MAX);
                    if all_digits(d) {
                        lemma_decimal_value_grows(d, i + 1 - start);
                    }
                    assert(parsed_usize(s@) is None);
                }
                return None;
            },
            Some(tens) => match tens.checked_add(digit) {
                None => {
                    proof {
                        if all_digits(d) {
                            lemma_decimal_value_grows(d, i + 1 - start);
                        }
                    }
                    return None;
                },
                Some(v) => {
                    value = v;
                },
            },
        }
        i += 1;
    }
    assert(d.take(chars@.len() - start) =~= d);
    Some(value)
}

/// What a submitted prompt asks the editor to do.
#[derive(Debug)]
pub enum PromptOutcome {
    /// A path prompt got no usable path: keep it open under this label.
    ReaskPath(String),
    /// Open (or switch to) the file at this path.
    OpenFile(String),
    /// Switch to the buffer of this name (an empty name: the previous one).
    SwitchBuffer(String),
    /// `M-x` input named no command: keep the prompt open under this label.
    CommandRequired(String),
    /// Run this command.
    RunCommand(Command),
    /// Write the current buffer to this path, once the overwrite and
    /// changed-on-disk checks allow it.
    WriteFile(String),
    /// Move point to the start of this (0-based) line.
    GotoLine(usize),
    /// The goto-line input was no line number.
    InvalidLineNumber,
    /// Accept the incremental search where it stands.
    AcceptSearch,
    /// Kill the buffer with this id.
    KillBuffer(usize),
    /// Close the prompt; nothing else happens.
    Dismiss,
    /// The answer was not understood: clear the input and ask again.
    AskAgain,
    /// Overwrite confirmed: write this buffer to this path.
    WriteBufferTo { buffer_id: usize, path: String },
    /// Overwrite declined.
    OverwriteCancelled,
    /// Saving despite the change on disk confirmed: save this buffer to
    /// its own path, then go on with the quit when it is part of one.
    SaveBuffer { buffer_id: usize, resume_quit: bool },
    /// Saving despite the change on disk declined (and the quit cancelled
    /// when it is part of one).
    SaveCancelled { resume_quit: bool },
    /// Quitting: save this buffer first.
    QuitSave(usize),
    /// Quitting: leave this buffer unsaved and go on.
    QuitSkip(usize),
    /// Quitting: stop the quit.
    QuitCancel,
    /// Quitting: quit at once, discarding all changes, and report failure.
    QuitAbort,
    /// Quitting: ask again about the same buffer.
    QuitAskAgain,
}

/// Whether `input` is `lower` or `upper` (a one-char answer).
fn answer_is(input: &str, lower: &str, upper: &str) -> (b: bool)
    ensures
        b == (input@ == lower@ || input@ == upper@),
{
    str_eq(input, lower) || str_eq(input, upper)
}

/// The outcome of submitting a prompt of kind `kind` with `input`, path
/// input resolved against `cwd` with `~` standing for `home`.
pub fn prompt_outcome(kind: &PromptKind, input: &str, cwd: &str, home: Option<&str>) -> (r:
    PromptOutcome)
    ensures
        ({
            let yes = input@ == "y"@ || input@ == "Y"@;
            let no = input@ == "n"@ || input@ == "N"@;
            match *kind {
                PromptKind::FindFile => match accepted_path(input@, cwd@, home_view(home)) {
                    None => r matches PromptOutcome::ReaskPath(l) && l@
                        == "Find file (path required): "@,
                    Some(p) => r matches PromptOutcome::OpenFile(q) && q@ == p,
                },
                PromptKind::WriteFile => match accepted_path(input@, cwd@, home_view(home)) {
                    None => r matches PromptOutcome::ReaskPath(l) && l@
                        == "Write file (path required): "@,
                    Some(p) => r matches PromptOutcome::WriteFile(q) && q@ == p,
                },
                PromptKind::SwitchBuffer => r matches PromptOutcome::SwitchBuffer(n) && n@
                    == input@,
                PromptKind::ExecuteExtendedCommand => match Command::named_or_unique_prefix(
                    input@,
                ) {
                    Some(c) => r == PromptOutcome::RunCommand(c),
                    None => r matches PromptOutcome::CommandRequired(l) && l@
                        == "M-x (command required) "@,
                },
                PromptKind::GotoLine => match parsed_usize(input@) {
                    Some(n) => if n > 0 {
                        r == PromptOutcome::GotoLine((n - 1) as usize)
                    } else {
                        r == PromptOutcome::InvalidLineNumber
                    },
                    None => r == PromptOutcome::InvalidLineNumber,
                },
                PromptKind::ISearch => r == PromptOutcome::AcceptSearch,
                PromptKind::KillConfirm { buffer_id } => if yes {
                    r == PromptOutcome::KillBuffer(buffer_id)
                } else if no {
                    r == PromptOutcome::Dismiss
                } else {
                    r == PromptOutcome::AskAgain
                },
                PromptKind::OverwriteConfirm { buffer_id, path } => if yes {
                    r matches PromptOutcome::WriteBufferTo { buffer_id: b, path: q } && b
                        == buffer_id && q@ == path@
                } else if no {
                    r == PromptOutcome::OverwriteCancelled
                } else {
                    r == PromptOutcome::AskAgain
                },
                PromptKind::SaveAnywayConfirm { buffer_id, resume_quit } => if yes {
                    r == PromptOutcome::SaveBuffer { buffer_id, resume_quit }
                } else if no {
                    r == PromptOutcome::SaveCancelled { resume_quit }
                } else {
                    r == PromptOutcome::AskAgain
                },
                PromptKind::QuitSaveConfirm { buffer_id } => if yes {
                    r == PromptOutcome::QuitSave(buffer_id)
                } else if no {
                    r == PromptOutcome::QuitSkip(buffer_id)
                } else if input@ == "q"@ || input@ == "Q"@ {
                    r == PromptOutcome::QuitCancel
                } else if input@ == "a"@ || input@ == "A"@ {
                    r == PromptOutcome::QuitAbort
                } else {
                    r == PromptOutcome::QuitAskAgain
                },
            }
        }),
{
    match kind {
        PromptKind::FindFile => match validated_path_from_input(input, cwd, home) {
            None => PromptOutcome::ReaskPath(copy_str("Find file (path required): ")),
            Some(p) => PromptOutcome::OpenFile(p),
        },
        PromptKind::WriteFile => match validated_path_from_input(input, cwd, home) {
            None => PromptOutcome::ReaskPath(copy_str("Write file (path required): ")),
            Some(p) => PromptOutcome::WriteFile(p),
        },
        PromptKind::SwitchBuffer => PromptOutcome::SwitchBuffer(copy_str(input)),
        PromptKind::ExecuteExtendedCommand => match Command::from_name_or_unique_prefix(input) {
            Some(c) => PromptOutcome::RunCommand(c),
            None => PromptOutcome::CommandRequired(copy_str("M-x (command required) ")),
        },
        PromptKind::GotoLine => match parse_usize(input) {
            Some(n) => if n > 0 {
                PromptOutcome::GotoLine(n - 1)
            } else {
                PromptOutcome::InvalidLineNumber
            },
            None => PromptOutcome::InvalidLineNumber,
        },
        PromptKind::ISearch => PromptOutcome::AcceptSearch,
        PromptKind::KillConfirm { buffer_id } => {
            if answer_is(input, "y", "Y") {
                PromptOutcome::KillBuffer(*buffer_id)
            } else if answer_is(input, "n", "N") {
                PromptOutcome::Dismiss
            } else {
                PromptOutcome::AskAgain
            }
        },
        PromptKind::OverwriteConfirm { buffer_id, path } => {
            if answer_is(input, "y", "Y") {
                PromptOutcome::WriteBufferTo { buffer_id: *buffer_id, path: copy_str(path.as_str()) }
            } else if answer_is(input, "n", "N") {
                PromptOutcome::OverwriteCancelled
            } else {
                PromptOutcome::AskAgain
            }
        },
        PromptKind::SaveAnywayConfirm { buffer_id, resume_quit } => {
            if answer_is(input, "y", "Y") {
                PromptOutcome::SaveBuffer { buffer_id: *buffer_id, resume_quit: *resume_quit }
            } else if answer_is(input, "n", "N") {
                PromptOutcome::SaveCancelled { resume_quit: *resume_quit }
            } else {
                PromptOutcome::AskAgain
            }
        },
        PromptKind::QuitSaveConfirm { buffer_id } => {
            if answer_is(input, "y", "Y") {
                PromptOutcome::QuitSave(*buffer_id)
            } else if answer_is(input, "n", "N") {
                PromptOutcome::QuitSkip(*buffer_id)
            } else if answer_is(input, "q", "Q") {
                PromptOutcome::QuitCancel
            } else if answer_is(input, "a", "A") {
                PromptOutcome::QuitAbort
            } else {
                PromptOutcome::QuitAskAgain
            }
        },
    }
}

/// The step a confirmed write-file takes: ask before overwriting another
/// existing file; for the buffer's own file, ask first when it changed on
/// disk; otherwise write.
#[derive(Debug, Clone, Copy, PartialEq, Eq, Structural)]
pub enum WriteStep {
    ConfirmOverwrite,
    ConfirmChangedOnDisk,
    Write,
}

/// What writing the current buffer to a path does next, given whether that
/// path exists, whether it is the buffer's own path, and whether the
/// buffer's file changed on disk since it was read or saved.
pub fn write_file_step(path_exists: bool, own_path: bool, changed_on_disk: bool) -> (w: WriteStep)
    ensures
        w == (if path_exists && !own_path {
            WriteStep::ConfirmOverwrite
        } else if own_path && changed_on_disk {
            WriteStep::ConfirmChangedOnDisk
        } else {
            WriteStep::Write
        }),
{
    if path_exists && !own_path {
        WriteStep::ConfirmOverwrite
    } else if own_path && changed_on_disk {
        WriteStep::ConfirmChangedOnDisk
    } else {
        WriteStep::Write
    }
}

/// Whether the buffer `id` is modified, as the first entry for it among
/// (id, modified) pairs says; a buffer that is gone is not.
pub open spec fn modified_in(bufs: Seq<(usize, bool)>, id: usize) -> bool
    decreases bufs.len(),
{
    if bufs.len() == 0 {
        false
    } else if bufs[0].0 == id {
        bufs[0].1
    } else {
        modified_in(bufs.drop_first(), id)
    }
}

/// Where the quit sequence goes on: the first pending buffer that is still
/// modified, those before it (gone or saved meanwhile) dropped; `None` when
/// no pending buffer is modified any more, and the quit goes ahead.
pub open spec fn first_still_modified(pending: Seq<usize>, bufs: Seq<(usize, bool)>) -> Option<int> {
    if exists|i: int| 0 <= i < pending.len() && modified_in(bufs, #[trigger] pending[i]) {
        Some(
            choose|i: int|
                0 <= i < pending.len() && modified_in(bufs, #[trigger] pending[i]) && forall|k: int|
                    0 <= k < i ==> !modified_in(bufs, #[trigger] pending[k]),
        )
    } else {
        None
    }
}

fn is_modified_in(bufs: &[(usize, bool)], id: usize) -> (b: bool)
    ensures
        b == modified_in(bufs@, id),
{
    let mut i: usize = 0;
    assert(bufs@.skip(0) =~= bufs@);
    while i < bufs.len()
        invariant
            i <= bufs@.len(),
            modified_in(bufs@, id) == modified_in(bufs@.skip(i as int), id),
        decreases bufs@.len() - i,
    {
        assert(bufs@.skip(i as int)[0] == bufs@[i as int]);
        if bufs[i].0 == id {
            return bufs[i].1;
        }
        assert(bufs@.skip(i as int).drop_first() =~= bufs@.skip(i + 1));
        i += 1;
    }
    false
}

/// The next step of the quit sequence: drops from the front of `pending`
/// the buffers that are gone or no longer modified (per `bufs`, pairs of
/// buffer id and modified flag) and returns the first one still modified,
/// to ask about; `None` when none is left and the editor quits.
pub fn next_quit_prompt(pending: &mut Vec<usize>, bufs: &[(usize, bool)]) -> (r: Option<usize>)
    ensures
        first_still_modified(old(pending)@, bufs@) matches Some(i) ==> 0 <= i < old(pending)@.len()
            && r == Some(old(pending)@[i]) && final(pending)@ == old(pending)@.skip(i),
        first_still_modified(old(pending)@, bufs@) is None ==> r is None && final(pending)@.len()
            == 0,
{
    let ghost p0 = pending@;
    let mut i: usize = 0;
    while i < pending.len()
        invariant
            pending@ == p0,
            p0 == old(pending)@,
            i <= p0.len(),
            forall|k: int| 0 <= k < i ==> !modified_in(bufs@, #[trigger] p0[k]),
        decreases p0.len() - i,
    {
        if is_modified_in(bufs, pending[i]) {
            proof {
                let f = first_still_modified(p0, bufs@);
                assert(modified_in(bufs@, p0[i as int]));
                let c = f->0;
                assert(0 <= c < p0.len() && modified_in(bufs@, p0[c]) && forall|k: int|
                    0 <= k < c ==> !modified_in(bufs@, #[trigger] p0[k]));
                if c < i {
                    assert(!modified_in(bufs@, p0[c]));
                }
                if c > i {
                    assert(!modified_in(bufs@, p0[i as int]));
                }
                assert(f == Some(i as int));
            }
            let id = pending[i];
            let rest = pending.split_off(i);
            *pending = rest;
            assert(pending@ =~= p0.skip(i as int));
            return Some(id);
        }
        i += 1;
    }
    pending.clear();
    None
}

/// Drops buffer `id` from the quit sequence.
pub fn drop_from_quit(pending: &mut Vec<usize>, id: usize)
    ensures
        final(pending)@ == old(pending)@.filter(|x: usize| x != id),
{
    let ghost p0 = pending@;
    let mut kept: Vec<usize> = Vec::new();
    let mut i: usize = 0;
    assert(p0.take(0).filter(|x: usize| x != id) =~= Seq::<usize>::empty());
    while i < pending.len()
        invariant
            pending@ == p0,
            i <= p0.len(),
            kept@ == p0.take(i as int).filter(|x: usize| x != id),
        decreases p0.len() - i,
    {
        let x = pending[i];
        proof {
            assert(p0.take(i + 1).drop_last() =~= p0.take(i as int));
            assert(p0.take(i + 1).last() == x);
            p0.take(i as int).lemma_filter_push(x, |x: usize| x != id);
            assert(p0.take(i as int).push(x) =~= p0.take(i + 1));
        }
        if x != id {
            kept.push(x);
        }
        i += 1;
    }
    assert(p0.take(p0.len() as int) =~= p0);
    *pending = kept;
}

/// The input a path prompt starts with: the directory of the current
/// buffer's file (see `path_parent`; the path is in normal form), or `cwd`
/// when the buffer has no file or its path no parent, with one trailing
/// `/`.
pub open spec fn default_prompt_dir(path: Option<Seq<char>>, cwd: Seq<char>) -> Seq<char> {
    let dir = match path {
        Some(p) => match path_parent(p) {
            Some(d) => d,
            None => cwd,
        },
        None => cwd,
    };
    if dir.len() > 0 && dir.last() == '/' {
        dir
    } else {
        dir.push('/')
    }
}

/// The input a find-file or write-file prompt starts with (see
/// `default_prompt_dir`).
pub fn default_path_prompt_input(path: Option<&str>, cwd: &str) -> (r: String)
    ensures
        r@ == default_prompt_dir(
            match path {
                Some(p) => Some(p@),
                None => None,
            },
            cwd@,
        ),
{
    let dir = match path {
        Some(p) => {
            let comps = components_exec(&chars_of(p));
            if comps.len() == 0 {
                assert(crate::order::views(comps@).len() == 0);
                copy_str(cwd)
            } else {
                assert(components(p@).len() > 0);
                completion_dir_and_prefix(p, false).0
            }
        },
        None => copy_str(cwd),
    };
    let mut cs = chars_of(dir.as_str());
    if !(cs.len() > 0 && cs[cs.len() - 1] == '/') {
        cs.push('/');
    }
    string_of(cs.as_slice())
}

} // verus!
