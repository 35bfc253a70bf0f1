//! The minibuffer: prompt state, messages, and tab completion of buffer
//! names and file paths.
use vstd::prelude::*;

use crate::command::{is_prefix, starts_with};
use crate::order::{lex_leq, sort_chars, views};
use crate::text::{chars_of, copy_str, string_of};

verus! {

broadcast use vstd::seq_lib::group_filter_ensures;

/// The state of the minibuffer.
#[derive(Debug)]
pub enum MinibufferState {
    /// Idle — shows timed messages.
    Idle,
    /// Active prompt waiting for user input.
    Prompt(Prompt),
}

#[derive(Debug, Clone, PartialEq, Eq)]
pub enum PromptKind {
    FindFile,
    SwitchBuffer,
    WriteFile,
    GotoLine,
    /// "M-x " — the name, or a unique prefix of it, of a command to run.
    ExecuteExtendedCommand,
    ISearch,
    /// "Buffer X modified; kill anyway? (y/n)"
    KillConfirm { buffer_id: usize },
    /// "X changed on disk; save anyway? (y/n)" — the external-modification
    /// guard, asked by every flow that writes a buffer to its own path.
    /// `resume_quit` marks a save that is part of the quit sequence: "y"
    /// saves and continues the quit, "n" cancels the whole quit.
    SaveAnywayConfirm { buffer_id: usize, resume_quit: bool },
    /// "X exists; overwrite? (y/n)" — C-x C-w to an existing file.
    OverwriteConfirm { buffer_id: usize, path: String },
    /// "Save buffer X? (y/n/q)" — asked once per modified buffer when quitting.
    QuitSaveConfirm { buffer_id: usize },
}

#[derive(Debug)]
pub struct Prompt {
    pub kind: PromptKind,
    pub label: String,  // e.g., "Find file: "
}

impl Prompt {
    pub fn new(kind: PromptKind, label: &str) -> (p: Self)
        ensures
            p.kind == kind,
            p.label@ == label@,
    {
        Self { kind, label: copy_str(label) }
    }
}

pub struct Minibuffer {
    pub state: MinibufferState,
    pub message: Option<String>,
    pub completions: Option<Vec<String>>,
    pub completion_page: usize,
}

impl Minibuffer {
    pub fn new() -> (mb: Self)
        ensures
            mb.state is Idle,
            mb.message is None,
            mb.completions is None,
            mb.completion_page == 0,
    {
        Self { state: MinibufferState::Idle, message: None, completions: None, completion_page: 0 }
    }

    pub fn is_active(&self) -> (b: bool)
        ensures
            b == (self.state is Prompt),
    {
        match self.state {
            MinibufferState::Prompt(_) => true,
            MinibufferState::Idle => false,
        }
    }

    pub fn prompt(&self) -> (res: Option<&Prompt>)
        ensures
            self.state is Idle ==> res is None,
            self.state matches MinibufferState::Prompt(p) ==> res == Some(&p),
    {
        match &self.state {
            MinibufferState::Prompt(p) => Some(p),
            _ => None,
        }
    }

    pub fn prompt_mut(&mut self) -> (res: Option<&mut Prompt>)
        ensures
            old(self).state is Idle ==> res is None && *final(self) == *old(self),
            old(self).state matches MinibufferState::Prompt(p) ==> {
                &&& res matches Some(r)
                &&& *r == p
                &&& final(self).state == MinibufferState::Prompt(*final(r))
                &&& final(self).message == old(self).message
                &&& final(self).completions == old(self).completions
                &&& final(self).completion_page == old(self).completion_page
            },
    {
        match &mut self.state {
            MinibufferState::Prompt(p) => Some(p),
            _ => None,
        }
    }

    pub fn start_prompt(&mut self, kind: PromptKind, label: &str)
        ensures
            final(self).state matches MinibufferState::Prompt(p) && p.kind == kind && p.label@
                == label@,
            final(self).message is None,
            final(self).completions is None,
            final(self).completion_page == 0,
    {
        self.state = MinibufferState::Prompt(Prompt::new(kind, label));
        self.message = None;
        self.completions = None;
        self.completion_page = 0;
    }

    pub fn cancel(&mut self)
        ensures
            final(self).state is Idle,
            final(self).message matches Some(m) && m@ == "Quit"@,
            final(self).completions is None,
            final(self).completion_page == 0,
    {
        self.state = MinibufferState::Idle;
        self.message = Some(copy_str("Quit"));
        self.completions = None;
        self.completion_page = 0;
    }

    /// End a prompt. Clears any message queued while the prompt was active
    /// (it was never rendered and would reappear stale); handlers that want
    /// a result message show it after calling `finish`.
    pub fn finish(&mut self)
        ensures
            final(self).state is Idle,
            final(self).message is None,
            final(self).completions is None,
            final(self).completion_page == 0,
    {
        self.state = MinibufferState::Idle;
        self.message = None;
        self.completions = None;
        self.completion_page = 0;
    }

    /// Dismiss the completion list and reset paging after input changes.
    pub fn dismiss_completions(&mut self)
        ensures
            final(self).state == old(self).state,
            final(self).message == old(self).message,
            final(self).completions is None,
            final(self).completion_page == 0,
    {
        self.completions = None;
        self.completion_page = 0;
    }

    pub fn show_message(&mut self, msg: String)
        ensures
            final(self).state == old(self).state,
            final(self).message == Some(msg),
            final(self).completions == old(self).completions,
            final(self).completion_page == old(self).completion_page,
    {
        self.message = Some(msg);
    }
}

/// The chars of each string.
pub open spec fn string_views(v: Seq<String>) -> Seq<Seq<char>> {
    v.map_values(|s: String| s@)
}

/// `p` is a prefix of every sequence of `ss`.
pub open spec fn prefix_of_all(p: Seq<char>, ss: Seq<Seq<char>>) -> bool {
    forall|i: int| 0 <= i < ss.len() ==> starts_with(#[trigger] ss[i], p)
}

/// The first `k` chars of the first sequence are the longest prefix that all
/// sequences of `ss` share.
pub open spec fn longest_common(ss: Seq<Seq<char>>, k: nat) -> bool {
    &&& ss.len() > 0
    &&& k <= ss[0].len()
    &&& prefix_of_all(ss[0].take(k as int), ss)
    &&& (k == ss[0].len() || !prefix_of_all(ss[0].take((k + 1) as int), ss))
}

/// The length of the longest prefix that all sequences of `ss` share.
pub open spec fn common_prefix_len(ss: Seq<Seq<char>>) -> nat {
    choose|k: nat| longest_common(ss, k)
}

proof fn lemma_prefix_of_shorter(s: Seq<char>, p: Seq<char>, k: int)
    requires
        starts_with(s, p),
        0 <= k <= p.len(),
    ensures
        starts_with(s, p.take(k)),
{
    assert(s.take(k) =~= p.take(k));
}

/// There is exactly one longest common prefix length.
pub proof fn lemma_longest_common_unique(ss: Seq<Seq<char>>, k1: nat, k2: nat)
    requires
        longest_common(ss, k1),
        longest_common(ss, k2),
    ensures
        k1 == k2,
{
    if k1 < k2 {
        assert(prefix_of_all(ss[0].take((k1 + 1) as int), ss)) by {
            assert forall|i: int| 0 <= i < ss.len() implies starts_with(
                #[trigger] ss[i],
                ss[0].take((k1 + 1) as int),
            ) by {
                lemma_prefix_of_shorter(ss[i], ss[0].take(k2 as int), (k1 + 1) as int);
                assert(ss[0].take(k2 as int).take((k1 + 1) as int) =~= ss[0].take((k1 + 1) as int));
            }
        }
    } else if k2 < k1 {
        assert(prefix_of_all(ss[0].take((k2 + 1) as int), ss)) by {
            assert forall|i: int| 0 <= i < ss.len() implies starts_with(
                #[trigger] ss[i],
                ss[0].take((k2 + 1) as int),
            ) by {
                lemma_prefix_of_shorter(ss[i], ss[0].take(k1 as int), (k2 + 1) as int);
                assert(ss[0].take(k1 as int).take((k2 + 1) as int) =~= ss[0].take((k2 + 1) as int));
            }
        }
    }
}

/// The number of leading chars that `a` and `b` share.
fn shared_prefix_len(a: &Vec<char>, b: &Vec<char>) -> (r: usize)
    ensures
        r <= a@.len(),
        r <= b@.len(),
        a@.take(r as int) == b@.take(r as int),
        r == a@.len() || r == b@.len() || a@[r as int] != b@[r as int],
{
    let mut m: usize = 0;
    while m < a.len() && m < b.len() && a[m] == b[m]
        invariant
            m <= a@.len(),
            m <= b@.len(),
            a@.take(m as int) == b@.take(m as int),
        decreases a@.len() - m,
    {
        assert(a@.take(m + 1) =~= a@.take(m as int).push(a@[m as int]));
        assert(b@.take(m + 1) =~= b@.take(m as int).push(b@[m as int]));
        m += 1;
    }
    m
}

/// Some prefix length is the longest common one, for any non-empty list.
proof fn lemma_longest_common_exists(ss: Seq<Seq<char>>, k: nat)
    requires
        ss.len() > 0,
        k <= ss[0].len(),
        prefix_of_all(ss[0].take(k as int), ss),
    ensures
        longest_common(ss, common_prefix_len(ss)),
    decreases ss[0].len() - k,
{
    if k == ss[0].len() || !prefix_of_all(ss[0].take((k + 1) as int), ss) {
        assert(longest_common(ss, k));
    } else {
        lemma_longest_common_exists(ss, k + 1);
    }
}

/// The common prefix does not depend on the order of the strings (nor on
/// repeats): two lists with the same strings share the same longest prefix.
pub proof fn lemma_common_prefix_ignores_order(ss1: Seq<Seq<char>>, ss2: Seq<Seq<char>>)
    requires
        ss1.len() > 0,
        ss2.len() > 0,
        forall|i: int| 0 <= i < ss1.len() ==> ss2.contains(#[trigger] ss1[i]),
        forall|j: int| 0 <= j < ss2.len() ==> ss1.contains(#[trigger] ss2[j]),
    ensures
        ss1[0].take(common_prefix_len(ss1) as int) == ss2[0].take(common_prefix_len(ss2) as int),
{
    assert(ss1[0].take(0) =~= Seq::<char>::empty());
    assert(ss2[0].take(0) =~= Seq::<char>::empty());
    assert(prefix_of_all(ss1[0].take(0), ss1)) by {
        assert forall|i: int| 0 <= i < ss1.len() implies starts_with(#[trigger] ss1[i], ss1[0].take(0)) by {
            assert(ss1[i].take(0) =~= ss1[0].take(0));
        }
    }
    assert(prefix_of_all(ss2[0].take(0), ss2)) by {
        assert forall|i: int| 0 <= i < ss2.len() implies starts_with(#[trigger] ss2[i], ss2[0].take(0)) by {
            assert(ss2[i].take(0) =~= ss2[0].take(0));
        }
    }
    lemma_longest_common_exists(ss1, 0);
    lemma_longest_common_exists(ss2, 0);
    let k1 = common_prefix_len(ss1);
    let k2 = common_prefix_len(ss2);
    let p1 = ss1[0].take(k1 as int);
    let p2 = ss2[0].take(k2 as int);
    // Each prefix is shared by the strings of the other list.
    assert(prefix_of_all(p1, ss2)) by {
        assert forall|j: int| 0 <= j < ss2.len() implies starts_with(#[trigger] ss2[j], p1) by {
            let i = choose|i: int| 0 <= i < ss1.len() && ss1[i] == ss2[j];
            assert(starts_with(ss1[i], p1));
        }
    }
    assert(prefix_of_all(p2, ss1)) by {
        assert forall|i: int| 0 <= i < ss1.len() implies starts_with(#[trigger] ss1[i], p2) by {
            let j = choose|j: int| 0 <= j < ss2.len() && ss2[j] == ss1[i];
            assert(starts_with(ss2[j], p2));
        }
    }
    // Both are prefixes of the first string of each list.
    assert(starts_with(ss1[0], p2));
    assert(starts_with(ss2[0], p1));
    if k1 < k2 {
        assert(k1 < ss1[0].len());
        assert(prefix_of_all(ss1[0].take((k1 + 1) as int), ss1)) by {
            assert forall|i: int| 0 <= i < ss1.len() implies starts_with(
                #[trigger] ss1[i],
                ss1[0].take((k1 + 1) as int),
            ) by {
                assert(starts_with(ss1[i], p2));
                lemma_prefix_of_shorter(ss1[i], p2, (k1 + 1) as int);
                assert(p2 =~= ss1[0].take(k2 as int));
                assert(p2.take((k1 + 1) as int) =~= ss1[0].take((k1 + 1) as int));
            }
        }
    } else if k2 < k1 {
        assert(k2 < ss2[0].len());
        assert(prefix_of_all(ss2[0].take((k2 + 1) as int), ss2)) by {
            assert forall|j: int| 0 <= j < ss2.len() implies starts_with(
                #[trigger] ss2[j],
                ss2[0].take((k2 + 1) as int),
            ) by {
                assert(starts_with(ss2[j], p1));
                lemma_prefix_of_shorter(ss2[j], p1, (k2 + 1) as int);
                assert(p1 =~= ss2[0].take(k1 as int));
                assert(p1.take((k2 + 1) as int) =~= ss2[0].take((k2 + 1) as int));
            }
        }
    } else {
        assert(p1 =~= ss1[0].take(k1 as int));
        assert(p2 =~= ss1[0].take(k2 as int));
    }
}

/// Find the common prefix of a list of strings: `None` for an empty list
/// or when the strings share no leading char.
pub fn common_prefix(strings: &[String]) -> (res: Option<String>)
    ensures
        strings@.len() == 0 ==> res is None,
        strings@.len() > 0 ==> {
            let ss = string_views(strings@);
            &&& longest_common(ss, common_prefix_len(ss))
            &&& (res is Some <==> common_prefix_len(ss) > 0)
            &&& (res matches Some(p) ==> p@ == ss[0].take(common_prefix_len(ss) as int))
        },
{
    if strings.len() == 0 {
        return None;
    }
    let ghost ss = string_views(strings@);
    let first = chars_of(strings[0].as_str());
    assert(first@ == ss[0]);
    let mut prefix_chars = first.len();
    let mut i: usize = 1;
    while i < strings.len()
        invariant
            ss == string_views(strings@),
            first@ == ss[0],
            1 <= i <= strings@.len(),
            prefix_chars <= first@.len(),
            forall|j: int| 0 <= j < i ==> starts_with(#[trigger] ss[j], first@.take(prefix_chars as int)),
            prefix_chars < first@.len() ==> exists|j: int|
                0 <= j < i && !starts_with(#[trigger] ss[j], first@.take(prefix_chars + 1)),
        decreases strings@.len() - i,
    {
        let s = chars_of(strings[i].as_str());
        assert(s@ == ss[i as int]);
        let shared = shared_prefix_len(&first, &s);
        proof {
            assert(first@.take(shared as int) =~= s@.take(shared as int));
            if shared < first@.len() {
                assert(!starts_with(s@, first@.take(shared + 1))) by {
                    if starts_with(s@, first@.take(shared + 1)) {
                        assert(s@.take(shared + 1)[shared as int] == first@[shared as int]);
                    }
                }
            }
        }
        if shared < prefix_chars {
            proof {
                assert forall|j: int| 0 <= j < i + 1 implies starts_with(
                    #[trigger] ss[j],
                    first@.take(shared as int),
                ) by {
                    if j < i {
                        lemma_prefix_of_shorter(ss[j], first@.take(prefix_chars as int), shared as int);
                        assert(first@.take(prefix_chars as int).take(shared as int) =~= first@.take(
                            shared as int,
                        ));
                    }
                }
                assert(!starts_with(ss[i as int], first@.take(shared + 1)));
            }
            prefix_chars = shared;
        } else {
            proof {
                lemma_prefix_of_shorter(s@, first@.take(shared as int), prefix_chars as int);
                assert(first@.take(shared as int).take(prefix_chars as int) =~= first@.take(
                    prefix_chars as int,
                ));
                if prefix_chars < first@.len() {
                    let j = choose|j: int|
                        0 <= j < i && !starts_with(#[trigger] ss[j], first@.take(prefix_chars + 1));
                    assert(0 <= j < i + 1 && !starts_with(ss[j], first@.take(prefix_chars + 1)));
                }
            }
        }
        i += 1;
    }
    proof {
        assert(starts_with(ss[0], first@.take(prefix_chars as int)));
        assert(longest_common(ss, prefix_chars as nat));
        lemma_longest_common_unique(ss, prefix_chars as nat, common_prefix_len(ss));
    }
    if prefix_chars > 0 {
        let mut p: Vec<char> = Vec::new();
        let mut m: usize = 0;
        while m < prefix_chars
            invariant
                m <= prefix_chars <= first@.len(),
                p@ == first@.take(m as int),
            decreases prefix_chars - m,
        {
            p.push(first[m]);
            assert(first@.take(m + 1) =~= first@.take(m as int).push(first@[m as int]));
            m += 1;
        }
        Some(string_of(p.as_slice()))
    } else {
        None
    }
}

/// The names of `names` that start with `input`, in order.
pub open spec fn matching_names(input: Seq<char>, names: Seq<Seq<char>>) -> Seq<Seq<char>> {
    names.filter(|n: Seq<char>| starts_with(n, input))
}

/// The completion of `input` among the names `ms` that match it: the only
/// match, else the matches' longest common prefix (or `input` when they
/// share none), else `input` itself.
pub open spec fn completed_name(input: Seq<char>, ms: Seq<Seq<char>>) -> Seq<char> {
    if ms.len() == 1 {
        ms[0]
    } else if ms.len() > 1 && common_prefix_len(ms) > 0 {
        ms[0].take(common_prefix_len(ms) as int)
    } else {
        input
    }
}

/// Tab completion for buffer names. Returns the completed name string and
/// sorted display candidates.
///
/// The first element is the completed prefix (same as `complete_buffer`).
/// The second element is a sorted list of matching buffer names. Empty if
/// unique/no match.
pub fn complete_buffer_with_candidates(input: &str, buffer_names: &[String]) -> (res: (
    String,
    Vec<String>,
))
    ensures
        ({
            let ms = matching_names(input@, string_views(buffer_names@));
            &&& res.0@ == completed_name(input@, ms)
            &&& string_views(res.1@) == if ms.len() > 1 {
                ms.sort_by(lex_leq())
            } else {
                Seq::empty()
            }
        }),
{
    let ghost names = string_views(buffer_names@);
    let prefix = chars_of(input);
    let mut matches: Vec<String> = Vec::new();
    let mut match_chars: Vec<Vec<char>> = Vec::new();
    let mut i: usize = 0;
    while i < buffer_names.len()
        invariant
            names == string_views(buffer_names@),
            prefix@ == input@,
            i <= buffer_names@.len(),
            string_views(matches@) == matching_names(input@, names.take(i as int)),
            views(match_chars@) == string_views(matches@),
        decreases buffer_names@.len() - i,
    {
        let name = chars_of(buffer_names[i].as_str());
        let ghost nv = name@;
        proof {
            reveal(Seq::filter);
            assert(names.take(i + 1).drop_last() =~= names.take(i as int));
            assert(names.take(i + 1).last() == name@);
        }
        if is_prefix(&prefix, &name) {
            let ghost before = string_views(matches@);
            let ghost before_c = views(match_chars@);
            matches.push(buffer_names[i].clone());
            match_chars.push(name);
            assert(string_views(matches@) =~= before.push(names[i as int]));
            assert(views(match_chars@) =~= before_c.push(names[i as int]));
        }
        proof {
            reveal(Seq::filter);
            assert(names.take(i + 1).last() == nv);
        }
        i += 1;
    }
    assert(names.take(buffer_names@.len() as int) =~= names);
    let ghost ms = matching_names(input@, names);
    assert(string_views(matches@) == ms);
    if matches.len() == 1 {
        let none: Vec<String> = Vec::new();
        assert(string_views(none@) =~= Seq::empty());
        (matches[0].clone(), none)
    } else if matches.len() > 1 {
        let completed = match common_prefix(matches.as_slice()) {
            Some(p) => p,
            None => copy_str(input),
        };
        let sorted = sort_chars(match_chars);
        let mut candidates: Vec<String> = Vec::new();
        let mut k: usize = 0;
        while k < sorted.len()
            invariant
                k <= sorted@.len(),
                string_views(candidates@) == views(sorted@).take(k as int),
            decreases sorted@.len() - k,
        {
            let ghost before = string_views(candidates@);
            candidates.push(string_of(sorted[k].as_slice()));
            assert(string_views(candidates@) =~= before.push(views(sorted@)[k as int]));
            assert(views(sorted@).take(k + 1) =~= views(sorted@).take(k as int).push(
                views(sorted@)[k as int],
            ));
            k += 1;
        }
        assert(views(sorted@).take(sorted@.len() as int) =~= views(sorted@));
        (completed, candidates)
    } else {
        let none: Vec<String> = Vec::new();
        assert(string_views(none@) =~= Seq::empty());
        (copy_str(input), none)
    }
}

/// Tab completion for buffer names. Returns the completed name string.
pub fn complete_buffer(input: &str, buffer_names: &[String]) -> (res: String)
    ensures
        res@ == completed_name(input@, matching_names(input@, string_views(buffer_names@))),
{
    complete_buffer_with_candidates(input, buffer_names).0
}

} // verus!
