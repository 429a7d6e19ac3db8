//! Tab completion in the interactive shell: which candidates a line asks for.
//!
//! A completion is a list of fixed candidates, then the candidates of one
//! source (document paths on the server, local files, local directories),
//! then more fixed candidates; all replace the text from `start` on.

use vstd::prelude::*;
use crate::shell::{spec_flags_for, spec_is_dir_list, spec_path_first, spec_subcommands, strs, ws_end};
use crate::ls::{lex_less, lex_lt};
use crate::paths::spec_normalize_path;
use crate::shell_path::slash;
use crate::text::{
    append_chars, blen, chars_of, copy_range, drop_back, drop_front, is_whitespace, is_word, is_ws,
    last_index, rfind_char, starts_with, string_of, trim, trim_back, trim_front, trim_ws, views,
    words, CharClass,
};

verus! {

/// One completion candidate: what the list shows and what replaces the word.
pub struct Pair {
    pub display: String,
    pub replacement: String,
}

/// Where the rest of the candidates come from.
pub enum Source {
    Nothing,
    /// Document paths under the typed text; directories only when set.
    Remote { partial: String, dirs_only: bool },
    /// Local files and directories (the source of an `import`).
    LocalEntries { partial: String },
    /// Local directories (the destination of an `export`).
    LocalDirs { partial: String },
}

pub struct CompletionPlan {
    pub start: usize,
    pub head: Vec<Pair>,
    pub source: Source,
    pub tail: Vec<Pair>,
}

pub enum SourceView {
    Nothing,
    Remote(Seq<char>, bool),
    LocalEntries(Seq<char>),
    LocalDirs(Seq<char>),
}

pub struct PlanView {
    pub start: nat,
    pub head: Seq<(Seq<char>, Seq<char>)>,
    pub source: SourceView,
    pub tail: Seq<(Seq<char>, Seq<char>)>,
}

pub open spec fn pair_views(v: Seq<Pair>) -> Seq<(Seq<char>, Seq<char>)> {
    v.map_values(|p: Pair| (p.display@, p.replacement@))
}

pub open spec fn source_view(s: Source) -> SourceView {
    match s {
        Source::Nothing => SourceView::Nothing,
        Source::Remote { partial, dirs_only } => SourceView::Remote(partial@, dirs_only),
        Source::LocalEntries { partial } => SourceView::LocalEntries(partial@),
        Source::LocalDirs { partial } => SourceView::LocalDirs(partial@),
    }
}

impl CompletionPlan {
    pub open spec fn view(self) -> PlanView {
        PlanView {
            start: self.start as nat,
            head: pair_views(self.head@),
            source: source_view(self.source),
            tail: pair_views(self.tail@),
        }
    }
}

pub open spec fn plan(
    start: nat,
    head: Seq<(Seq<char>, Seq<char>)>,
    source: SourceView,
    tail: Seq<(Seq<char>, Seq<char>)>,
) -> PlanView {
    PlanView { start, head, source, tail }
}

/// The candidate for a word: shown as is, inserted with a trailing space.
pub open spec fn word_pair(w: Seq<char>) -> (Seq<char>, Seq<char>) {
    (w, w.push(' '))
}

/// The words of `list` that begin with `partial`, as candidates.
pub open spec fn filter_pairs(list: Seq<Seq<char>>, partial: Seq<char>) -> Seq<(Seq<char>, Seq<char>)>
    decreases list.len(),
{
    if list.len() == 0 {
        seq![]
    } else {
        filter_pairs(list.drop_last(), partial) + (if starts_with(list.last(), partial) {
            seq![word_pair(list.last())]
        } else {
            seq![]
        })
    }
}

pub open spec fn flag_pairs(sub: Seq<char>, partial: Seq<char>) -> Seq<(Seq<char>, Seq<char>)> {
    filter_pairs(spec_flags_for(sub), partial)
}

/// `/` offered as a candidate of its own when the word is empty or `/`.
pub open spec fn slash_if(w: Seq<char>) -> Seq<(Seq<char>, Seq<char>)> {
    if starts_with(seq!['/'], w) {
        seq![word_pair(seq!['/'])]
    } else {
        seq![]
    }
}

pub open spec fn dash(w: Seq<char>) -> bool {
    starts_with(w, seq!['-'])
}

pub open spec fn remote(p: Seq<char>) -> SourceView {
    SourceView::Remote(p, false)
}

/// The first index of `-d` / `--directory` among `ws`.
pub open spec fn dir_flag_index(ws: Seq<Seq<char>>, i: nat) -> Option<nat>
    decreases ws.len() - i,
{
    if i >= ws.len() {
        None
    } else if ws[i as int] == "-d"@ || ws[i as int] == "--directory"@ {
        Some(i)
    } else {
        dir_flag_index(ws, i + 1)
    }
}

/// Index of the first word after the flags of `ls` (every word starting with `-`).
pub open spec fn ls_skip(ws: Seq<Seq<char>>, i: nat) -> nat
    decreases ws.len() - i,
{
    if i >= ws.len() {
        i
    } else if dash(ws[i as int]) {
        ls_skip(ws, i + 1)
    } else {
        i
    }
}

/// Index of the first `grep` word after its flags (`-m` takes a value).
pub open spec fn grep_skip(ws: Seq<Seq<char>>, i: nat) -> nat
    decreases ws.len() - i,
{
    if i >= ws.len() {
        i
    } else if ws[i as int] == "-v"@ || ws[i as int] == "--invert-match"@ {
        grep_skip(ws, i + 1)
    } else if ws[i as int] == "-m"@ || ws[i as int] == "--max-matches"@ {
        if i + 1 < ws.len() && !dash(ws[i + 1 as int]) {
            grep_skip(ws, i + 2)
        } else {
            grep_skip(ws, i + 1)
        }
    } else if dash(ws[i as int]) {
        grep_skip(ws, i + 1)
    } else {
        i
    }
}

pub open spec fn ls_plan(
    ws: Seq<Seq<char>>,
    ends: bool,
    partial: Seq<char>,
    start: nat,
    pos: nat,
) -> Option<PlanView> {
    if ws.len() < 2 {
        None
    } else if dash(partial) {
        let p = flag_pairs(ws[0], partial);
        if p.len() > 0 {
            Some(plan(start, p, SourceView::Nothing, seq![]))
        } else {
            None
        }
    } else {
        let i = ls_skip(ws, 1);
        let rest = ws.len() - i;
        if rest == 0 {
            if ends {
                Some(plan(pos, slash_if(seq![]), remote(seq![]), seq![]))
            } else {
                None
            }
        } else if rest == 1 {
            if ends {
                None
            } else {
                let w = ws[i as int];
                Some(plan(start, slash_if(w), remote(w), seq![]))
            }
        } else {
            None
        }
    }
}

pub open spec fn find_plan(
    ws: Seq<Seq<char>>,
    ends: bool,
    partial: Seq<char>,
    start: nat,
    pos: nat,
) -> Option<PlanView> {
    if dash(partial) {
        let p = flag_pairs("find"@, partial);
        if p.len() > 0 {
            Some(plan(start, p, SourceView::Nothing, seq![]))
        } else {
            None
        }
    } else if ws.len() == 1 && ends {
        Some(
            plan(
                pos,
                seq![word_pair("-d"@), word_pair("--directory"@)],
                SourceView::Nothing,
                seq![],
            ),
        )
    } else {
        match dir_flag_index(ws, 0) {
            None => None,
            Some(ci) => {
                let di = ci + 1;
                if di >= ws.len() && ends {
                    Some(plan(pos, slash_if(seq![]), remote(seq![]), seq![]))
                } else if di < ws.len() && ends && ws.len() == di + 1 {
                    Some(plan(pos, seq![], SourceView::Nothing, seq![]))
                } else if di < ws.len() && !ends && ws.len() == di + 1 && !dash(ws[di as int]) {
                    let pref = ws[di as int];
                    Some(plan(start, slash_if(pref), remote(pref), seq![]))
                } else {
                    None
                }
            },
        }
    }
}

pub open spec fn grep_plan(
    ws: Seq<Seq<char>>,
    ends: bool,
    partial: Seq<char>,
    start: nat,
    pos: nat,
) -> Option<PlanView> {
    if dash(partial) {
        let p = flag_pairs("grep"@, partial);
        if p.len() > 0 {
            Some(plan(start, p, SourceView::Nothing, seq![]))
        } else {
            None
        }
    } else if ws.len() < 2 {
        None
    } else {
        let i = grep_skip(ws, 1);
        let rest = ws.len() - i;
        let last = ws.last();
        if ends && (last == "-m"@ || last == "--max-matches"@) {
            Some(plan(pos, seq![], SourceView::Nothing, seq![]))
        } else if ends && (last == "-v"@ || last == "--invert-match"@) {
            Some(plan(pos, seq![], SourceView::Nothing, seq![]))
        } else if rest == 0 {
            if ends && !dash(last) && last != ws[0] {
                Some(plan(pos, seq![], remote(seq![]), seq![]))
            } else {
                None
            }
        } else if rest == 1 {
            if ends {
                Some(plan(pos, seq![], remote(seq![]), seq![]))
            } else {
                Some(plan(start, seq![], SourceView::Nothing, seq![]))
            }
        } else {
            if ends {
                None
            } else {
                Some(plan(start, seq![], remote(last), seq![]))
            }
        }
    }
}

/// After the flags of `grep` (none of them `-m`, which takes a value) the
/// scan stops at the first word that is no flag.
proof fn lemma_grep_skip_flags(ws: Seq<Seq<char>>, flags: Seq<Seq<char>>, pat: Seq<char>, i: nat)
    requires
        ws == seq!["grep"@] + flags + seq![pat],
        forall|j: int| 0 <= j < flags.len() ==> dash(#[trigger] flags[j]) && flags[j] != "-m"@
            && flags[j] != "--max-matches"@,
        !dash(pat),
        1 <= i <= flags.len() + 1,
    ensures
        grep_skip(ws, i) == flags.len() + 1,
    decreases flags.len() + 1 - i,
{
    if i <= flags.len() {
        assert(ws[i as int] == flags[i - 1]);
        lemma_grep_skip_flags(ws, flags, pat, i + 1);
    } else {
        assert(ws[i as int] == pat);
        if pat == "-v"@ || pat == "--invert-match"@ {
            reveal_strlit("-v");
            reveal_strlit("--invert-match");
            assert(pat[0] == '-');
            assert(pat.subrange(0, 1) =~= seq!['-']);
        }
        if pat == "-m"@ || pat == "--max-matches"@ {
            reveal_strlit("-m");
            reveal_strlit("--max-matches");
            assert(pat[0] == '-');
            assert(pat.subrange(0, 1) =~= seq!['-']);
        }
    }
}

/// Tab after `grep`, its flags and the pattern (the line ending in
/// whitespace) offers the repository paths of the current directory for the
/// PATH argument: the server source with an empty word, at the cursor.
pub proof fn law_grep_path_after_pattern(
    flags: Seq<Seq<char>>,
    pat: Seq<char>,
    partial: Seq<char>,
    start: nat,
    pos: nat,
)
    requires
        forall|j: int| 0 <= j < flags.len() ==> dash(#[trigger] flags[j]) && flags[j] != "-m"@
            && flags[j] != "--max-matches"@,
        !dash(pat),
        !dash(partial),
    ensures
        grep_plan(seq!["grep"@] + flags + seq![pat], true, partial, start, pos) == Some(
            plan(pos, seq![], SourceView::Remote(seq![], false), seq![]),
        ),
{
    let ws = seq!["grep"@] + flags + seq![pat];
    lemma_grep_skip_flags(ws, flags, pat, 1);
    assert(ws.last() == pat);
    assert(ws.len() == flags.len() + 2);
    if pat == "-m"@ || pat == "--max-matches"@ || pat == "-v"@ || pat == "--invert-match"@ {
        reveal_strlit("-m");
        reveal_strlit("--max-matches");
        reveal_strlit("-v");
        reveal_strlit("--invert-match");
        assert(pat[0] == '-');
        assert(pat.subrange(0, 1) =~= seq!['-']);
    }
}

pub open spec fn search_plan(
    ws: Seq<Seq<char>>,
    ends: bool,
    partial: Seq<char>,
    start: nat,
    pos: nat,
) -> Option<PlanView> {
    if dash(partial) {
        let p = flag_pairs("search"@, partial);
        if p.len() > 0 {
            Some(plan(start, p, SourceView::Nothing, seq![]))
        } else {
            None
        }
    } else if ws.len() < 2 {
        None
    } else {
        match dir_flag_index(ws, 0) {
            None => None,
            Some(ci) => {
                let di = ci + 1;
                if di >= ws.len() {
                    if ends {
                        Some(plan(pos, slash_if(seq![]), remote(seq![]), seq![]))
                    } else {
                        None
                    }
                } else if di + 1 == ws.len() && !ends {
                    let pref = ws[di as int];
                    Some(plan(start, slash_if(pref), remote(pref), seq![]))
                } else {
                    None
                }
            },
        }
    }
}

pub open spec fn import_plan(
    ws: Seq<Seq<char>>,
    ends: bool,
    partial: Seq<char>,
    start: nat,
    pos: nat,
) -> Option<PlanView> {
    if dash(partial) && flag_pairs("import"@, partial).len() > 0 {
        Some(plan(start, flag_pairs("import"@, partial), SourceView::Nothing, seq![]))
    } else if ws.len() == 2 && !ends {
        Some(plan(start, slash_if(ws[1]), remote(ws[1]), seq![]))
    } else if ws.len() == 2 && ends {
        Some(plan(pos, seq![], SourceView::LocalEntries(seq![]), seq![]))
    } else if ws.len() == 3 && !ends {
        Some(plan(start, seq![], SourceView::LocalEntries(ws[2]), seq![]))
    } else {
        None
    }
}

pub open spec fn export_plan(
    ws: Seq<Seq<char>>,
    ends: bool,
    start: nat,
    pos: nat,
) -> Option<PlanView> {
    if ws.len() == 2 && !ends {
        Some(plan(start, slash_if(ws[1]), remote(ws[1]), seq![]))
    } else if ws.len() == 2 && ends {
        let fl = flag_pairs("export"@, seq![]);
        if fl.len() > 0 {
            Some(plan(pos, fl, SourceView::Nothing, seq![]))
        } else {
            Some(plan(start, seq![], SourceView::Nothing, seq![]))
        }
    } else if ends && ws.len() > 0 && (ws.last() == "-d"@ || ws.last() == "--destination"@) {
        Some(plan(pos, seq![], SourceView::LocalDirs(seq![]), seq![]))
    } else if ws.len() >= 3 && (ws[ws.len() - 2] == "-d"@ || ws[ws.len() - 2] == "--destination"@)
        && !dash(ws.last()) && !ends {
        Some(plan(start, seq![], SourceView::LocalDirs(ws.last()), seq![]))
    } else {
        None
    }
}

pub open spec fn has_recursive(ws: Seq<Seq<char>>) -> bool {
    exists|i: int| 0 <= i < ws.len() && (#[trigger] ws[i] == "-r"@ || ws[i] == "--recursive"@)
}

pub open spec fn rm_plan(ws: Seq<Seq<char>>, ends: bool, start: nat, pos: nat) -> Option<PlanView> {
    if !has_recursive(ws) {
        None
    } else if ends && ws.len() > 0 && (ws.last() == "-r"@ || ws.last() == "--recursive"@) {
        Some(plan(pos, seq![], remote(seq![]), seq![]))
    } else if !ends && ws.len() >= 2 && !dash(ws.last()) {
        Some(plan(start, seq![], remote(ws.last()), seq![]))
    } else if !ends && ws.len() == 2 {
        Some(plan(start, seq![], SourceView::Nothing, seq![]))
    } else {
        None
    }
}

/// Candidates right after a subcommand and a space.
pub open spec fn first_arg_plan(sub: Seq<char>, start: nat, pos: nat) -> PlanView {
    if spec_is_dir_list(sub) {
        plan(pos, slash_if(seq![]), remote(seq![]), flag_pairs(sub, seq![]))
    } else if sub == "cd"@ {
        plan(pos, slash_if(seq![]), SourceView::Remote(seq![], true), seq![])
    } else if sub == "import"@ {
        plan(pos, slash_if(seq![]), remote(seq![]), seq![])
    } else if sub == "export"@ {
        plan(pos, slash_if(seq![]), remote(seq![]), seq![])
    } else if spec_path_first().contains(sub) {
        plan(pos, seq![], remote(seq![]), seq![])
    } else if sub == "mkdir"@ {
        plan(pos, seq![], remote(seq![]), seq![])
    } else if sub == "reindex"@ {
        plan(pos, slash_if(seq![]), remote(seq![]), seq![])
    } else if flag_pairs(sub, seq![]).len() > 0 {
        plan(pos, flag_pairs(sub, seq![]), SourceView::Nothing, seq![])
    } else {
        plan(start, seq![], SourceView::Nothing, seq![])
    }
}

/// Candidates for a later word of a subcommand.
pub open spec fn later_plan(
    sub: Seq<char>,
    ws: Seq<Seq<char>>,
    ends: bool,
    partial: Seq<char>,
    start: nat,
    pos: nat,
) -> PlanView {
    if spec_is_dir_list(sub) && ls_plan(ws, ends, partial, start, pos) is Some {
        ls_plan(ws, ends, partial, start, pos)->0
    } else if sub == "cd"@ && ws.len() == 2 && !ends {
        plan(start, slash_if(ws[1]), SourceView::Remote(ws[1], true), seq![])
    } else if sub == "find"@ && find_plan(ws, ends, partial, start, pos) is Some {
        find_plan(ws, ends, partial, start, pos)->0
    } else if sub == "import"@ && import_plan(ws, ends, partial, start, pos) is Some {
        import_plan(ws, ends, partial, start, pos)->0
    } else if sub == "export"@ && export_plan(ws, ends, start, pos) is Some {
        export_plan(ws, ends, start, pos)->0
    } else if sub == "grep"@ && grep_plan(ws, ends, partial, start, pos) is Some {
        grep_plan(ws, ends, partial, start, pos)->0
    } else if sub == "search"@ && search_plan(ws, ends, partial, start, pos) is Some {
        search_plan(ws, ends, partial, start, pos)->0
    } else if sub == "reindex"@ && ws.len() == 2 && !ends {
        plan(start, slash_if(ws[1]), remote(ws[1]), seq![])
    } else if dash(partial) && flag_pairs(sub, partial).len() > 0 {
        plan(start, flag_pairs(sub, partial), SourceView::Nothing, seq![])
    } else if sub == "mv"@ && ws.len() == 2 && ends {
        plan(pos, seq![], remote(seq![]), seq![])
    } else if spec_path_first().contains(sub) && !dash(ws.last()) {
        plan(start, seq![], remote(ws.last()), seq![])
    } else if sub == "rm"@ && rm_plan(ws, ends, start, pos) is Some {
        rm_plan(ws, ends, start, pos)->0
    } else if sub == "mkdir"@ && ws.len() == 2 && !ends && !dash(ws[1]) {
        plan(start, seq![], remote(ws[1]), seq![])
    } else if sub == "mkdir"@ && ws.len() == 3 && !ends && (ws[1] == "-p"@ || ws[1] == "--parents"@) {
        plan(start, seq![], remote(ws[2]), seq![])
    } else {
        plan(start, seq![], SourceView::Nothing, seq![])
    }
}

/// The completion asked for by the text `b` before the cursor; `start` is the
/// byte offset where the word under the cursor begins, `pos` the cursor's.
pub open spec fn spec_plan(b: Seq<char>, start: nat, pos: nat) -> PlanView {
    let ws = words(b);
    let ends = b.len() > 0 && is_ws(b.last());
    let partial = b.skip(ws_end(b) as int);
    if ws.len() == 0 || (ws.len() == 1 && !ends) {
        plan(start, filter_pairs(spec_subcommands(), partial), SourceView::Nothing, seq![])
    } else if ws[0] == "timeout"@ && ws.len() > 1 {
        plan(start, seq![], SourceView::Nothing, seq![])
    } else if ws.len() == 1 {
        first_arg_plan(ws[0], start, pos)
    } else {
        later_plan(ws[0], ws, ends, partial, start, pos)
    }
}

} // verus!

verus! {

fn word_pair_of(w: &[char]) -> (p: Pair)
    ensures
        (p.display@, p.replacement@) == word_pair(w@),
{
    let mut r = copy_range(w, 0, w.len());
    assert(r@ =~= w@);
    r.push(' ');
    Pair { display: string_of(w), replacement: string_of(r.as_slice()) }
}

fn slash_pairs(w: &[char]) -> (v: Vec<Pair>)
    ensures
        pair_views(v@) == slash_if(w@),
{
    let mut v: Vec<Pair> = Vec::new();
    if w.len() == 0 || (w.len() == 1 && w[0] == '/') {
        let s = ['/'];
        let p = word_pair_of(&s);
        v.push(p);
        assert(s@ =~= seq!['/']);
        assert(starts_with(seq!['/'], w@)) by {
            assert(seq!['/'].subrange(0, w@.len() as int) =~= w@);
        }
        assert(pair_views(v@) =~= seq![word_pair(seq!['/'])]);
    } else {
        assert(!starts_with(seq!['/'], w@)) by {
            if starts_with(seq!['/'], w@) {
                assert(w@.len() == 1);
                assert(seq!['/'].subrange(0, 1)[0] == w@[0]);
            }
        }
        assert(pair_views(v@) =~= Seq::<(Seq<char>, Seq<char>)>::empty());
    }
    v
}

fn is_dash(w: &[char]) -> (b: bool)
    ensures
        b == dash(w@),
{
    if w.len() > 0 && w[0] == '-' {
        assert(w@.subrange(0, 1) =~= seq!['-']);
        true
    } else {
        assert(!dash(w@)) by {
            if w@.len() > 0 {
                assert(w@.subrange(0, 1)[0] == w@[0]);
            }
        }
        false
    }
}

/// The candidates among `list` that begin with `partial`.
fn filter_words(list: &Vec<&'static str>, partial: &[char]) -> (v: Vec<Pair>)
    ensures
        pair_views(v@) == filter_pairs(strs(list@), partial@),
{
    let mut v: Vec<Pair> = Vec::new();
    let mut i: usize = 0;
    while i < list.len()
        invariant
            i <= list@.len(),
            pair_views(v@) == filter_pairs(strs(list@).take(i as int), partial@),
        decreases list@.len() - i,
    {
        let w = chars_of(list[i]);
        proof {
            assert(strs(list@).take(i + 1).drop_last() =~= strs(list@).take(i as int));
            assert(strs(list@).take(i + 1).last() == list@[i as int]@);
        }
        if crate::text::begins_with(w.as_slice(), partial) {
            let ghost v0 = pair_views(v@);
            let p = word_pair_of(w.as_slice());
            v.push(p);
            assert(pair_views(v@) =~= v0 + seq![word_pair(w@)]);
        } else {
            assert(pair_views(v@) =~= pair_views(v@) + Seq::<(Seq<char>, Seq<char>)>::empty());
        }
        i = i + 1;
    }
    assert(strs(list@).take(list@.len() as int) =~= strs(list@));
    v
}

fn flag_pairs_of(sub: &[char], partial: &[char]) -> (v: Vec<Pair>)
    ensures
        pair_views(v@) == flag_pairs(sub@, partial@),
{
    let s = string_of(sub);
    let flags = crate::shell::flags_for(s.as_str());
    filter_words(&flags, partial)
}

fn contains_word(list: &Vec<&'static str>, w: &[char]) -> (b: bool)
    ensures
        b == strs(list@).contains(w@),
{
    let mut i: usize = 0;
    while i < list.len()
        invariant
            i <= list@.len(),
            forall|k: int| 0 <= k < i ==> strs(list@)[k] != w@,
        decreases list@.len() - i,
    {
        if is_word(w, list[i]) {
            assert(strs(list@)[i as int] == w@);
            return true;
        }
        i = i + 1;
    }
    false
}

fn empty_plan(start: usize) -> (p: CompletionPlan)
    ensures
        p.view() == plan(start as nat, seq![], SourceView::Nothing, seq![]),
{
    let p = CompletionPlan { start, head: Vec::new(), source: Source::Nothing, tail: Vec::new() };
    assert(pair_views(p.head@) =~= Seq::<(Seq<char>, Seq<char>)>::empty());
    p
}

fn make_plan(start: usize, head: Vec<Pair>, source: Source, tail: Vec<Pair>) -> (p: CompletionPlan)
    ensures
        p.view() == plan(start as nat, pair_views(head@), source_view(source), pair_views(tail@)),
{
    CompletionPlan { start, head, source, tail }
}

fn remote_of(w: &[char], dirs_only: bool) -> (s: Source)
    ensures
        source_view(s) == SourceView::Remote(w@, dirs_only),
{
    Source::Remote { partial: string_of(w), dirs_only }
}

fn no_pairs() -> (v: Vec<Pair>)
    ensures
        pair_views(v@) == Seq::<(Seq<char>, Seq<char>)>::empty(),
{
    let v: Vec<Pair> = Vec::new();
    assert(pair_views(v@) =~= Seq::<(Seq<char>, Seq<char>)>::empty());
    v
}

} // verus!

verus! {

pub open spec fn opt_view(r: Option<CompletionPlan>) -> Option<PlanView> {
    match r {
        Some(p) => Some(p.view()),
        None => None,
    }
}

fn ls_skip_of(ws: &Vec<Vec<char>>, i0: usize) -> (r: usize)
    requires
        i0 <= ws@.len(),
    ensures
        r == ls_skip(views(ws@), i0 as nat),
        r <= ws@.len(),
{
    let mut i = i0;
    while i < ws.len() && is_dash(ws[i].as_slice())
        invariant
            i0 <= i <= ws@.len(),
            ls_skip(views(ws@), i0 as nat) == ls_skip(views(ws@), i as nat),
        decreases ws@.len() - i,
    {
        assert(views(ws@)[i as int] == ws@[i as int]@);
        i = i + 1;
    }
    if i < ws.len() {
        assert(views(ws@)[i as int] == ws@[i as int]@);
    }
    i
}

fn grep_skip_of(ws: &Vec<Vec<char>>, i0: usize) -> (r: usize)
    requires
        i0 <= ws@.len(),
    ensures
        r == grep_skip(views(ws@), i0 as nat),
        r <= ws@.len(),
{
    let ghost w = views(ws@);
    let mut i = i0;
    while i < ws.len()
        invariant
            i0 <= i <= ws@.len(),
            w == views(ws@),
            grep_skip(w, i0 as nat) == grep_skip(w, i as nat),
        decreases ws@.len() - i,
    {
        let x = ws[i].as_slice();
        assert(w[i as int] == x@);
        if is_word(x, "-v") || is_word(x, "--invert-match") {
            i = i + 1;
        } else if is_word(x, "-m") || is_word(x, "--max-matches") {
            if i + 1 < ws.len() && !is_dash(ws[i + 1].as_slice()) {
                assert(w[i + 1] == ws@[i + 1]@);
                i = i + 2;
            } else {
                if i + 1 < ws.len() {
                    assert(w[i + 1] == ws@[i + 1]@);
                }
                i = i + 1;
            }
        } else if is_dash(x) {
            i = i + 1;
        } else {
            return i;
        }
    }
    i
}

fn dir_flag_index_of(ws: &Vec<Vec<char>>) -> (r: Option<usize>)
    ensures
        match r {
            Some(i) => dir_flag_index(views(ws@), 0) == Some(i as nat) && i < ws@.len(),
            None => dir_flag_index(views(ws@), 0) is None,
        },
{
    let mut i: usize = 0;
    while i < ws.len()
        invariant
            dir_flag_index(views(ws@), 0) == dir_flag_index(views(ws@), i as nat),
        decreases ws@.len() - i,
    {
        assert(views(ws@)[i as int] == ws@[i as int]@);
        if is_word(ws[i].as_slice(), "-d") || is_word(ws[i].as_slice(), "--directory") {
            return Some(i);
        }
        i = i + 1;
    }
    None
}

fn ls_plan_of(ws: &Vec<Vec<char>>, ends: bool, partial: &[char], start: usize, pos: usize) -> (r:
    Option<CompletionPlan>)
    ensures
        opt_view(r) == ls_plan(views(ws@), ends, partial@, start as nat, pos as nat),
{
    let ghost w = views(ws@);
    if ws.len() < 2 {
        return None;
    }
    if is_dash(partial) {
        assert(w[0] == ws@[0]@);
        let p = flag_pairs_of(ws[0].as_slice(), partial);
        if p.len() > 0 {
            return Some(make_plan(start, p, Source::Nothing, no_pairs()));
        }
        return None;
    }
    let i = ls_skip_of(ws, 1);
    let rest = ws.len() - i;
    if rest == 0 {
        if ends {
            let e: [char; 0] = [];
            assert(e@ =~= Seq::<char>::empty());
            return Some(make_plan(pos, slash_pairs(&e), remote_of(&e, false), no_pairs()));
        }
        None
    } else if rest == 1 {
        if ends {
            None
        } else {
            let x = ws[i].as_slice();
            assert(w[i as int] == x@);
            Some(make_plan(start, slash_pairs(x), remote_of(x, false), no_pairs()))
        }
    } else {
        None
    }
}

fn find_plan_of(ws: &Vec<Vec<char>>, ends: bool, partial: &[char], start: usize, pos: usize) -> (r:
    Option<CompletionPlan>)
    ensures
        opt_view(r) == find_plan(views(ws@), ends, partial@, start as nat, pos as nat),
{
    let ghost w = views(ws@);
    if is_dash(partial) {
        let p = flag_pairs_of(chars_of("find").as_slice(), partial);
        if p.len() > 0 {
            return Some(make_plan(start, p, Source::Nothing, no_pairs()));
        }
        return None;
    }
    if ws.len() == 1 && ends {
        let mut h: Vec<Pair> = Vec::new();
        let a = chars_of("-d");
        let b = chars_of("--directory");
        h.push(word_pair_of(a.as_slice()));
        h.push(word_pair_of(b.as_slice()));
        assert(pair_views(h@) =~= seq![word_pair("-d"@), word_pair("--directory"@)]);
        return Some(make_plan(pos, h, Source::Nothing, no_pairs()));
    }
    match dir_flag_index_of(ws) {
        None => None,
        Some(ci) => {
            let di = ci + 1;
            let e: [char; 0] = [];
            assert(e@ =~= Seq::<char>::empty());
            if di >= ws.len() && ends {
                Some(make_plan(pos, slash_pairs(&e), remote_of(&e, false), no_pairs()))
            } else if di < ws.len() && ends && ws.len() == di + 1 {
                Some(make_plan(pos, no_pairs(), Source::Nothing, no_pairs()))
            } else if di < ws.len() && !ends && ws.len() == di + 1 && !is_dash(ws[di].as_slice()) {
                let x = ws[di].as_slice();
                assert(w[di as int] == x@);
                Some(make_plan(start, slash_pairs(x), remote_of(x, false), no_pairs()))
            } else {
                if di < ws.len() {
                    assert(w[di as int] == ws@[di as int]@);
                }
                None
            }
        },
    }
}

fn grep_plan_of(ws: &Vec<Vec<char>>, ends: bool, partial: &[char], start: usize, pos: usize) -> (r:
    Option<CompletionPlan>)
    ensures
        opt_view(r) == grep_plan(views(ws@), ends, partial@, start as nat, pos as nat),
{
    let ghost w = views(ws@);
    if is_dash(partial) {
        let p = flag_pairs_of(chars_of("grep").as_slice(), partial);
        if p.len() > 0 {
            return Some(make_plan(start, p, Source::Nothing, no_pairs()));
        }
        return None;
    }
    if ws.len() < 2 {
        return None;
    }
    let i = grep_skip_of(ws, 1);
    let rest = ws.len() - i;
    let last = ws[ws.len() - 1].as_slice();
    assert(w.last() == last@);
    let e: [char; 0] = [];
    assert(e@ =~= Seq::<char>::empty());
    if ends && (is_word(last, "-m") || is_word(last, "--max-matches")) {
        Some(make_plan(pos, no_pairs(), Source::Nothing, no_pairs()))
    } else if ends && (is_word(last, "-v") || is_word(last, "--invert-match")) {
        Some(make_plan(pos, no_pairs(), Source::Nothing, no_pairs()))
    } else if rest == 0 {
        assert(w[0] == ws@[0]@);
        if ends && !is_dash(last) && !crate::text::chars_eq(last, ws[0].as_slice()) {
            Some(make_plan(pos, no_pairs(), remote_of(&e, false), no_pairs()))
        } else {
            None
        }
    } else if rest == 1 {
        if ends {
            Some(make_plan(pos, no_pairs(), remote_of(&e, false), no_pairs()))
        } else {
            Some(make_plan(start, no_pairs(), Source::Nothing, no_pairs()))
        }
    } else {
        if ends {
            None
        } else {
            Some(make_plan(start, no_pairs(), remote_of(last, false), no_pairs()))
        }
    }
}

fn search_plan_of(ws: &Vec<Vec<char>>, ends: bool, partial: &[char], start: usize, pos: usize) -> (r:
    Option<CompletionPlan>)
    ensures
        opt_view(r) == search_plan(views(ws@), ends, partial@, start as nat, pos as nat),
{
    let ghost w = views(ws@);
    if is_dash(partial) {
        let p = flag_pairs_of(chars_of("search").as_slice(), partial);
        if p.len() > 0 {
            return Some(make_plan(start, p, Source::Nothing, no_pairs()));
        }
        return None;
    }
    if ws.len() < 2 {
        return None;
    }
    match dir_flag_index_of(ws) {
        None => None,
        Some(ci) => {
            let di = ci + 1;
            if di >= ws.len() {
                if ends {
                    let e: [char; 0] = [];
                    assert(e@ =~= Seq::<char>::empty());
                    Some(make_plan(pos, slash_pairs(&e), remote_of(&e, false), no_pairs()))
                } else {
                    None
                }
            } else if di + 1 == ws.len() && !ends {
                let x = ws[di].as_slice();
                assert(w[di as int] == x@);
                Some(make_plan(start, slash_pairs(x), remote_of(x, false), no_pairs()))
            } else {
                None
            }
        },
    }
}

} // verus!

verus! {

fn import_plan_of(ws: &Vec<Vec<char>>, ends: bool, partial: &[char], start: usize, pos: usize) -> (r:
    Option<CompletionPlan>)
    ensures
        opt_view(r) == import_plan(views(ws@), ends, partial@, start as nat, pos as nat),
{
    let ghost w = views(ws@);
    if is_dash(partial) {
        let p = flag_pairs_of(chars_of("import").as_slice(), partial);
        if p.len() > 0 {
            return Some(make_plan(start, p, Source::Nothing, no_pairs()));
        }
    }
    if ws.len() == 2 && !ends {
        let x = ws[1].as_slice();
        assert(w[1] == x@);
        Some(make_plan(start, slash_pairs(x), remote_of(x, false), no_pairs()))
    } else if ws.len() == 2 && ends {
        let e: [char; 0] = [];
        assert(e@ =~= Seq::<char>::empty());
        Some(make_plan(pos, no_pairs(), Source::LocalEntries { partial: string_of(&e) }, no_pairs()))
    } else if ws.len() == 3 && !ends {
        let x = ws[2].as_slice();
        assert(w[2] == x@);
        Some(make_plan(start, no_pairs(), Source::LocalEntries { partial: string_of(x) }, no_pairs()))
    } else {
        None
    }
}

fn export_plan_of(ws: &Vec<Vec<char>>, ends: bool, start: usize, pos: usize) -> (r: Option<
    CompletionPlan,
>)
    ensures
        opt_view(r) == export_plan(views(ws@), ends, start as nat, pos as nat),
{
    let ghost w = views(ws@);
    let e: [char; 0] = [];
    assert(e@ =~= Seq::<char>::empty());
    if ws.len() == 2 && !ends {
        let x = ws[1].as_slice();
        assert(w[1] == x@);
        return Some(make_plan(start, slash_pairs(x), remote_of(x, false), no_pairs()));
    }
    if ws.len() == 2 && ends {
        let fl = flag_pairs_of(chars_of("export").as_slice(), &e);
        if fl.len() > 0 {
            return Some(make_plan(pos, fl, Source::Nothing, no_pairs()));
        }
        return Some(make_plan(start, no_pairs(), Source::Nothing, no_pairs()));
    }
    if ends && ws.len() > 0 {
        let last = ws[ws.len() - 1].as_slice();
        assert(w.last() == last@);
        if is_word(last, "-d") || is_word(last, "--destination") {
            return Some(
                make_plan(pos, no_pairs(), Source::LocalDirs { partial: string_of(&e) }, no_pairs()),
            );
        }
    }
    if ws.len() >= 3 {
        let prev = ws[ws.len() - 2].as_slice();
        let cur = ws[ws.len() - 1].as_slice();
        assert(w[w.len() - 2] == prev@);
        assert(w.last() == cur@);
        if (is_word(prev, "-d") || is_word(prev, "--destination")) && !is_dash(cur) && !ends {
            return Some(
                make_plan(start, no_pairs(), Source::LocalDirs { partial: string_of(cur) }, no_pairs()),
            );
        }
    }
    None
}

fn rm_plan_of(ws: &Vec<Vec<char>>, ends: bool, start: usize, pos: usize) -> (r: Option<
    CompletionPlan,
>)
    ensures
        opt_view(r) == rm_plan(views(ws@), ends, start as nat, pos as nat),
{
    let ghost w = views(ws@);
    let mut i: usize = 0;
    let mut has_rec = false;
    while i < ws.len()
        invariant
            i <= ws@.len(),
            w == views(ws@),
            has_rec == exists|k: int| 0 <= k < i && (#[trigger] w[k] == "-r"@ || w[k] == "--recursive"@),
        decreases ws@.len() - i,
    {
        assert(w[i as int] == ws@[i as int]@);
        if is_word(ws[i].as_slice(), "-r") || is_word(ws[i].as_slice(), "--recursive") {
            has_rec = true;
        }
        i = i + 1;
    }
    if !has_rec {
        return None;
    }
    let last = ws[ws.len() - 1].as_slice();
    assert(w.last() == last@);
    if ends && (is_word(last, "-r") || is_word(last, "--recursive")) {
        let e: [char; 0] = [];
        assert(e@ =~= Seq::<char>::empty());
        Some(make_plan(pos, no_pairs(), remote_of(&e, false), no_pairs()))
    } else if !ends && ws.len() >= 2 && !is_dash(last) {
        Some(make_plan(start, no_pairs(), remote_of(last, false), no_pairs()))
    } else if !ends && ws.len() == 2 {
        Some(make_plan(start, no_pairs(), Source::Nothing, no_pairs()))
    } else {
        None
    }
}

fn first_arg_of(sub: &[char], start: usize, pos: usize) -> (p: CompletionPlan)
    ensures
        p.view() == first_arg_plan(sub@, start as nat, pos as nat),
{
    let e: [char; 0] = [];
    assert(e@ =~= Seq::<char>::empty());
    let s = string_of(sub);
    if crate::shell::is_dir_list(s.as_str()) {
        make_plan(pos, slash_pairs(&e), remote_of(&e, false), flag_pairs_of(sub, &e))
    } else if is_word(sub, "cd") {
        make_plan(pos, slash_pairs(&e), remote_of(&e, true), no_pairs())
    } else if is_word(sub, "import") {
        make_plan(pos, slash_pairs(&e), remote_of(&e, false), no_pairs())
    } else if is_word(sub, "export") {
        make_plan(pos, slash_pairs(&e), remote_of(&e, false), no_pairs())
    } else if contains_word(&crate::shell::path_first(), sub) {
        make_plan(pos, no_pairs(), remote_of(&e, false), no_pairs())
    } else if is_word(sub, "mkdir") {
        make_plan(pos, no_pairs(), remote_of(&e, false), no_pairs())
    } else if is_word(sub, "reindex") {
        make_plan(pos, slash_pairs(&e), remote_of(&e, false), no_pairs())
    } else {
        let fl = flag_pairs_of(sub, &e);
        if fl.len() > 0 {
            make_plan(pos, fl, Source::Nothing, no_pairs())
        } else {
            empty_plan(start)
        }
    }
}

} // verus!

verus! {

fn later_of(ws: &Vec<Vec<char>>, ends: bool, partial: &[char], start: usize, pos: usize) -> (p:
    CompletionPlan)
    requires
        ws@.len() >= 2,
    ensures
        p.view() == later_plan(views(ws@)[0], views(ws@), ends, partial@, start as nat, pos as nat),
{
    let ghost w = views(ws@);
    let sub = ws[0].as_slice();
    assert(w[0] == sub@);
    let subs = string_of(sub);
    if crate::shell::is_dir_list(subs.as_str()) {
        match ls_plan_of(ws, ends, partial, start, pos) {
            Some(p) => return p,
            None => {},
        }
    }
    if is_word(sub, "cd") && ws.len() == 2 && !ends {
        let x = ws[1].as_slice();
        assert(w[1] == x@);
        return make_plan(start, slash_pairs(x), remote_of(x, true), no_pairs());
    }
    if is_word(sub, "find") {
        match find_plan_of(ws, ends, partial, start, pos) {
            Some(p) => return p,
            None => {},
        }
    }
    if is_word(sub, "import") {
        match import_plan_of(ws, ends, partial, start, pos) {
            Some(p) => return p,
            None => {},
        }
    }
    if is_word(sub, "export") {
        match export_plan_of(ws, ends, start, pos) {
            Some(p) => return p,
            None => {},
        }
    }
    if is_word(sub, "grep") {
        match grep_plan_of(ws, ends, partial, start, pos) {
            Some(p) => return p,
            None => {},
        }
    }
    if is_word(sub, "search") {
        match search_plan_of(ws, ends, partial, start, pos) {
            Some(p) => return p,
            None => {},
        }
    }
    if is_word(sub, "reindex") && ws.len() == 2 && !ends {
        let x = ws[1].as_slice();
        assert(w[1] == x@);
        return make_plan(start, slash_pairs(x), remote_of(x, false), no_pairs());
    }
    if is_dash(partial) {
        let p = flag_pairs_of(sub, partial);
        if p.len() > 0 {
            return make_plan(start, p, Source::Nothing, no_pairs());
        }
    }
    let e: [char; 0] = [];
    assert(e@ =~= Seq::<char>::empty());
    if is_word(sub, "mv") && ws.len() == 2 && ends {
        return make_plan(pos, no_pairs(), remote_of(&e, false), no_pairs());
    }
    let last = ws[ws.len() - 1].as_slice();
    assert(w.last() == last@);
    if contains_word(&crate::shell::path_first(), sub) && !is_dash(last) {
        return make_plan(start, no_pairs(), remote_of(last, false), no_pairs());
    }
    if is_word(sub, "rm") {
        match rm_plan_of(ws, ends, start, pos) {
            Some(p) => return p,
            None => {},
        }
    }
    let w1 = ws[1].as_slice();
    assert(w[1] == w1@);
    if is_word(sub, "mkdir") && ws.len() == 2 && !ends && !is_dash(w1) {
        return make_plan(start, no_pairs(), remote_of(w1, false), no_pairs());
    }
    if is_word(sub, "mkdir") && ws.len() == 3 && !ends && (is_word(w1, "-p") || is_word(
        w1,
        "--parents",
    )) {
        let x = ws[2].as_slice();
        assert(w[2] == x@);
        return make_plan(start, no_pairs(), remote_of(x, false), no_pairs());
    }
    empty_plan(start)
}

fn ws_end_of(b: &[char]) -> (r: usize)
    ensures
        r == crate::shell::ws_end(b@),
        r <= b@.len(),
{
    let mut e = b.len();
    assert(b@.take(b@.len() as int) =~= b@);
    while e > 0 && !is_whitespace(b[e - 1])
        invariant
            e <= b@.len(),
            crate::shell::ws_end(b@) == crate::shell::ws_end(b@.take(e as int)),
        decreases e,
    {
        assert(b@.take(e as int).drop_last() =~= b@.take(e - 1));
        e = e - 1;
    }
    if e > 0 {
        assert(b@.take(e as int).last() == b@[e - 1]);
    } else {
        assert(b@.take(0) =~= Seq::<char>::empty());
    }
    e
}

/// The completion asked for by the text `b` before the cursor.
fn plan_for(b: &[char], start: usize, pos: usize) -> (p: CompletionPlan)
    ensures
        p.view() == spec_plan(b@, start as nat, pos as nat),
{
    let ws = split_words_of(b);
    let ends = b.len() > 0 && is_whitespace(b[b.len() - 1]);
    let we = ws_end_of(b);
    let partial = copy_range(b, we, b.len());
    assert(partial@ =~= b@.skip(we as int));
    if ws.len() == 0 || (ws.len() == 1 && !ends) {
        let subs = crate::shell::subcommands();
        let p = filter_words(&subs, partial.as_slice());
        return make_plan(start, p, Source::Nothing, no_pairs());
    }
    assert(views(ws@)[0] == ws@[0]@);
    if is_word(ws[0].as_slice(), "timeout") && ws.len() > 1 {
        return empty_plan(start);
    }
    if ws.len() == 1 {
        return first_arg_of(ws[0].as_slice(), start, pos);
    }
    later_of(&ws, ends, partial.as_slice(), start, pos)
}

fn split_words_of(b: &[char]) -> (ws: Vec<Vec<char>>)
    ensures
        views(ws@) == words(b@),
{
    crate::text::split_words(b)
}

/// Char index of byte offset `pos` in `line`.
fn char_index_at(line: &str, pos: usize) -> (k: usize)
    requires
        crate::shell::char_boundary(line@, pos as int),
    ensures
        crate::shell::at_byte(line@, pos as int, k as int),
        forall|j: int| crate::shell::at_byte(line@, pos as int, j) ==> j == k,
{
    let v = chars_of(line);
    let ghost s = line@;
    let ghost kk = choose|k: int| crate::shell::at_byte(s, pos as int, k);
    let mut i: usize = 0;
    let mut off: usize = 0;
    let n = v.len();
    assert(s.take(0) =~= Seq::<char>::empty());
    while off < pos
        invariant
            n == v@.len(),
            v@ == s,
            crate::shell::at_byte(s, pos as int, kk),
            i <= kk,
            off == blen(s.take(i as int)),
            off <= pos,
        decreases kk - i,
    {
        proof {
            if kk <= i {
                crate::shell::lemma_blen_take_grows(s, kk, i as int);
            }
            crate::text::lemma_blen_push(s.take(i as int), s[i as int]);
            assert(s.take(i as int).push(s[i as int]) =~= s.take(i + 1));
            crate::shell::lemma_blen_take_grows(s, i + 1, kk);
        }
        let c = v[i];
        off = off + crate::text::utf8_width(c);
        i = i + 1;
    }
    proof {
        assert forall|j: int| crate::shell::at_byte(s, pos as int, j) implies j == i by {
            if j < i {
                crate::shell::lemma_blen_take_grows(s, j, i as int);
            }
            if j > i {
                crate::shell::lemma_blen_take_grows(s, i as int, j);
            }
        }
    }
    i
}

/// Decides what Tab completes on `line` with the cursor at byte offset `pos`.
pub fn plan_completion(line: &str, pos: usize) -> (p: CompletionPlan)
    requires
        crate::shell::char_boundary(line@, pos as int),
    ensures
        forall|k: int|
            crate::shell::at_byte(line@, pos as int, k) ==> p.view() == spec_plan(
                line@.take(k),
                blen(line@.take(ws_end(line@.take(k)) as int)),
                pos as nat,
            ),
{
    let start = crate::shell::word_start(line, pos);
    let k = char_index_at(line, pos);
    let v = chars_of(line);
    let b = copy_range(v.as_slice(), 0, k);
    assert(b@ =~= line@.take(k as int));
    plan_for(b.as_slice(), start, pos)
}

} // verus!

verus! {

pub open spec fn inner(x: Seq<char>) -> Seq<char> {
    drop_back(drop_front(x, slash()), slash())
}

/// The absolute path that a partial word names, before normalization.
pub open spec fn merged_core(t: Seq<char>, cwd: Option<Seq<char>>) -> Seq<char> {
    if starts_with(t, seq!['/']) {
        drop_back(t, slash())
    } else {
        match cwd {
            Some(c) => seq!['/'] + inner(c) + seq!['/'] + inner(t),
            None => seq!['/'] + inner(t),
        }
    }
}

/// The directory to list and the name prefix to match for a partial path:
/// the shell directory for an empty word, the directory itself for a word
/// ending in `/`, else the parent directory and the last name; none when the
/// path does not normalize.
pub open spec fn spec_parent_prefix(partial: Seq<char>, cwd: Option<Seq<char>>) -> Option<
    (Seq<char>, Seq<char>),
> {
    let t = trim(partial);
    if t.len() == 0 {
        Some(
            (
                match cwd {
                    None => seq!['/'],
                    Some(c) => seq!['/'] + c,
                },
                seq![],
            ),
        )
    } else if t == seq!['/'] {
        Some((seq!['/'], seq![]))
    } else if t.last() == '/' {
        match spec_normalize_path(merged_core(t, cwd)) {
            Ok(m) => Some((m, seq![])),
            Err(_) => None,
        }
    } else {
        match spec_normalize_path(merged_core(t, cwd)) {
            Err(_) => None,
            Ok(m) => if m == seq!['/'] {
                Some((seq!['/'], seq![]))
            } else {
                match last_index(m, '/') {
                    None => Some((seq!['/'], seq![])),
                    Some(i) => {
                        let par = if i == 0 {
                            seq!['/']
                        } else {
                            m.take(i as int)
                        };
                        Some(
                            (
                                match spec_normalize_path(par) {
                                    Ok(n) => n,
                                    Err(_) => par,
                                },
                                m.skip(i + 1 as int),
                            ),
                        )
                    },
                }
            },
        }
    }
}

fn inner_of(x: &[char]) -> (r: Vec<char>)
    ensures
        r@ == inner(x@),
{
    let a = trim_front(x, CharClass::Exactly('/'));
    trim_back(a.as_slice(), CharClass::Exactly('/'))
}

fn normalized_chars(p: &[char]) -> (r: Option<Vec<char>>)
    ensures
        match r {
            Some(v) => spec_normalize_path(p@) == Ok::<Seq<char>, Seq<char>>(v@),
            None => spec_normalize_path(p@) is Err,
        },
{
    let s = string_of(p);
    match crate::paths::normalize_path(s.as_str()) {
        Ok(n) => Some(chars_of(n.as_str())),
        Err(_) => None,
    }
}

pub fn shell_completion_parent_prefix(partial: &str, cwd: Option<&str>) -> (r: Option<(String, String)>)
    ensures
        match r {
            Some((a, b)) => spec_parent_prefix(partial@, crate::shell_path::opt_view(cwd)) == Some(
                (a@, b@),
            ),
            None => spec_parent_prefix(partial@, crate::shell_path::opt_view(cwd)) is None,
        },
{
    let t = trim_ws(chars_of(partial).as_slice());
    let none: [char; 0] = [];
    assert(none@ =~= Seq::<char>::empty());
    if t.len() == 0 {
        let mut d: Vec<char> = Vec::new();
        d.push('/');
        match cwd {
            Some(c) => {
                append_chars(&mut d, chars_of(c).as_slice());
            },
            None => {},
        }
        return Some((string_of(d.as_slice()), string_of(&none)));
    }
    if t.len() == 1 && t[0] == '/' {
        assert(t@ =~= seq!['/']);
        return Some((string_of(&['/']), string_of(&none)));
    }
    assert(t@ != seq!['/']) by {
        if t@ == seq!['/'] {
            assert(t@.len() == 1 && t@[0] == '/');
        }
    }
    let core: Vec<char> = if t[0] == '/' {
        assert(t@.subrange(0, 1) =~= seq!['/']);
        trim_back(t.as_slice(), CharClass::Exactly('/'))
    } else {
        assert(!starts_with(t@, seq!['/'])) by {
            assert(t@.subrange(0, 1)[0] == t@[0]);
        }
        let mut v: Vec<char> = Vec::new();
        v.push('/');
        match cwd {
            Some(c) => {
                let ci = inner_of(chars_of(c).as_slice());
                append_chars(&mut v, ci.as_slice());
                v.push('/');
            },
            None => {},
        }
        let ti = inner_of(t.as_slice());
        append_chars(&mut v, ti.as_slice());
        v
    };
    assert(core@ =~= merged_core(t@, crate::shell_path::opt_view(cwd)));
    let m = match normalized_chars(core.as_slice()) {
        Some(m) => m,
        None => return None,
    };
    if t[t.len() - 1] == '/' {
        return Some((string_of(m.as_slice()), string_of(&none)));
    }
    if m.len() == 1 && m[0] == '/' {
        assert(m@ =~= seq!['/']);
        return Some((string_of(&['/']), string_of(&none)));
    }
    assert(m@ != seq!['/']) by {
        if m@ == seq!['/'] {
            assert(m@.len() == 1 && m@[0] == '/');
        }
    }
    match rfind_char(m.as_slice(), '/') {
        None => Some((string_of(&['/']), string_of(&none))),
        Some(i) => {
            let par: Vec<char> = if i == 0 {
                let mut v: Vec<char> = Vec::new();
                v.push('/');
                v
            } else {
                copy_range(m.as_slice(), 0, i)
            };
            assert(i == 0 ==> par@ =~= seq!['/']);
            let n = m.len();
            let name = copy_range(m.as_slice(), i + 1, n);
            assert(name@ =~= m@.skip(i + 1 as int));
            let pn = match normalized_chars(par.as_slice()) {
                Some(x) => x,
                None => par,
            };
            Some((string_of(pn.as_slice()), string_of(name.as_slice())))
        },
    }
}

} // verus!

verus! {

proof fn lemma_lex_le_trans(a: Seq<char>, b: Seq<char>, c: Seq<char>)
    ensures
        !lex_lt(b, a) && !lex_lt(c, b) ==> !lex_lt(c, a),
{
    crate::ls::lemma_lex_total(a, b);
    crate::ls::lemma_lex_total(b, c);
    crate::ls::lemma_lex_trans(a, b, c);
    crate::ls::lemma_lex_asym(a, c);
    crate::ls::lemma_lex_asym(c, a);
    crate::ls::lemma_lex_asym(a, b);
    crate::ls::lemma_lex_asym(b, c);
    if !lex_lt(b, a) && !lex_lt(c, b) && lex_lt(c, a) {
        if a == b {
            assert(lex_lt(c, b));
        } else if b == c {
            assert(lex_lt(b, a));
        } else {
            assert(lex_lt(a, b) && lex_lt(b, c));
        }
    }
}

/// Candidates in display order; equal displays keep their order.
pub open spec fn display_sorted(s: Seq<(Seq<char>, Seq<char>)>) -> bool {
    forall|i: int, j: int| 0 <= i < j < s.len() ==> !lex_lt((#[trigger] s[j]).0, (#[trigger] s[i]).0)
}

pub open spec fn stable_by_display(
    out: Seq<(Seq<char>, Seq<char>)>,
    input: Seq<(Seq<char>, Seq<char>)>,
    p: Seq<int>,
) -> bool {
    &&& out.len() == input.len()
    &&& crate::ls::is_perm(p, input.len() as int)
    &&& forall|k: int| 0 <= k < out.len() ==> #[trigger] out[k] == input[p[k]]
    &&& display_sorted(out)
    &&& forall|k: int, m: int|
        0 <= k < m < out.len() && (#[trigger] out[k]).0 == (#[trigger] out[m]).0 ==> p[k] < p[m]
}

/// Sorts candidates by display text (stable).
fn sort_by_display(v: &mut Vec<Pair>)
    ensures
        exists|p: Seq<int>| stable_by_display(pair_views(final(v)@), pair_views(old(v)@), p),
{
    let ghost input = pair_views(v@);
    let n = v.len();
    let ghost mut p: Seq<int> = seq![];
    let mut i: usize = 0;
    while i < n
        invariant
            n == input.len(),
            v@.len() == n,
            i <= n,
            pair_views(v@).skip(i as int) == input.skip(i as int),
            p.len() == i,
            forall|k: int| 0 <= k < i ==> 0 <= #[trigger] p[k] < i,
            forall|k: int, m: int| 0 <= k < m < i ==> #[trigger] p[k] != #[trigger] p[m],
            forall|k: int| 0 <= k < i ==> #[trigger] pair_views(v@)[k] == input[p[k]],
            display_sorted(pair_views(v@).take(i as int)),
            forall|k: int, m: int|
                0 <= k < m < i && (#[trigger] pair_views(v@)[k]).0 == (#[trigger] pair_views(
                    v@,
                )[m]).0 ==> p[k] < p[m],
        decreases n - i,
    {
        let ghost bv = pair_views(v@);
        let x = v.remove(i);
        let ghost xv = (x.display@, x.replacement@);
        assert(xv == input[i as int]) by {
            assert(bv.skip(i as int)[0] == bv[i as int]);
            assert(input.skip(i as int)[0] == input[i as int]);
        }
        assert(pair_views(v@) =~= bv.remove(i as int));
        let mut j: usize = i;
        while j > 0 && lex_less(x.display.as_str(), v[j - 1].display.as_str())
            invariant
                j <= i,
                i < n,
                v@.len() == n - 1,
                pair_views(v@) == bv.remove(i as int),
                bv.len() == n,
                xv == (x.display@, x.replacement@),
                forall|k: int| j <= k < i ==> lex_lt(xv.0, (#[trigger] pair_views(v@)[k]).0),
            decreases j,
        {
            assert(pair_views(v@)[j - 1] == (v@[j - 1].display@, v@[j - 1].replacement@));
            j = j - 1;
        }
        if j > 0 {
            assert(pair_views(v@)[j - 1] == (v@[j - 1].display@, v@[j - 1].replacement@));
        }
        let ghost rv = pair_views(v@);
        v.insert(j, x);
        proof {
            let old_p = p;
            p = p.insert(j as int, i as int);
            let r = pair_views(v@);
            assert(r =~= rv.insert(j as int, xv));
            assert forall|k: int| 0 <= k < i + 1 implies #[trigger] r[k] == input[p[k]] by {
                if k < j {
                    assert(r[k] == bv[k]);
                } else if k > j {
                    assert(r[k] == bv[k - 1]);
                }
            }
            assert forall|k: int| 0 <= k < i + 1 implies 0 <= #[trigger] p[k] < i + 1 by {
                if k < j {
                    assert(p[k] == old_p[k]);
                } else if k > j {
                    assert(p[k] == old_p[k - 1]);
                }
            }
            assert forall|k: int, m: int| 0 <= k < m < i + 1 implies #[trigger] p[k] != #[trigger] p[m] by {
                if k < j && m < j {
                    assert(p[k] == old_p[k] && p[m] == old_p[m]);
                } else if k < j && m == j {
                    assert(p[k] == old_p[k]);
                } else if k < j && m > j {
                    assert(p[k] == old_p[k] && p[m] == old_p[m - 1]);
                } else if k == j {
                    assert(p[m] == old_p[m - 1]);
                } else {
                    assert(p[k] == old_p[k - 1] && p[m] == old_p[m - 1]);
                }
            }
            let s = r.take(i + 1);
            assert forall|a: int, b: int| 0 <= a < b < s.len() implies !lex_lt(
                (#[trigger] s[b]).0,
                (#[trigger] s[a]).0,
            ) by {
                let sa = s[a];
                let sb = s[b];
                crate::ls::lemma_lex_asym(sa.0, sb.0);
                crate::ls::lemma_lex_asym(sb.0, sa.0);
                if a < j && b < j {
                    assert(sa == bv.take(i as int)[a] && sb == bv.take(i as int)[b]);
                } else if a < j && b == j {
                    assert(sa == bv.take(i as int)[a]);
                    let last = bv.take(i as int)[j - 1];
                    assert(!lex_lt(xv.0, last.0));
                    if a < j - 1 {
                        assert(!lex_lt(last.0, sa.0));
                    }
                    lemma_lex_le_trans(sa.0, last.0, xv.0);
                } else if a < j && b > j {
                    assert(sa == bv.take(i as int)[a] && sb == bv.take(i as int)[b - 1]);
                } else if a == j {
                    assert(sb == rv[b - 1]);
                    assert(lex_lt(xv.0, rv[b - 1].0));
                } else {
                    assert(sa == bv.take(i as int)[a - 1] && sb == bv.take(i as int)[b - 1]);
                }
            }
            assert forall|k: int, m: int|
                0 <= k < m < i + 1 && (#[trigger] r[k]).0 == (#[trigger] r[m]).0 implies p[k] < p[m] by {
                if k < j && m < j {
                    assert(p[k] == old_p[k] && p[m] == old_p[m]);
                    assert(r[k] == bv[k] && r[m] == bv[m]);
                } else if k < j && m == j {
                    assert(p[k] == old_p[k]);
                } else if k < j && m > j {
                    assert(p[k] == old_p[k] && p[m] == old_p[m - 1]);
                    assert(r[k] == bv[k] && r[m] == bv[m - 1]);
                } else if k == j {
                    assert(r[m] == rv[m - 1]);
                    assert(lex_lt(xv.0, rv[m - 1].0));
                    crate::ls::lemma_lex_asym(xv.0, rv[m - 1].0);
                } else {
                    assert(p[k] == old_p[k - 1] && p[m] == old_p[m - 1]);
                    assert(r[k] == bv[k - 1] && r[m] == bv[m - 1]);
                }
            }
            assert(r.skip(i + 1) =~= input.skip(i + 1)) by {
                assert forall|k: int| 0 <= k < r.skip(i + 1).len() implies #[trigger] r.skip(i + 1)[k]
                    == input.skip(i + 1)[k] by {
                    assert(r[i + 1 + k] == bv[i + 1 + k]);
                    assert(bv.skip(i as int)[k + 1] == input.skip(i as int)[k + 1]);
                }
            }
        }
        i = i + 1;
    }
    proof {
        assert(pair_views(v@).take(n as int) =~= pair_views(v@));
        assert(stable_by_display(pair_views(v@), input, p));
    }
}

} // verus!

verus! {

/// The candidate for one directory entry under `parent`.
pub open spec fn entry_candidate(
    parent: Seq<char>,
    name: Seq<char>,
    is_dir: bool,
    abs: bool,
    cwd: Option<Seq<char>>,
) -> (Seq<char>, Seq<char>) {
    let full = crate::listing::spec_join_abs_dir_entry(parent, name);
    let dr = crate::shell::spec_completion_display(full, is_dir, abs, cwd);
    if is_dir {
        dr
    } else {
        (dr.1, dr.1.push(' '))
    }
}

/// An entry is offered when it passes the directories-only filter and its
/// name begins, ignoring case, with the prefix.
pub open spec fn keep_entry(name: Seq<char>, is_dir: bool, prefix: Seq<char>, dirs_only: bool) -> bool {
    (!dirs_only || is_dir) && (prefix.len() == 0 || starts_with(
        crate::highlight::to_lower(name),
        crate::highlight::to_lower(prefix),
    ))
}

pub open spec fn entry_views(e: Seq<(String, bool)>) -> Seq<(Seq<char>, bool)> {
    e.map_values(|x: (String, bool)| (x.0@, x.1))
}

/// The candidates for the kept entries, in listing order.
pub open spec fn entry_candidates(
    parent: Seq<char>,
    prefix: Seq<char>,
    entries: Seq<(Seq<char>, bool)>,
    abs: bool,
    dirs_only: bool,
    cwd: Option<Seq<char>>,
) -> Seq<(Seq<char>, Seq<char>)>
    decreases entries.len(),
{
    if entries.len() == 0 {
        seq![]
    } else {
        let e = entries.last();
        entry_candidates(parent, prefix, entries.drop_last(), abs, dirs_only, cwd) + (if keep_entry(
            e.0,
            e.1,
            prefix,
            dirs_only,
        ) {
            seq![entry_candidate(parent, e.0, e.1, abs, cwd)]
        } else {
            seq![]
        })
    }
}

/// Path candidates from the entries of `parent` (as listed by the server) for
/// a word whose last name starts with `prefix`: sorted by display text.
pub fn path_candidates(
    parent: &str,
    prefix: &str,
    entries: &Vec<(String, bool)>,
    partial: &str,
    dirs_only: bool,
    cwd: Option<&str>,
) -> (v: Vec<Pair>)
    ensures
        exists|p: Seq<int>|
            stable_by_display(
                pair_views(v@),
                entry_candidates(
                    parent@,
                    prefix@,
                    entry_views(entries@),
                    starts_with(partial@, seq!['/']),
                    dirs_only,
                    crate::shell_path::opt_view(cwd),
                ),
                p,
            ),
{
    let pv = chars_of(partial);
    let abs = pv.len() > 0 && pv[0] == '/';
    assert(abs == starts_with(partial@, seq!['/'])) by {
        if pv@.len() > 0 {
            assert(pv@.subrange(0, 1)[0] == pv@[0]);
            if pv@[0] == '/' {
                assert(pv@.subrange(0, 1) =~= seq!['/']);
            }
        }
    }
    let pl = chars_of(crate::highlight::lowercase(prefix).as_str());
    let prefix_empty = prefix.unicode_len() == 0;
    let ghost ev = entry_views(entries@);
    let ghost cw = crate::shell_path::opt_view(cwd);
    let mut out: Vec<Pair> = Vec::new();
    let mut i: usize = 0;
    while i < entries.len()
        invariant
            i <= entries@.len(),
            ev == entry_views(entries@),
            cw == crate::shell_path::opt_view(cwd),
            pl@ == crate::highlight::to_lower(prefix@),
            prefix_empty == (prefix@.len() == 0),
            abs == starts_with(partial@, seq!['/']),
            pair_views(out@) == entry_candidates(
                parent@,
                prefix@,
                ev.take(i as int),
                abs,
                dirs_only,
                cw,
            ),
        decreases entries@.len() - i,
    {
        let e = &entries[i];
        proof {
            assert(ev.take(i + 1).drop_last() =~= ev.take(i as int));
            assert(ev.take(i + 1).last() == (e.0@, e.1));
        }
        let keep = (!dirs_only || e.1) && (prefix_empty || {
            let nl = chars_of(crate::highlight::lowercase(e.0.as_str()).as_str());
            crate::text::begins_with(nl.as_slice(), pl.as_slice())
        });
        if keep {
            let full = crate::listing::join_abs_dir_entry(parent, e.0.as_str());
            let (display, core) = crate::shell::completion_path_display_and_replacement(
                full.as_str(),
                e.1,
                abs,
                cwd,
            );
            let pair = if e.1 {
                Pair { display, replacement: core }
            } else {
                let mut r = chars_of(core.as_str());
                r.push(' ');
                Pair { display: core, replacement: string_of(r.as_slice()) }
            };
            let ghost o = pair_views(out@);
            out.push(pair);
            assert(pair_views(out@) =~= o + seq![entry_candidate(parent@, e.0@, e.1, abs, cw)]);
        } else {
            assert(pair_views(out@) =~= pair_views(out@) + Seq::<(Seq<char>, Seq<char>)>::empty());
        }
        i = i + 1;
    }
    assert(ev.take(ev.len() as int) =~= ev);
    sort_by_display(&mut out);
    out
}

fn copy_pair(p: &Pair) -> (r: Pair)
    ensures
        r.display@ == p.display@,
        r.replacement@ == p.replacement@,
{
    Pair {
        display: string_of(chars_of(p.display.as_str()).as_slice()),
        replacement: string_of(chars_of(p.replacement.as_str()).as_slice()),
    }
}

fn append_pairs(v: &mut Vec<Pair>, src: &Vec<Pair>)
    ensures
        pair_views(final(v)@) == pair_views(old(v)@) + pair_views(src@),
{
    let ghost v0 = pair_views(v@);
    let mut i: usize = 0;
    while i < src.len()
        invariant
            i <= src@.len(),
            pair_views(v@) == v0 + pair_views(src@).take(i as int),
        decreases src@.len() - i,
    {
        let q = copy_pair(&src[i]);
        let ghost before = pair_views(v@);
        v.push(q);
        assert(pair_views(v@) =~= before.push((src@[i as int].display@, src@[i as int].replacement@)));
        assert(pair_views(src@).take(i + 1) =~= pair_views(src@).take(i as int).push(
            pair_views(src@)[i as int],
        ));
        assert(pair_views(v@) =~= v0 + pair_views(src@).take(i + 1));
        i = i + 1;
    }
    assert(pair_views(src@).take(src@.len() as int) =~= pair_views(src@));
}

/// The candidates of a plan, once its source has been listed: the fixed
/// candidates before, then `source_pairs`, then the fixed candidates after.
pub fn join_completion(p: &CompletionPlan, source_pairs: &Vec<Pair>) -> (v: Vec<Pair>)
    ensures
        pair_views(v@) == p.view().head + pair_views(source_pairs@) + p.view().tail,
{
    let mut v: Vec<Pair> = Vec::new();
    assert(pair_views(v@) =~= Seq::<(Seq<char>, Seq<char>)>::empty());
    append_pairs(&mut v, &p.head);
    append_pairs(&mut v, source_pairs);
    append_pairs(&mut v, &p.tail);
    assert(Seq::<(Seq<char>, Seq<char>)>::empty() + pair_views(p.head@) =~= pair_views(p.head@));
    v
}

/// The candidates that a server-side source contributes, given the cached
/// listing of the directory that `spec_parent_prefix` names for its word.
pub open spec fn remote_pairs_ok(
    c: Seq<(Seq<char>, Seq<char>)>,
    partial: Seq<char>,
    dirs_only: bool,
    cached: Seq<(Seq<char>, bool)>,
    cwd: Option<Seq<char>>,
) -> bool {
    match spec_parent_prefix(partial, cwd) {
        None => c.len() == 0,
        Some((parent, prefix)) => sorts_to(
            c,
            entry_candidates(parent, prefix, cached, starts_with(partial, seq!['/']), dirs_only, cwd),
        ),
    }
}

/// `out` is `input` stably sorted by display text.
pub open spec fn sorts_to(out: Seq<(Seq<char>, Seq<char>)>, input: Seq<(Seq<char>, Seq<char>)>) -> bool {
    exists|q: Seq<int>| stable_by_display(out, input, q)
}

/// What completing plan `p` gives, with `cached` the listing for a server-side
/// source.
pub open spec fn completed(
    p: PlanView,
    out: Seq<(Seq<char>, Seq<char>)>,
    cached: Seq<(Seq<char>, bool)>,
    cwd: Option<Seq<char>>,
) -> bool {
    match p.source {
        SourceView::Remote(partial, dirs_only) => exists|c: Seq<(Seq<char>, Seq<char>)>|
            #![trigger remote_pairs_ok(c, partial, dirs_only, cached, cwd)]
            remote_pairs_ok(c, partial, dirs_only, cached, cwd) && out == p.head + c + p.tail,
        _ => out == p.head + p.tail,
    }
}

/// Completes a plan whose source is on the server: the fixed candidates
/// before, the path candidates from `cached` (the listing of the directory
/// that `shell_completion_parent_prefix` names for the plan's word; none when
/// it names none), then the fixed candidates after. A plan with no server
/// source gives its fixed candidates alone; local sources are listed by the
/// caller and joined with `join_completion`.
pub fn complete_from_plan(
    p: &CompletionPlan,
    cached: &Vec<(String, bool)>,
    cwd: Option<&str>,
) -> (v: Vec<Pair>)
    ensures
        completed(p.view(), pair_views(v@), entry_views(cached@), crate::shell_path::opt_view(cwd)),
{
    let none: Vec<Pair> = Vec::new();
    assert(pair_views(none@) =~= Seq::<(Seq<char>, Seq<char>)>::empty());
    match &p.source {
        Source::Remote { partial, dirs_only } => {
            let ghost cw = crate::shell_path::opt_view(cwd);
            match shell_completion_parent_prefix(partial.as_str(), cwd) {
                None => {
                    let v = join_completion(p, &none);
                    assert(pair_views(v@) == p.view().head + pair_views(none@) + p.view().tail);
                    assert(p.view().source->Remote_0 == partial@);
                    assert(p.view().source->Remote_1 == *dirs_only);
                    assert(remote_pairs_ok(pair_views(none@), p.view().source->Remote_0, p.view().source->Remote_1, entry_views(cached@), cw));
                    assert(completed(p.view(), pair_views(v@), entry_views(cached@), cw));
                    v
                },
                Some((parent, prefix)) => {
                    let c = path_candidates(parent.as_str(), prefix.as_str(), cached, partial.as_str(), *dirs_only, cwd);
                    let v = join_completion(p, &c);
                    proof {
                        let e = entry_candidates(
                            parent@,
                            prefix@,
                            entry_views(cached@),
                            starts_with(partial@, seq!['/']),
                            *dirs_only,
                            cw,
                        );
                        let q = choose|q: Seq<int>| stable_by_display(pair_views(c@), e, q);
                        assert(stable_by_display(pair_views(c@), e, q));
                        assert(sorts_to(pair_views(c@), e));
                    }
                    assert(pair_views(v@) == p.view().head + pair_views(c@) + p.view().tail);
                    assert(p.view().source->Remote_0 == partial@);
                    assert(p.view().source->Remote_1 == *dirs_only);
                    assert(remote_pairs_ok(pair_views(c@), p.view().source->Remote_0, p.view().source->Remote_1, entry_views(cached@), cw));
                    assert(completed(p.view(), pair_views(v@), entry_views(cached@), cw));
                    v
                },
            }
        },
        _ => {
            let v = join_completion(p, &none);
            assert(p.view().head + Seq::<(Seq<char>, Seq<char>)>::empty() =~= p.view().head);
            assert(pair_views(v@) =~= p.view().head + p.view().tail);
            v
        },
    }
}

/// The candidates for the server's root directories: those starting with the
/// word (a leading `/` of the word is ignored for matching and kept in the
/// replacement).
pub open spec fn root_candidates(names: Seq<Seq<char>>, partial: Seq<char>) -> Seq<(Seq<char>, Seq<char>)>
    decreases names.len(),
{
    if names.len() == 0 {
        seq![]
    } else {
        let abs = starts_with(partial, seq!['/']);
        let norm = if abs {
            partial.drop_first()
        } else {
            partial
        };
        let c = names.last();
        root_candidates(names.drop_last(), partial) + (if starts_with(c, norm) {
            seq![
                (c, if abs {
                    seq!['/'] + c.push(' ')
                } else {
                    c.push(' ')
                }),
            ]
        } else {
            seq![]
        })
    }
}

/// What completion knows of the server between keystrokes.
pub struct CompletionState {
    /// Top-level directory names (for completion at the root).
    pub root_dir_names: Vec<String>,
    /// Directory listings by absolute path: name and whether it is a directory.
    pub dir_list_cache: vstd::hash_map::StringHashMap<Vec<(String, bool)>>,
    pub dirty: bool,
    /// The shell directory without its leading `/` (none at the root).
    pub cwd: Option<String>,
}

/// The cached listing of `dir`, if one is stored.
pub open spec fn cache_get(c: Map<Seq<char>, Vec<(String, bool)>>, dir: Seq<char>) -> Option<
    Seq<(Seq<char>, bool)>,
> {
    if c.contains_key(dir) {
        Some(entry_views(c[dir]@))
    } else {
        None
    }
}

/// The listing that test data gives for `dir`: the last one named for it.
pub open spec fn test_listing(dirs: Seq<(&str, Vec<(&str, bool)>)>, dir: Seq<char>) -> Option<
    Seq<(Seq<char>, bool)>,
>
    decreases dirs.len(),
{
    if dirs.len() == 0 {
        None
    } else if dirs.last().0@ == dir {
        Some(dirs.last().1@.map_values(|x: (&str, bool)| (x.0@, x.1)))
    } else {
        test_listing(dirs.drop_last(), dir)
    }
}

pub open spec fn string_views(v: Seq<String>) -> Seq<Seq<char>> {
    v.map_values(|s: String| s@)
}

fn clone_entries(e: &Vec<(String, bool)>) -> (r: Vec<(String, bool)>)
    ensures
        entry_views(r@) == entry_views(e@),
{
    let mut r: Vec<(String, bool)> = Vec::new();
    let mut i: usize = 0;
    while i < e.len()
        invariant
            i <= e@.len(),
            entry_views(r@) == entry_views(e@).take(i as int),
        decreases e@.len() - i,
    {
        let x = &e[i];
        let ghost r0 = entry_views(r@);
        let item = (string_of(chars_of(x.0.as_str()).as_slice()), x.1);
        assert(item.0@ == x.0@);
        r.push(item);
        assert(entry_views(e@)[i as int] == (x.0@, x.1));
        assert(entry_views(r@) =~= r0.push((x.0@, x.1)));
        assert(entry_views(r@) =~= entry_views(e@).take(i + 1));
        i = i + 1;
    }
    assert(entry_views(e@).take(e@.len() as int) =~= entry_views(e@));
    r
}

/// A directory listing read back after it was stored is the stored one; the
/// listings of other directories read as before.
pub proof fn law_cache_read_after_write(
    before: Map<Seq<char>, Vec<(String, bool)>>,
    dir: Seq<char>,
    entries: Vec<(String, bool)>,
    other: Seq<char>,
)
    ensures
        cache_get(before.insert(dir, entries), dir) == Some(entry_views(entries@)),
        other != dir ==> cache_get(before.insert(dir, entries), other) == cache_get(before, other),
{
}

impl CompletionState {
    /// A fresh state: nothing known, to be fetched.
    pub fn new() -> (s: Self)
        ensures
            s.root_dir_names@.len() == 0,
            s.dir_list_cache@ == Map::<Seq<char>, Vec<(String, bool)>>::empty(),
            s.dirty,
            s.cwd is None,
    {
        CompletionState {
            root_dir_names: Vec::new(),
            dir_list_cache: vstd::hash_map::StringHashMap::new(),
            dirty: true,
            cwd: None,
        }
    }

    /// A state holding the given root names and directory listings (later
    /// listings of the same directory win), marked fresh.
    pub fn from_test_data(
        root_dir_names: Vec<String>,
        dirs: Vec<(&str, Vec<(&str, bool)>)>,
        cwd: Option<String>,
    ) -> (s: Self)
        ensures
            s.root_dir_names@ == root_dir_names@,
            forall|dir: Seq<char>| #[trigger] cache_get(s.dir_list_cache@, dir) == test_listing(dirs@, dir),
            !s.dirty,
            s.cwd == cwd,
    {
        let mut cache: vstd::hash_map::StringHashMap<Vec<(String, bool)>> = vstd::hash_map::StringHashMap::new();
        let mut i: usize = 0;
        while i < dirs.len()
            invariant
                i <= dirs@.len(),
                forall|dir: Seq<char>| #[trigger] cache_get(cache@, dir) == test_listing(dirs@.take(i as int), dir),
            decreases dirs@.len() - i,
        {
            let d = &dirs[i];
            let mut es: Vec<(String, bool)> = Vec::new();
            let mut j: usize = 0;
            while j < d.1.len()
                invariant
                    j <= d.1@.len(),
                    entry_views(es@) == d.1@.map_values(|x: (&str, bool)| (x.0@, x.1)).take(
                        j as int,
                    ),
                decreases d.1@.len() - j,
            {
                let x = &d.1[j];
                let ghost e0 = entry_views(es@);
                let item = (string_of(chars_of(x.0).as_slice()), x.1);
                assert(item.0@ == x.0@);
                es.push(item);
                assert(d.1@.map_values(|x: (&str, bool)| (x.0@, x.1))[j as int] == (x.0@, x.1));
                assert(entry_views(es@) =~= e0.push((x.0@, x.1)));
                assert(entry_views(es@) =~= d.1@.map_values(|x: (&str, bool)| (x.0@, x.1)).take(
                    j + 1,
                ));
                j = j + 1;
            }
            assert(d.1@.map_values(|x: (&str, bool)| (x.0@, x.1)).take(d.1@.len() as int)
                =~= d.1@.map_values(|x: (&str, bool)| (x.0@, x.1)));
            let key = string_of(chars_of(d.0).as_slice());
            let ghost c0 = cache@;
            let ghost ev = entry_views(es@);
            cache.insert(key, es);
            proof {
                let t = dirs@.take(i + 1);
                assert(t.drop_last() =~= dirs@.take(i as int));
                assert(t.last() == *d);
                assert forall|dir: Seq<char>| #[trigger] cache_get(cache@, dir) == test_listing(t, dir) by {
                    if dir == d.0@ {
                        assert(cache@[dir]@ == es@);
                    } else {
                        assert(cache_get(c0, dir) == test_listing(dirs@.take(i as int), dir));
                    }
                }
            }
            i = i + 1;
        }
        assert(dirs@.take(dirs@.len() as int) =~= dirs@);
        CompletionState { root_dir_names, dir_list_cache: cache, dirty: false, cwd }
    }

    /// Forgets everything fetched; the next completion fetches again.
    pub fn invalidate_all(&mut self)
        ensures
            final(self).root_dir_names@.len() == 0,
            final(self).dir_list_cache@ == Map::<Seq<char>, Vec<(String, bool)>>::empty(),
            final(self).dirty,
            final(self).cwd == old(self).cwd,
    {
        self.root_dir_names = Vec::new();
        self.dir_list_cache.clear();
        self.dirty = true;
    }

    /// Whether the root directory names must be fetched.
    pub fn needs_root_directories(&self) -> (b: bool)
        ensures
            b == (self.dirty || self.root_dir_names@.len() == 0),
    {
        self.dirty || self.root_dir_names.len() == 0
    }

    /// The cached listing of `dir`, if any.
    pub fn cached_dir_list(&self, dir: &str) -> (r: Option<Vec<(String, bool)>>)
        ensures
            match r {
                Some(e) => cache_get(self.dir_list_cache@, dir@) == Some(entry_views(e@)),
                None => cache_get(self.dir_list_cache@, dir@) is None,
            },
    {
        match self.dir_list_cache.get(dir) {
            Some(e) => Some(clone_entries(e)),
            None => None,
        }
    }

    /// Stores the listing of `dir`, in place of any stored before.
    pub fn cache_dir_list(&mut self, dir: &str, entries: Vec<(String, bool)>)
        ensures
            final(self).dir_list_cache@ == old(self).dir_list_cache@.insert(dir@, entries),
            final(self).root_dir_names@ == old(self).root_dir_names@,
            final(self).dirty == old(self).dirty,
            final(self).cwd == old(self).cwd,
    {
        self.dir_list_cache.insert(string_of(chars_of(dir).as_slice()), entries);
    }

    /// Candidates for the root directories matching `partial`.
    pub fn complete_root_directories(&self, partial: &str) -> (v: Vec<Pair>)
        ensures
            pair_views(v@) == root_candidates(string_views(self.root_dir_names@), partial@),
    {
        let pv = chars_of(partial);
        let abs = pv.len() > 0 && pv[0] == '/';
        let norm = if abs {
            assert(pv@.subrange(0, 1) =~= seq!['/']);
            copy_range(pv.as_slice(), 1, pv.len())
        } else {
            assert(!starts_with(partial@, seq!['/'])) by {
                if pv@.len() > 0 {
                    assert(pv@.subrange(0, 1)[0] == pv@[0]);
                }
            }
            copy_range(pv.as_slice(), 0, pv.len())
        };
        assert(abs ==> norm@ =~= partial@.drop_first());
        assert(!abs ==> norm@ =~= partial@);
        let ghost names = string_views(self.root_dir_names@);
        let mut out: Vec<Pair> = Vec::new();
        let mut i: usize = 0;
        while i < self.root_dir_names.len()
            invariant
                i <= names.len(),
                names == string_views(self.root_dir_names@),
                abs == starts_with(partial@, seq!['/']),
                norm@ == (if abs {
                    partial@.drop_first()
                } else {
                    partial@
                }),
                pair_views(out@) == root_candidates(names.take(i as int), partial@),
            decreases names.len() - i,
        {
            let c = chars_of(self.root_dir_names[i].as_str());
            proof {
                assert(names.take(i + 1).drop_last() =~= names.take(i as int));
                assert(names.take(i + 1).last() == c@);
            }
            if crate::text::begins_with(c.as_slice(), norm.as_slice()) {
                let mut rep: Vec<char> = Vec::new();
                if abs {
                    rep.push('/');
                }
                append_chars(&mut rep, c.as_slice());
                rep.push(' ');
                let ghost o = pair_views(out@);
                out.push(Pair { display: string_of(c.as_slice()), replacement: string_of(rep.as_slice()) });
                proof {
                    if abs {
                        assert(rep@ =~= seq!['/'] + c@.push(' '));
                    } else {
                        assert(rep@ =~= c@.push(' '));
                    }
                    assert(pair_views(out@) =~= o + seq![
                        (c@, if abs {
                            seq!['/'] + c@.push(' ')
                        } else {
                            c@.push(' ')
                        }),
                    ]);
                }
            } else {
                assert(pair_views(out@) =~= pair_views(out@) + Seq::<
                    (Seq<char>, Seq<char>),
                >::empty());
            }
            i = i + 1;
        }
        assert(names.take(names.len() as int) =~= names);
        out
    }
}

} // verus!
