//! `tb chat`: transcript wrapping, scroll state, prompt text and the parsing of
//! what the user submits.

use vstd::prelude::*;
use crate::commands::TailMode;
use crate::paths::{speaker_id_error, validate_chat_speaker_id};
use crate::text::{
    ascii_lower, begins_with, chars_of, copy_range, drop_back, drop_front,
    owned, split_chars, split_on, starts_with, string_of, to_ascii_lower, trim, trim_back,
    trim_front, trim_ws, views, CharClass,
};

verus! {

/// Largest scroll offset that still fills the viewport.
pub open spec fn spec_max_scroll(rows_len: usize, vis_h: usize) -> usize {
    if rows_len > vis_h {
        (rows_len - vis_h) as usize
    } else {
        0
    }
}

/// `rows_len.saturating_sub(vis_h)`.
pub fn max_display_scroll(rows_len: usize, vis_h: usize) -> (r: usize)
    ensures
        r == spec_max_scroll(rows_len, vis_h),
{
    rows_len.saturating_sub(vis_h)
}

/// Live tail versus history browsing: a local send pins the view to the bottom;
/// a remote append keeps a detached viewport where it is.
#[derive(Clone, Copy, Debug)]
pub struct ChatScrollState {
    pub pinned_bottom: bool,
    pub scroll_off: usize,
}

impl ChatScrollState {
    pub fn new() -> (s: Self)
        ensures
            s.pinned_bottom,
            s.scroll_off == 0,
    {
        ChatScrollState { pinned_bottom: true, scroll_off: 0 }
    }

    pub fn pin_to_bottom(&mut self)
        ensures
            final(self).pinned_bottom,
            final(self).scroll_off == old(self).scroll_off,
    {
        self.pinned_bottom = true;
    }

    pub open spec fn spec_effective_offset(self, rows_len: usize, vis_h: usize) -> usize {
        let m = spec_max_scroll(rows_len, vis_h);
        if self.pinned_bottom {
            m
        } else if self.scroll_off < m {
            self.scroll_off
        } else {
            m
        }
    }

    /// First transcript row shown.
    pub fn effective_offset(&self, rows_len: usize, vis_h: usize) -> (r: usize)
        ensures
            r == self.spec_effective_offset(rows_len, vis_h),
    {
        let max_s = max_display_scroll(rows_len, vis_h);
        if self.pinned_bottom {
            max_s
        } else {
            if self.scroll_off < max_s {
                self.scroll_off
            } else {
                max_s
            }
        }
    }

    pub fn clamp_when_detached(&mut self, rows_len: usize, vis_h: usize)
        ensures
            final(self).pinned_bottom == old(self).pinned_bottom,
            final(self).scroll_off == if old(self).pinned_bottom {
                old(self).scroll_off
            } else if old(self).scroll_off < spec_max_scroll(rows_len, vis_h) {
                old(self).scroll_off
            } else {
                spec_max_scroll(rows_len, vis_h)
            },
    {
        if !self.pinned_bottom {
            let max_s = max_display_scroll(rows_len, vis_h);
            if self.scroll_off > max_s {
                self.scroll_off = max_s;
            }
        }
    }

    pub open spec fn page_step(vis_h: usize) -> usize {
        if vis_h > 1 {
            vis_h
        } else {
            1
        }
    }

    pub open spec fn spec_page_up(self, vis_h: usize) -> ChatScrollState {
        let step = Self::page_step(vis_h);
        ChatScrollState {
            pinned_bottom: false,
            scroll_off: if self.scroll_off > step {
                (self.scroll_off - step) as usize
            } else {
                0
            },
        }
    }

    /// Scrolls one page up and detaches from the bottom.
    pub fn page_up(&mut self, vis_h: usize)
        ensures
            *final(self) == old(self).spec_page_up(vis_h),
    {
        self.pinned_bottom = false;
        let step = if vis_h > 1 {
            vis_h
        } else {
            1
        };
        self.scroll_off = self.scroll_off.saturating_sub(step);
    }

    pub open spec fn spec_page_down(self, rows_len: usize, vis_h: usize) -> ChatScrollState {
        let m = spec_max_scroll(rows_len, vis_h);
        let next = self.scroll_off + Self::page_step(vis_h);
        let off = if next < m {
            next as usize
        } else {
            m
        };
        if self.pinned_bottom {
            self
        } else {
            ChatScrollState { scroll_off: off, pinned_bottom: rows_len <= vis_h || off >= m }
        }
    }

    /// Scrolls one page down; reaching the bottom pins again.
    pub fn page_down(&mut self, rows_len: usize, vis_h: usize)
        requires
            !old(self).pinned_bottom ==> old(self).scroll_off + Self::page_step(vis_h) <= usize::MAX,
        ensures
            *final(self) == old(self).spec_page_down(rows_len, vis_h),
    {
        let vis = if vis_h > 1 {
            vis_h
        } else {
            1
        };
        let max_s = max_display_scroll(rows_len, vis_h);
        if self.pinned_bottom {
            return;
        }
        let next = self.scroll_off + vis;
        self.scroll_off = if next < max_s {
            next
        } else {
            max_s
        };
        if rows_len <= vis_h || self.scroll_off >= max_s {
            self.pinned_bottom = true;
        }
    }

    /// After remote content changes: a view that was pinned stays pinned.
    pub fn on_remote_content_changed(&mut self, was_pinned: bool)
        ensures
            final(self).scroll_off == old(self).scroll_off,
            final(self).pinned_bottom == (old(self).pinned_bottom || was_pinned),
    {
        if was_pinned {
            self.pinned_bottom = true;
        }
    }
}

/// Whatever the state, the offset shown lies between the top and the last full page.
pub proof fn law_effective_offset_in_range(s: ChatScrollState, rows_len: usize, vis_h: usize)
    ensures
        s.spec_effective_offset(rows_len, vis_h) <= spec_max_scroll(rows_len, vis_h),
        s.pinned_bottom ==> s.spec_effective_offset(rows_len, vis_h) == spec_max_scroll(
            rows_len,
            vis_h,
        ),
{
}

/// Paging up never shows a later row than before, and leaves the view detached.
pub proof fn law_page_up_moves_up(s: ChatScrollState, rows_len: usize, vis_h: usize)
    ensures
        s.spec_page_up(vis_h).spec_effective_offset(rows_len, vis_h) <= s.spec_effective_offset(
            rows_len,
            vis_h,
        ),
        !s.spec_page_up(vis_h).pinned_bottom,
{
}

/// Paging down never shows an earlier row than before; a pinned view does not move.
pub proof fn law_page_down_moves_down(s: ChatScrollState, rows_len: usize, vis_h: usize)
    ensures
        s.spec_page_down(rows_len, vis_h).spec_effective_offset(rows_len, vis_h)
            >= s.spec_effective_offset(rows_len, vis_h),
        s.pinned_bottom ==> s.spec_page_down(rows_len, vis_h) == s,
{
}

/// A local send pins the view: after `pin_to_bottom` the last page is shown.
pub proof fn law_pinned_shows_last_page(s: ChatScrollState, rows_len: usize, vis_h: usize)
    ensures
        (ChatScrollState { pinned_bottom: true, ..s }).spec_effective_offset(rows_len, vis_h)
            == spec_max_scroll(rows_len, vis_h),
{
}

#[derive(Clone, Copy, Debug, PartialEq, Eq, Structural)]
pub enum StatusTone {
    Info,
    Error,
}

/// The one-line status shown above the input banner.
#[derive(Clone, Debug)]
pub struct StatusLine {
    pub text: String,
    pub tone: StatusTone,
}

impl StatusLine {
    pub fn info(text: String) -> (s: Self)
        ensures
            s.text@ == text@,
            s.tone == StatusTone::Info,
    {
        StatusLine { text, tone: StatusTone::Info }
    }

    pub fn error(text: String) -> (s: Self)
        ensures
            s.text@ == text@,
            s.tone == StatusTone::Error,
    {
        StatusLine { text, tone: StatusTone::Error }
    }
}

/// Editor output: one trailing `\n` (or `\r\n`) removed.
pub open spec fn spec_normalize_editor_text(t: Seq<char>) -> Seq<char> {
    if t.len() > 0 && t.last() == '\n' {
        let u = t.drop_last();
        if u.len() > 0 && u.last() == '\r' {
            u.drop_last()
        } else {
            u
        }
    } else {
        t
    }
}

pub fn normalize_editor_text(text: String) -> (r: String)
    ensures
        r@ == spec_normalize_editor_text(text@),
{
    let mut v = chars_of(text.as_str());
    if v.len() > 0 && v[v.len() - 1] == '\n' {
        v.pop();
        if v.len() > 0 && v[v.len() - 1] == '\r' {
            v.pop();
        }
    }
    string_of(v.as_slice())
}

/// A line cut into rows of `w` characters (the last row may be shorter).
pub open spec fn chunks(s: Seq<char>, w: nat) -> Seq<Seq<char>>
    recommends
        w > 0,
    decreases s.len(),
    when w > 0
{
    if s.len() == 0 {
        seq![]
    } else if s.len() <= w {
        seq![s]
    } else {
        seq![s.take(w as int)] + chunks(s.skip(w as int), w)
    }
}

/// Rows of one logical line: an empty line keeps one empty row.
pub open spec fn wrap_line(l: Seq<char>, w: nat) -> Seq<Seq<char>> {
    if l.len() == 0 {
        seq![seq![]]
    } else {
        chunks(l, w)
    }
}

pub open spec fn wrap_lines(ls: Seq<Seq<char>>, w: nat) -> Seq<Seq<char>>
    decreases ls.len(),
{
    if ls.len() == 0 {
        seq![]
    } else {
        wrap_lines(ls.drop_last(), w) + wrap_line(ls.last(), w)
    }
}

pub open spec fn spec_wrap_transcript(t: Seq<char>, width: usize) -> Seq<Seq<char>> {
    let w: nat = if width > 1 {
        width as nat
    } else {
        1
    };
    wrap_lines(split_on(t, '\n'), w)
}

pub open spec fn string_views(v: Seq<String>) -> Seq<Seq<char>> {
    Seq::new(v.len(), |i: int| v[i]@)
}

proof fn lemma_chunks_step(s: Seq<char>, w: nat, i: nat)
    requires
        w > 0,
        i < s.len(),
    ensures
        chunks(s.skip(i as int), w) == seq![s.subrange(i as int, if i + w < s.len() {
            (i + w) as int
        } else {
            s.len() as int
        })] + chunks(s.skip(if i + w < s.len() {
            (i + w) as int
        } else {
            s.len() as int
        }), w),
{
    let t = s.skip(i as int);
    if t.len() <= w {
        assert(t =~= s.subrange(i as int, s.len() as int));
        assert(s.skip(s.len() as int) =~= Seq::<char>::empty());
        assert(seq![t] + Seq::<Seq<char>>::empty() =~= seq![t]);
    } else {
        assert(t.take(w as int) =~= s.subrange(i as int, (i + w) as int));
        assert(t.skip(w as int) =~= s.skip((i + w) as int));
    }
}

fn push_row(rows: &mut Vec<String>, row: &[char])
    ensures
        string_views(final(rows)@) == string_views(old(rows)@).push(row@),
{
    let ghost r0 = string_views(rows@);
    rows.push(string_of(row));
    assert(string_views(rows@) =~= r0.push(row@));
}

/// Transcript rows for the raw (non-markdown) chat view: every logical line is
/// cut into rows of at most `width` characters (`width` 0 counts as 1); empty
/// lines keep an empty row.
pub fn wrap_transcript_lines(transcript: &str, width: usize) -> (rows: Vec<String>)
    ensures
        string_views(rows@) == spec_wrap_transcript(transcript@, width),
{
    let w: usize = if width > 1 {
        width
    } else {
        1
    };
    let tv = chars_of(transcript);
    let lines = split_chars(tv.as_slice(), '\n');
    let ghost ls = views(lines@);
    let mut rows: Vec<String> = Vec::new();
    let mut k: usize = 0;
    assert(ls.take(0) =~= Seq::<Seq<char>>::empty());
    assert(string_views(rows@) =~= Seq::<Seq<char>>::empty());
    while k < lines.len()
        invariant
            w >= 1,
            w == (if width > 1 {
                width
            } else {
                1
            }),
            k <= lines@.len(),
            ls == views(lines@),
            ls.len() == lines@.len(),
            string_views(rows@) == wrap_lines(ls.take(k as int), w as nat),
        decreases lines@.len() - k,
    {
        let line = &lines[k];
        let ghost before = string_views(rows@);
        assert(ls.take(k + 1).drop_last() =~= ls.take(k as int));
        assert(ls.take(k + 1).last() == line@);
        if line.len() == 0 {
            let e: Vec<char> = Vec::new();
            push_row(&mut rows, e.as_slice());
            assert(string_views(rows@) =~= before + seq![Seq::<char>::empty()]);
        } else {
            let mut i: usize = 0;
            assert(line@.skip(0) =~= line@);
            while i < line.len()
                invariant
                    w >= 1,
                    i <= line@.len(),
                    line@.len() > 0,
                    string_views(rows@) + chunks(line@.skip(i as int), w as nat) == before
                        + chunks(line@, w as nat),
                decreases line@.len() - i,
            {
                let end = if line.len() - i > w {
                    i + w
                } else {
                    line.len()
                };
                proof {
                    lemma_chunks_step(line@, w as nat, i as nat);
                }
                let row = copy_range(line.as_slice(), i, end);
                let ghost r0 = string_views(rows@);
                push_row(&mut rows, row.as_slice());
                assert(string_views(rows@) + chunks(line@.skip(end as int), w as nat) =~= r0
                    + chunks(line@.skip(i as int), w as nat));
                i = end;
            }
            assert(line@.skip(line@.len() as int) =~= Seq::<char>::empty());
            assert(string_views(rows@) + Seq::<Seq<char>>::empty() =~= string_views(rows@));
        }
        k = k + 1;
    }
    assert(ls.take(ls.len() as int) =~= ls);
    rows
}

pub open spec fn flatten(rows: Seq<Seq<char>>) -> Seq<char>
    decreases rows.len(),
{
    if rows.len() == 0 {
        seq![]
    } else {
        flatten(rows.drop_last()) + rows.last()
    }
}

proof fn lemma_flatten_concat(a: Seq<Seq<char>>, b: Seq<Seq<char>>)
    ensures
        flatten(a + b) == flatten(a) + flatten(b),
    decreases b.len(),
{
    if b.len() == 0 {
        assert(a + b =~= a);
        assert(flatten(a) + Seq::<char>::empty() =~= flatten(a));
    } else {
        lemma_flatten_concat(a, b.drop_last());
        assert((a + b).drop_last() =~= a + b.drop_last());
        assert((a + b).last() == b.last());
        assert(flatten(a) + flatten(b.drop_last()) + b.last() =~= flatten(a) + (flatten(
            b.drop_last(),
        ) + b.last()));
    }
}

proof fn lemma_flatten_single(x: Seq<char>)
    ensures
        flatten(seq![x]) == x,
{
    assert(seq![x].drop_last() =~= Seq::<Seq<char>>::empty());
    assert(flatten(Seq::<Seq<char>>::empty()) == Seq::<char>::empty());
    assert(Seq::<char>::empty() + x =~= x);
}

/// Rows of a non-empty line are non-empty, at most `w` long, and give the line back
/// when concatenated.
pub proof fn law_chunks_reassemble(s: Seq<char>, w: nat)
    requires
        w > 0,
    ensures
        flatten(chunks(s, w)) == s,
        forall|i: int|
            0 <= i < chunks(s, w).len() ==> 0 < #[trigger] chunks(s, w)[i].len() <= w,
    decreases s.len(),
{
    if s.len() == 0 {
        assert(s =~= Seq::<char>::empty());
    } else if s.len() <= w {
        lemma_flatten_single(s);
    } else {
        let rest = s.skip(w as int);
        law_chunks_reassemble(rest, w);
        lemma_flatten_concat(seq![s.take(w as int)], chunks(rest, w));
        lemma_flatten_single(s.take(w as int));
        assert(s.take(w as int) + rest =~= s);
        let c = chunks(s, w);
        assert(c == seq![s.take(w as int)] + chunks(rest, w));
        assert forall|i: int| 0 <= i < c.len() implies 0 < #[trigger] c[i].len() <= w by {
            if i > 0 {
                assert(c[i] == chunks(rest, w)[i - 1]);
            }
        }
    }
}

/// `host/path` with the path's leading slashes collapsed into one.
pub open spec fn spec_prompt_target(host: Seq<char>, path: Seq<char>) -> Seq<char> {
    host.push('/') + drop_front(path, CharClass::Exactly('/'))
}

pub fn prompt_target(host: &str, path: &str) -> (r: String)
    ensures
        r@ == spec_prompt_target(host@, path@),
{
    let mut v = chars_of(host);
    v.push('/');
    let p = chars_of(path);
    let q = trim_front(p.as_slice(), CharClass::Exactly('/'));
    crate::text::append_chars(&mut v, q.as_slice());
    string_of(v.as_slice())
}

/// The chat identity line: `tb host/path nickname`.
pub open spec fn spec_canonical_prompt(host: Seq<char>, path: Seq<char>, nickname: Seq<char>) -> Seq<
    char,
> {
    seq!['t', 'b', ' '] + spec_prompt_target(host, path) + seq![' '] + nickname
}

pub fn canonical_prompt(host: &str, path: &str, nickname: &str) -> (r: String)
    ensures
        r@ == spec_canonical_prompt(host@, path@, nickname@),
{
    let mut v: Vec<char> = Vec::new();
    v.push('t');
    v.push('b');
    v.push(' ');
    let t = prompt_target(host, path);
    let tv = chars_of(t.as_str());
    crate::text::append_chars(&mut v, tv.as_slice());
    v.push(' ');
    let n = chars_of(nickname);
    crate::text::append_chars(&mut v, n.as_slice());
    assert(v@ =~= spec_canonical_prompt(host@, path@, nickname@));
    string_of(v.as_slice())
}

/// How many `━` fill the chat banner to `width` columns after
/// `━━ <identity> ` (none when that is already as wide).
pub open spec fn spec_banner_fill(host: Seq<char>, path: Seq<char>, nickname: Seq<char>, width: nat) -> nat {
    let used = 3 + spec_canonical_prompt(host, path, nickname).len() + 1;
    if width > used {
        (width - used) as nat
    } else {
        0
    }
}

pub fn prompt_banner_fill(host: &str, path: &str, nickname: &str, width: usize) -> (n: usize)
    ensures
        n == spec_banner_fill(host@, path@, nickname@, width as nat),
{
    let id = canonical_prompt(host, path, nickname);
    let k = chars_of(id.as_str()).len();
    if k >= width {
        return 0;
    }
    let rest = width - k;
    if rest > 4 {
        rest - 4
    } else {
        0
    }
}

pub open spec fn strip_scheme(b: Seq<char>) -> Seq<char> {
    if starts_with(b, "http://"@) {
        b.skip(7)
    } else if starts_with(b, "https://"@) {
        b.skip(8)
    } else {
        b
    }
}

/// The host part shown in the chat prompt: the API base without trailing
/// slashes and without an `http://` / `https://` scheme.
pub open spec fn spec_api_host_for_prompt(api_base: Seq<char>) -> Seq<char> {
    strip_scheme(drop_back(api_base, CharClass::Exactly('/')))
}

pub fn api_host_for_prompt(api_base: &str) -> (r: String)
    ensures
        r@ == spec_api_host_for_prompt(api_base@),
{
    let v = chars_of(api_base);
    let b = trim_back(v.as_slice(), CharClass::Exactly('/'));
    let http = chars_of("http://");
    let https = chars_of("https://");
    proof {
        reveal_strlit("http://");
        reveal_strlit("https://");
    }
    if begins_with(b.as_slice(), http.as_slice()) {
        let r = copy_range(b.as_slice(), 7, b.len());
        assert(r@ =~= b@.skip(7));
        string_of(r.as_slice())
    } else if begins_with(b.as_slice(), https.as_slice()) {
        let r = copy_range(b.as_slice(), 8, b.len());
        assert(r@ =~= b@.skip(8));
        string_of(r.as_slice())
    } else {
        string_of(b.as_slice())
    }
}

/// `tail -n +1`: a chat subscribes to the whole document.
pub fn initial_chat_subscribe_tail() -> (t: TailMode)
    ensures
        t == TailMode::FromLine(1),
{
    TailMode::FromLine(1)
}

} // verus!

verus! {

/// What a line submitted in the chat input asks for.
#[derive(Clone, Debug, PartialEq, Eq)]
pub enum ChatSubmitAction {
    Ignore,
    Exit,
    Edit,
    /// Full-document `$EDITOR` flow; `None` = the current chat path.
    EditFullDocument { path: Option<String> },
    History,
    ChangeNick(String),
    Send(String),
}

/// `ChatSubmitAction` with its strings as character sequences.
pub enum ChatActionView {
    Ignore,
    Exit,
    Edit,
    EditFullDocument(Option<Seq<char>>),
    History,
    ChangeNick(Seq<char>),
    Send(Seq<char>),
}

pub open spec fn action_view(a: ChatSubmitAction) -> ChatActionView {
    match a {
        ChatSubmitAction::Ignore => ChatActionView::Ignore,
        ChatSubmitAction::Exit => ChatActionView::Exit,
        ChatSubmitAction::Edit => ChatActionView::Edit,
        ChatSubmitAction::EditFullDocument { path } => ChatActionView::EditFullDocument(
            match path {
                Some(p) => Some(p@),
                None => None,
            },
        ),
        ChatSubmitAction::History => ChatActionView::History,
        ChatSubmitAction::ChangeNick(n) => ChatActionView::ChangeNick(n@),
        ChatSubmitAction::Send(m) => ChatActionView::Send(m@),
    }
}

pub open spec fn action_result(r: Result<ChatSubmitAction, String>) -> Result<
    ChatActionView,
    Seq<char>,
> {
    match r {
        Ok(a) => Ok(action_view(a)),
        Err(e) => Err(e@),
    }
}

pub open spec fn lower(s: Seq<char>) -> Seq<char> {
    Seq::new(s.len(), |i: int| ascii_lower(s[i]))
}

/// The verb of a slash command: the text after `/` up to the first whitespace.
pub open spec fn slash_verb(rest: Seq<char>) -> Seq<char> {
    rest.take(rest.len() - drop_front(rest, CharClass::NonSpace).len())
}

/// The arguments of a slash command, trimmed.
pub open spec fn slash_args(rest: Seq<char>) -> Seq<char> {
    trim(drop_front(rest, CharClass::NonSpace))
}

pub open spec fn no_args_error(verb: Seq<char>) -> Seq<char> {
    "/"@ + verb + " does not take arguments"@
}

/// A slash command by lower-cased verb `v`, original verb `verb` and arguments `args`.
pub open spec fn spec_slash_command(v: Seq<char>, verb: Seq<char>, args: Seq<char>) -> Result<
    ChatActionView,
    Seq<char>,
> {
    let none = args.len() == 0;
    if v == "q"@ || v == "quit"@ || v == "exit"@ {
        if none {
            Ok(ChatActionView::Exit)
        } else {
            Err(no_args_error(verb))
        }
    } else if v == "e"@ || v == "edit"@ {
        if none {
            Ok(ChatActionView::Edit)
        } else {
            Err(no_args_error(verb))
        }
    } else if v == "d"@ || v == "doc"@ {
        if none {
            Ok(ChatActionView::EditFullDocument(None))
        } else {
            Ok(ChatActionView::EditFullDocument(Some(args)))
        }
    } else if v == "h"@ || v == "history"@ {
        if none {
            Ok(ChatActionView::History)
        } else {
            Err(no_args_error(verb))
        }
    } else if v == "nick"@ {
        if none {
            Err("/nick requires a nickname"@)
        } else {
            match speaker_id_error(args) {
                Some(e) => Err(e),
                None => Ok(ChatActionView::ChangeNick(args)),
            }
        }
    } else {
        Err("unknown chat command: /"@ + verb)
    }
}

/// What a submitted chat line asks for. Trailing line breaks are dropped; an
/// empty line is ignored; a multi-line message is sent as is; a single line
/// starting with `/` (after trimming) is a command; anything else is sent.
pub open spec fn spec_parse_chat_submit(message: Seq<char>) -> Result<ChatActionView, Seq<char>> {
    let m = drop_back(message, CharClass::LineBreak);
    if m.len() == 0 {
        Ok(ChatActionView::Ignore)
    } else if m.contains('\n') {
        Ok(ChatActionView::Send(m))
    } else {
        let command = trim(m);
        if starts_with(command, seq!['/']) {
            let rest = command.drop_first();
            let verb = slash_verb(rest);
            spec_slash_command(lower(verb), verb, slash_args(rest))
        } else {
            Ok(ChatActionView::Send(m))
        }
    }
}

pub fn lower_chars(v: &[char]) -> (r: Vec<char>)
    ensures
        r@ == lower(v@),
{
    let mut r: Vec<char> = Vec::new();
    let mut i: usize = 0;
    while i < v.len()
        invariant
            i <= v@.len(),
            r@ == lower(v@.subrange(0, i as int)),
        decreases v@.len() - i,
    {
        r.push(to_ascii_lower(v[i]));
        i = i + 1;
        assert(r@ =~= lower(v@.subrange(0, i as int)));
    }
    assert(v@.subrange(0, v@.len() as int) =~= v@);
    r
}

fn is_word(v: &[char], w: &str) -> (b: bool)
    ensures
        b == (v@ == w@),
{
    let wv = chars_of(w);
    crate::text::chars_eq(v, wv.as_slice())
}

fn no_args(verb: &[char]) -> (e: String)
    ensures
        e@ == no_args_error(verb@),
{
    let mut e = owned("/");
    e.append(string_of(verb).as_str());
    e.append(" does not take arguments");
    e
}

fn slash_command(v: &[char], verb: &[char], args: &[char]) -> (r: Result<ChatSubmitAction, String>)
    ensures
        action_result(r) == spec_slash_command(v@, verb@, args@),
{
    let none = args.len() == 0;
    if is_word(v, "q") || is_word(v, "quit") || is_word(v, "exit") {
        if none {
            Ok(ChatSubmitAction::Exit)
        } else {
            Err(no_args(verb))
        }
    } else if is_word(v, "e") || is_word(v, "edit") {
        if none {
            Ok(ChatSubmitAction::Edit)
        } else {
            Err(no_args(verb))
        }
    } else if is_word(v, "d") || is_word(v, "doc") {
        if none {
            Ok(ChatSubmitAction::EditFullDocument { path: None })
        } else {
            Ok(ChatSubmitAction::EditFullDocument { path: Some(string_of(args)) })
        }
    } else if is_word(v, "h") || is_word(v, "history") {
        if none {
            Ok(ChatSubmitAction::History)
        } else {
            Err(no_args(verb))
        }
    } else if is_word(v, "nick") {
        if none {
            Err(owned("/nick requires a nickname"))
        } else {
            let a = string_of(args);
            match validate_chat_speaker_id(a.as_str()) {
                Err(e) => Err(e),
                Ok(()) => Ok(ChatSubmitAction::ChangeNick(a)),
            }
        }
    } else {
        let mut e = owned("unknown chat command: /");
        e.append(string_of(verb).as_str());
        Err(e)
    }
}

/// Parses a line submitted in the chat input (see `spec_parse_chat_submit`).
pub fn parse_chat_submit(message: &str) -> (r: Result<ChatSubmitAction, String>)
    ensures
        action_result(r) == spec_parse_chat_submit(message@),
{
    let mv = chars_of(message);
    let m = trim_back(mv.as_slice(), CharClass::LineBreak);
    if m.len() == 0 {
        return Ok(ChatSubmitAction::Ignore);
    }
    if crate::text::has_char(m.as_slice(), '\n') {
        return Ok(ChatSubmitAction::Send(string_of(m.as_slice())));
    }
    let command = trim_ws(m.as_slice());
    let slash = ['/'];
    assert(slash@ =~= seq!['/']);
    if begins_with(command.as_slice(), &slash) {
        let rest = copy_range(command.as_slice(), 1, command.len());
        assert(rest@ =~= command@.drop_first());
        let after = trim_front(rest.as_slice(), CharClass::NonSpace);
        let verb = copy_range(rest.as_slice(), 0, rest.len() - after.len());
        let args = trim_ws(after.as_slice());
        let v = lower_chars(verb.as_slice());
        slash_command(v.as_slice(), verb.as_slice(), args.as_slice())
    } else {
        Ok(ChatSubmitAction::Send(string_of(m.as_slice())))
    }
}

} // verus!
