//! The chat session around the transcript: applying server frames, the keys
//! of the chat window, its layout, and the plain-terminal chat loop's output.

use vstd::prelude::*;
use crate::text::{chars_of, dec, dec_chars, owned, string_of};

verus! {

/// A frame from the document WebSocket.
pub enum WsMessage {
    Append { data: Option<String> },
    Reset { data: Option<String> },
    Error { message: Option<String> },
    Unknown { op: String },
}

/// The transcript after a frame, or the error the frame reports.
pub open spec fn spec_apply_ws(t: Seq<char>, msg: WsMessage) -> Result<Seq<char>, Seq<char>> {
    match msg {
        WsMessage::Append { data: Some(d) } => Ok(t + d@),
        WsMessage::Reset { data: Some(d) } => Ok(d@),
        WsMessage::Append { data: None } => Ok(t),
        WsMessage::Reset { data: None } => Ok(t),
        WsMessage::Error { message: Some(m) } => Err(m@),
        WsMessage::Error { message: None } => Err("unknown error"@),
        WsMessage::Unknown { op } => Err("unexpected ws op: "@ + op@),
    }
}

/// Applies a WebSocket frame to the chat transcript.
pub fn apply_ws_to_transcript(transcript: &mut String, msg: &WsMessage) -> (r: Result<(), String>)
    ensures
        match spec_apply_ws(old(transcript)@, *msg) {
            Ok(t) => r is Ok && final(transcript)@ == t,
            Err(e) => r matches Err(m) && m@ == e && final(transcript)@ == old(transcript)@,
        },
{
    match msg {
        WsMessage::Append { data: Some(d) } => {
            crate::preview::push_all(transcript, chars_of(d.as_str()).as_slice());
            Ok(())
        },
        WsMessage::Reset { data: Some(d) } => {
            *transcript = string_of(chars_of(d.as_str()).as_slice());
            Ok(())
        },
        WsMessage::Append { data: None } => Ok(()),
        WsMessage::Reset { data: None } => Ok(()),
        WsMessage::Error { message: Some(m) } => Err(string_of(chars_of(m.as_str()).as_slice())),
        WsMessage::Error { message: None } => Err(owned("unknown error")),
        WsMessage::Unknown { op } => {
            let mut v = chars_of("unexpected ws op: ");
            crate::text::append_chars(&mut v, chars_of(op.as_str()).as_slice());
            Err(string_of(v.as_slice()))
        },
    }
}

/// A key of the chat window.
pub enum KeyCode {
    Char(char),
    Enter,
    Esc,
    PageUp,
    PageDown,
    Up,
    Down,
    Other,
}

/// A key event: its code, modifiers, and whether it is a release.
pub struct Key {
    pub code: KeyCode,
    pub ctrl: bool,
    pub alt: bool,
    pub shift: bool,
    /// Any other modifier (super, hyper, meta).
    pub other_modifier: bool,
    pub release: bool,
}

/// What a key does in the chat window.
pub enum KeyAction {
    Ignore,
    PinBottom,
    PageUp,
    PageDown,
    Interrupt,
    /// Ctrl-D: leaves on an empty message, else goes to the editor box.
    EndOrInput,
    OpenEditor,
    Submit,
    Newline,
    Input,
}

pub open spec fn ctrl_char(k: Key, lower: char, upper: char) -> bool {
    (k.code == KeyCode::Char(lower) || k.code == KeyCode::Char(upper)) && k.ctrl
}

pub open spec fn spec_key_action(k: Key, pinned_bottom: bool) -> KeyAction {
    let scroll_up = k.code == KeyCode::PageUp || (k.code == KeyCode::Up && k.shift) || (ctrl_char(
        k,
        'b',
        'B',
    ) && !k.alt);
    let scroll_down = k.code == KeyCode::PageDown || (k.code == KeyCode::Down && k.shift) || (
    ctrl_char(k, 'f', 'F') && !k.alt);
    let no_mods = !k.ctrl && !k.alt && !k.shift && !k.other_modifier;
    if k.release {
        KeyAction::Ignore
    } else if k.code == KeyCode::Esc && !pinned_bottom {
        KeyAction::PinBottom
    } else if scroll_up {
        KeyAction::PageUp
    } else if scroll_down {
        KeyAction::PageDown
    } else if ctrl_char(k, 'c', 'C') {
        KeyAction::Interrupt
    } else if ctrl_char(k, 'd', 'D') {
        KeyAction::EndOrInput
    } else if ctrl_char(k, 'e', 'E') && !k.alt {
        KeyAction::OpenEditor
    } else if k.code == KeyCode::Enter && no_mods {
        KeyAction::Submit
    } else if (k.code == KeyCode::Enter && k.shift) || (ctrl_char(k, 'o', 'O') && !k.alt) {
        KeyAction::Newline
    } else {
        KeyAction::Input
    }
}

fn is_char(k: &Key, lower: char, upper: char) -> (b: bool)
    ensures
        b == (k.code == KeyCode::Char(lower) || k.code == KeyCode::Char(upper)),
{
    match k.code {
        KeyCode::Char(c) => c == lower || c == upper,
        _ => false,
    }
}

fn is_code(k: &Key, which: u8) -> (b: bool)
    ensures
        which == 0 ==> b == (k.code == KeyCode::Enter),
        which == 1 ==> b == (k.code == KeyCode::Esc),
        which == 2 ==> b == (k.code == KeyCode::PageUp),
        which == 3 ==> b == (k.code == KeyCode::PageDown),
        which == 4 ==> b == (k.code == KeyCode::Up),
        which == 5 ==> b == (k.code == KeyCode::Down),
{
    match k.code {
        KeyCode::Enter => which == 0,
        KeyCode::Esc => which == 1,
        KeyCode::PageUp => which == 2,
        KeyCode::PageDown => which == 3,
        KeyCode::Up => which == 4,
        KeyCode::Down => which == 5,
        _ => false,
    }
}

/// Decides what a key does, given whether the transcript follows its end.
pub fn chat_key_action(k: &Key, pinned_bottom: bool) -> (a: KeyAction)
    ensures
        a == spec_key_action(*k, pinned_bottom),
{
    let scroll_up = is_code(k, 2) || (is_code(k, 4) && k.shift) || (is_char(k, 'b', 'B') && k.ctrl
        && !k.alt);
    let scroll_down = is_code(k, 3) || (is_code(k, 5) && k.shift) || (is_char(k, 'f', 'F')
        && k.ctrl && !k.alt);
    let no_mods = !k.ctrl && !k.alt && !k.shift && !k.other_modifier;
    if k.release {
        KeyAction::Ignore
    } else if is_code(k, 1) && !pinned_bottom {
        KeyAction::PinBottom
    } else if scroll_up {
        KeyAction::PageUp
    } else if scroll_down {
        KeyAction::PageDown
    } else if is_char(k, 'c', 'C') && k.ctrl {
        KeyAction::Interrupt
    } else if is_char(k, 'd', 'D') && k.ctrl {
        KeyAction::EndOrInput
    } else if is_char(k, 'e', 'E') && k.ctrl && !k.alt {
        KeyAction::OpenEditor
    } else if is_code(k, 0) && no_mods {
        KeyAction::Submit
    } else if (is_code(k, 0) && k.shift) || (is_char(k, 'o', 'O') && k.ctrl && !k.alt) {
        KeyAction::Newline
    } else {
        KeyAction::Input
    }
}

/// Rows of a terminal `rows` high left for the transcript, above an input box
/// of `input_lines` lines, the prompt banner and an optional status line.
pub open spec fn spec_viewport_height(rows: nat, input_lines: nat, status: bool) -> nat {
    let cap = if rows >= 4 {
        (rows - 4) as nat
    } else {
        0
    };
    let ih = if input_lines < 1 {
        1
    } else {
        input_lines
    };
    let input_h = if ih < cap {
        ih
    } else {
        cap
    };
    let used = input_h + 1 + (if status {
        1nat
    } else {
        0
    }) + 1;
    let h = if rows >= used {
        (rows - used) as nat
    } else {
        0
    };
    if h < 1 {
        1
    } else {
        h
    }
}

pub fn viewport_height(rows: u16, input_lines: usize, status: bool) -> (h: usize)
    ensures
        h == spec_viewport_height(rows as nat, input_lines as nat, status),
{
    let r = rows as usize;
    let cap = if r >= 4 {
        r - 4
    } else {
        0
    };
    let ih = if input_lines < 1 {
        1
    } else {
        input_lines
    };
    let input_h = if ih < cap {
        ih
    } else {
        cap
    };
    let used = input_h + 1 + (if status {
        1
    } else {
        0
    }) + 1;
    let h = if r >= used {
        r - used
    } else {
        0
    };
    if h < 1 {
        1
    } else {
        h
    }
}

/// The rows of the transcript shown from `off`: at most `vis_h` of them.
pub open spec fn spec_window(rows_len: nat, off: nat, vis_h: nat) -> Option<(nat, nat)> {
    let end = if off + vis_h < rows_len {
        off + vis_h
    } else {
        rows_len
    };
    if off < rows_len && off < end {
        Some((off, end as nat))
    } else {
        None
    }
}

pub fn transcript_window(rows_len: usize, off: usize, vis_h: usize) -> (r: Option<(usize, usize)>)
    requires
        off + vis_h <= usize::MAX,
    ensures
        match r {
            Some((a, b)) => spec_window(rows_len as nat, off as nat, vis_h as nat) == Some(
                (a as nat, b as nat),
            ),
            None => spec_window(rows_len as nat, off as nat, vis_h as nat) is None,
        },
{
    let end = if off + vis_h < rows_len {
        off + vis_h
    } else {
        rows_len
    };
    if off < rows_len && off < end {
        Some((off, end))
    } else {
        None
    }
}

/// The scroll indicator `k/n` (row shown first, of at least one) right-aligned
/// in `width` columns: the padding and the label.
pub open spec fn spec_scroll_label(off: nat, rows_len: nat, width: nat) -> (nat, Seq<char>) {
    let total = if rows_len < 1 {
        1
    } else {
        rows_len
    };
    let first = if off + 1 < total {
        off + 1
    } else {
        total
    };
    let label = dec(first) + seq!['/'] + dec(total);
    (if width > label.len() {
        (width - label.len()) as nat
    } else {
        0
    }, label)
}

pub fn scroll_label(off: usize, rows_len: usize, width: usize) -> (r: (usize, String))
    ensures
        (r.0 as nat, r.1@) == spec_scroll_label(off as nat, rows_len as nat, width as nat),
{
    let total = if rows_len < 1 {
        1
    } else {
        rows_len
    };
    let first = if off < total - 1 {
        off + 1
    } else {
        total
    };
    let mut label = dec_chars(first as u64);
    label.push('/');
    crate::text::append_chars(&mut label, dec_chars(total as u64).as_slice());
    assert(label@ =~= dec(first as nat) + seq!['/'] + dec(total as nat));
    let n = label.len();
    let pad = if width > n {
        width - n
    } else {
        0
    };
    (pad, string_of(label.as_slice()))
}

/// What the plain-terminal chat prints for a frame: the resync banner, the
/// data, and a newline after reset data that does not end in one.
pub struct TailPrint {
    pub banner: bool,
    pub data: Option<String>,
    pub newline_after: bool,
}

pub open spec fn spec_tail_print(msg: WsMessage, suppress_banner: bool) -> Result<
    (bool, Option<Seq<char>>, bool),
    Seq<char>,
> {
    match msg {
        WsMessage::Append { data: Some(d) } => Ok((false, Some(d@), false)),
        WsMessage::Reset { data: Some(d) } => Ok(
            (!suppress_banner, Some(d@), d@.len() > 0 && d@.last() != '\n'),
        ),
        WsMessage::Append { data: None } => Ok((false, None, false)),
        WsMessage::Reset { data: None } => Ok((false, None, false)),
        WsMessage::Error { message: Some(m) } => Err(m@),
        WsMessage::Error { message: None } => Err("unknown error"@),
        WsMessage::Unknown { op } => Err("unexpected ws op: "@ + op@),
    }
}

pub fn tail_print(msg: &WsMessage, suppress_banner: bool) -> (r: Result<TailPrint, String>)
    ensures
        match r {
            Ok(p) => spec_tail_print(*msg, suppress_banner) == Ok::<
                (bool, Option<Seq<char>>, bool),
                Seq<char>,
            >((p.banner, crate::listing::opt_str_view(p.data), p.newline_after)),
            Err(e) => spec_tail_print(*msg, suppress_banner) == Err::<
                (bool, Option<Seq<char>>, bool),
                Seq<char>,
            >(e@),
        },
{
    match msg {
        WsMessage::Append { data: Some(d) } => Ok(
            TailPrint {
                banner: false,
                data: Some(string_of(chars_of(d.as_str()).as_slice())),
                newline_after: false,
            },
        ),
        WsMessage::Reset { data: Some(d) } => {
            let v = chars_of(d.as_str());
            let nl = v.len() > 0 && v[v.len() - 1] != '\n';
            Ok(TailPrint { banner: !suppress_banner, data: Some(string_of(v.as_slice())), newline_after: nl })
        },
        WsMessage::Append { data: None } => Ok(
            TailPrint { banner: false, data: None, newline_after: false },
        ),
        WsMessage::Reset { data: None } => Ok(
            TailPrint { banner: false, data: None, newline_after: false },
        ),
        WsMessage::Error { message: Some(m) } => Err(string_of(chars_of(m.as_str()).as_slice())),
        WsMessage::Error { message: None } => Err(owned("unknown error")),
        WsMessage::Unknown { op } => {
            let mut v = chars_of("unexpected ws op: ");
            crate::text::append_chars(&mut v, chars_of(op.as_str()).as_slice());
            Err(string_of(v.as_slice()))
        },
    }
}

/// Whether the first frame of a plain-terminal chat carries text (then a blank
/// line is printed before it).
pub fn first_frame_nonempty(msg: &WsMessage) -> (b: bool)
    ensures
        b == (match *msg {
            WsMessage::Append { data: Some(d) } => d@.len() > 0,
            WsMessage::Reset { data: Some(d) } => d@.len() > 0,
            _ => false,
        }),
{
    match msg {
        WsMessage::Append { data: Some(d) } => d.as_str().unicode_len() > 0,
        WsMessage::Reset { data: Some(d) } => d.as_str().unicode_len() > 0,
        _ => false,
    }
}

/// The plain-terminal chat prompt: `tb host path nickname → `.
pub open spec fn spec_chat_line_prompt(host: Seq<char>, path: Seq<char>, nickname: Seq<char>) -> Seq<char> {
    "tb "@ + host + seq![' '] + path + seq![' '] + nickname + " → "@
}

pub fn chat_line_prompt(host: &str, path: &str, nickname: &str) -> (r: String)
    ensures
        r@ == spec_chat_line_prompt(host@, path@, nickname@),
{
    let mut v = chars_of("tb ");
    crate::text::append_chars(&mut v, chars_of(host).as_slice());
    v.push(' ');
    crate::text::append_chars(&mut v, chars_of(path).as_slice());
    v.push(' ');
    crate::text::append_chars(&mut v, chars_of(nickname).as_slice());
    crate::text::append_chars(&mut v, chars_of(" → ").as_slice());
    string_of(v.as_slice())
}

} // verus!
