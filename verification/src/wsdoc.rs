//! The document WebSocket: what a subscriber is sent when the document changes,
//! and the per-frame rules for its requests.

use vstd::prelude::*;
use crate::commands::TailMode;
use crate::text::{chars_of, owned, starts_with, string_of};

verus! {

/// What a subscriber is sent after the document changed.
pub enum DocChange {
    /// Nothing new to send.
    Unchanged,
    /// The text was only extended: send what was added.
    Append(String),
    /// Anything else: send the subscribed view of the whole text again.
    Reset,
}

pub open spec fn spec_doc_change(last: Seq<char>, new: Seq<char>) -> (int, Seq<char>) {
    if starts_with(new, last) {
        if new.len() == last.len() {
            (0, seq![])
        } else {
            (1, new.skip(last.len() as int))
        }
    } else {
        (2, seq![])
    }
}

pub open spec fn change_view(c: DocChange) -> (int, Seq<char>) {
    match c {
        DocChange::Unchanged => (0, seq![]),
        DocChange::Append(s) => (1, s@),
        DocChange::Reset => (2, seq![]),
    }
}

/// Compares the text a subscriber last saw with the document's new text.
pub fn doc_change(last_full: &str, new_full: &str) -> (c: DocChange)
    ensures
        change_view(c) == spec_doc_change(last_full@, new_full@),
{
    let a = chars_of(last_full);
    let b = chars_of(new_full);
    if crate::text::begins_with(b.as_slice(), a.as_slice()) {
        if b.len() == a.len() {
            DocChange::Unchanged
        } else {
            let s = crate::text::copy_range(b.as_slice(), a.len(), b.len());
            assert(s@ =~= b@.skip(a@.len() as int));
            DocChange::Append(string_of(s.as_slice()))
        }
    } else {
        DocChange::Reset
    }
}

/// An appended suffix rebuilds the new text from the last one, and a text
/// that did not change sends nothing.
pub proof fn law_append_rebuilds_document(last: Seq<char>, new: Seq<char>)
    ensures
        spec_doc_change(last, new).0 == 1 ==> last + spec_doc_change(last, new).1 == new,
        spec_doc_change(last, new).0 == 0 ==> new == last,
        spec_doc_change(last, new).0 == 2 ==> !starts_with(new, last),
{
    if starts_with(new, last) {
        assert(new.subrange(0, last.len() as int) == last);
        assert(last + new.skip(last.len() as int) =~= new);
        if new.len() == last.len() {
            assert(new =~= last);
        }
    }
}

/// `subscribe`'s `lines` as the message reader gives it: an unsigned number or
/// a string (any other JSON shape is refused by the reader itself).
pub enum LinesWire {
    Num(u64),
    Text(String),
}

/// `subscribe`'s `lines`: a number is a count of last lines (at most
/// `u32::MAX`), a string must be `+N`.
pub open spec fn spec_subscribe_lines(w: LinesWire) -> Result<TailMode, Seq<char>> {
    match w {
        LinesWire::Num(u) => if u <= u32::MAX {
            Ok(TailMode::Last(u as u32))
        } else {
            Err("lines: number out of range"@)
        },
        LinesWire::Text(s) => match crate::numbers::spec_plus_wire(s@) {
            Some(k) => Ok(TailMode::FromLine(k)),
            None => Err(crate::numbers::plus_wire_error()),
        },
    }
}

pub fn subscribe_lines(w: &LinesWire) -> (r: Result<TailMode, String>)
    ensures
        match r {
            Ok(t) => spec_subscribe_lines(*w) == Ok::<TailMode, Seq<char>>(t),
            Err(e) => spec_subscribe_lines(*w) == Err::<TailMode, Seq<char>>(e@),
        },
{
    match w {
        LinesWire::Num(u) => if *u <= 4294967295u64 {
            Ok(TailMode::Last(*u as u32))
        } else {
            Err(owned("lines: number out of range"))
        },
        LinesWire::Text(s) => crate::numbers::parse_plus_wire(s.as_str()),
    }
}

/// `unsubscribe`: whether it ends the active subscription (the requested path,
/// normalized, is the subscribed one); an invalid path is an error message.
pub open spec fn spec_unsubscribe(active: Option<Seq<char>>, requested: Seq<char>) -> Result<bool, Seq<char>> {
    match crate::paths::spec_normalize_path(requested) {
        Err(e) => Err(e),
        Ok(p) => Ok(active == Some(p)),
    }
}

pub fn unsubscribe_ends(active: Option<&str>, requested: &str) -> (r: Result<bool, String>)
    ensures
        match r {
            Ok(b) => spec_unsubscribe(crate::shell_path::opt_view(active), requested@) == Ok::<
                bool,
                Seq<char>,
            >(b),
            Err(e) => spec_unsubscribe(crate::shell_path::opt_view(active), requested@) == Err::<
                bool,
                Seq<char>,
            >(e@),
        },
{
    match crate::paths::normalize_path(requested) {
        Err(e) => Err(e),
        Ok(p) => match active {
            Some(a) => Ok(crate::text::chars_eq(chars_of(a).as_slice(), chars_of(p.as_str()).as_slice())),
            None => Ok(false),
        },
    }
}

} // verus!
