//! `mv`: where a document or directory goes, and which repository operation
//! moves it there.

use vstd::prelude::*;
use crate::listing::{normalize_mv_segment, spec_join_abs_dir_entry, join_abs_dir_entry};
use crate::paths::{normalize_path, spec_normalize_path};
use crate::rpc::{parent_and_final_name, spec_parent_and_final_name};
use crate::shell_path::slash;
use crate::text::{chars_of, drop_back, string_of, trim, trim_ws};

verus! {

/// A source path as `mv` reads it: trailing `/` dropped, then normalized.
pub open spec fn spec_mv_source(src: Seq<char>) -> Result<Seq<char>, Seq<char>> {
    spec_normalize_path(drop_back(src, slash()))
}

pub fn mv_source(src: &str) -> (r: Result<String, String>)
    ensures
        crate::paths::string_result(r) == spec_mv_source(src@),
{
    normalize_path(normalize_mv_segment(src))
}

/// What the destination argument of `mv` may mean: the path itself, or the
/// source's name inside it; `into` when it ends with `/` (then only the
/// second).
pub struct MvTarget {
    pub dst: String,
    pub inside: String,
    pub into: bool,
}

/// `Ok((dst, inside, into))` for the destination argument and a normalized
/// source, or why either cannot be read.
pub open spec fn spec_mv_target(src: Seq<char>, dst_user: Seq<char>) -> Result<
    (Seq<char>, Seq<char>, bool),
    Seq<char>,
> {
    let t = trim(dst_user);
    let into = t.len() > 0 && t.last() == '/';
    match spec_normalize_path(drop_back(t, slash())) {
        Err(e) => Err(e),
        Ok(dst) => match spec_parent_and_final_name(src) {
            Err(e) => Err(e),
            Ok((_, base)) => Ok((dst, spec_join_abs_dir_entry(dst, base), into)),
        },
    }
}

pub fn mv_target(src: &str, dst_user: &str) -> (r: Result<MvTarget, String>)
    ensures
        match r {
            Ok(t) => spec_mv_target(src@, dst_user@) == Ok::<(Seq<char>, Seq<char>, bool), Seq<char>>(
                (t.dst@, t.inside@, t.into),
            ),
            Err(e) => spec_mv_target(src@, dst_user@) == Err::<(Seq<char>, Seq<char>, bool), Seq<char>>(
                e@,
            ),
        },
{
    let tv = trim_ws(chars_of(dst_user).as_slice());
    let into = tv.len() > 0 && tv[tv.len() - 1] == '/';
    let ts = string_of(tv.as_slice());
    let dst = match normalize_path(normalize_mv_segment(ts.as_str())) {
        Err(e) => {
            return Err(e);
        },
        Ok(d) => d,
    };
    match parent_and_final_name(src) {
        Err(e) => Err(e.message()),
        Ok((_, base)) => {
            let inside = join_abs_dir_entry(dst.as_str(), base.as_str());
            Ok(MvTarget { dst, inside, into })
        },
    }
}

/// The path `mv` moves to: inside the destination when the argument ended
/// with `/`; otherwise the destination itself when a document is there,
/// inside it when it is a directory, and the destination path when nothing
/// is there yet.
pub open spec fn spec_mv_destination(t: (Seq<char>, Seq<char>, bool), dst_is_document: bool, dst_is_directory: bool) -> Seq<char> {
    if t.2 {
        t.1
    } else if dst_is_document {
        t.0
    } else if dst_is_directory {
        t.1
    } else {
        t.0
    }
}

pub fn mv_destination(t: &MvTarget, dst_is_document: bool, dst_is_directory: bool) -> (r: String)
    ensures
        r@ == spec_mv_destination((t.dst@, t.inside@, t.into), dst_is_document, dst_is_directory),
{
    if t.into {
        string_of(chars_of(t.inside.as_str()).as_slice())
    } else if dst_is_document {
        string_of(chars_of(t.dst.as_str()).as_slice())
    } else if dst_is_directory {
        string_of(chars_of(t.inside.as_str()).as_slice())
    } else {
        string_of(chars_of(t.dst.as_str()).as_slice())
    }
}

/// The repository operation that carries out a move.
pub enum MvAction {
    /// Move (or rename) the document to the destination path.
    MoveDocument,
    /// Rename the directory in place (same parent).
    RenameDirectory,
    /// Move the directory under `parent` with the name `name`.
    MoveDirectory { parent: String, name: String },
}

/// A document moves as it is; a directory is renamed when it stays under the
/// same parent, else moved under the destination's parent.
pub open spec fn spec_mv_action(src: Seq<char>, dst: Seq<char>, src_is_document: bool) -> Result<
    Option<(Seq<char>, Seq<char>)>,
    Seq<char>,
> {
    if src_is_document {
        Ok(None)
    } else {
        match spec_parent_and_final_name(src) {
            Err(e) => Err(e),
            Ok((sp, _)) => match spec_parent_and_final_name(dst) {
                Err(e) => Err(e),
                Ok((dp, dn)) => if sp == dp {
                    Ok(None)
                } else {
                    Ok(Some((dp, dn)))
                },
            },
        }
    }
}

pub fn mv_action(src: &str, dst: &str, src_is_document: bool) -> (r: Result<MvAction, String>)
    ensures
        match r {
            Ok(MvAction::MoveDocument) => src_is_document,
            Ok(MvAction::RenameDirectory) => !src_is_document && spec_mv_action(src@, dst@, false)
                == Ok::<Option<(Seq<char>, Seq<char>)>, Seq<char>>(None),
            Ok(MvAction::MoveDirectory { parent, name }) => !src_is_document && spec_mv_action(
                src@,
                dst@,
                false,
            ) == Ok::<Option<(Seq<char>, Seq<char>)>, Seq<char>>(Some((parent@, name@))),
            Err(e) => !src_is_document && spec_mv_action(src@, dst@, false) == Err::<
                Option<(Seq<char>, Seq<char>)>,
                Seq<char>,
            >(e@),
        },
{
    if src_is_document {
        return Ok(MvAction::MoveDocument);
    }
    let sp = match parent_and_final_name(src) {
        Err(e) => {
            return Err(e.message());
        },
        Ok((p, _)) => p,
    };
    match parent_and_final_name(dst) {
        Err(e) => Err(e.message()),
        Ok((dp, dn)) => {
            if crate::text::chars_eq(chars_of(sp.as_str()).as_slice(), chars_of(dp.as_str()).as_slice()) {
                Ok(MvAction::RenameDirectory)
            } else {
                Ok(MvAction::MoveDirectory { parent: dp, name: dn })
            }
        },
    }
}

} // verus!
