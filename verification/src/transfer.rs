//! `import` and `export` between a local directory tree and the repository:
//! what each local entry becomes, which directories must exist first, and the
//! report lines.

use vstd::prelude::*;
use crate::paths::entity_name_error;
use crate::text::{
    append_chars, chars_of, join_with, owned, pieces, pieces_of, string_of, trim, trim_ws, views,
};

verus! {

/// The label of an entry in the import report: its path below the import root.
pub open spec fn spec_import_label(rel_label: Seq<char>, fname: Seq<char>) -> Seq<char> {
    if rel_label.len() == 0 {
        fname
    } else {
        rel_label.push('/') + fname
    }
}

pub fn import_label(rel_label: &str, fname: &str) -> (r: String)
    ensures
        r@ == spec_import_label(rel_label@, fname@),
{
    let r = chars_of(rel_label);
    if r.len() == 0 {
        return string_of(chars_of(fname).as_slice());
    }
    let mut v = r;
    v.push('/');
    append_chars(&mut v, chars_of(fname).as_slice());
    string_of(v.as_slice())
}

/// What one local entry becomes.
pub enum ImportEntry {
    /// Not imported; the report line says why.
    Skipped { line: String },
    /// A directory: created at `tb_path` and imported recursively.
    Directory { tb_path: String, label: String },
    /// A file: stored at `tb_path` once `parent` exists.
    File { tb_path: String, parent: String, label: String },
    /// Neither a file nor a directory: ignored.
    Other,
}

pub enum EntryView {
    Skipped(Seq<char>),
    Directory(Seq<char>, Seq<char>),
    File(Seq<char>, Seq<char>, Seq<char>),
    Other,
}

pub open spec fn entry_view(e: ImportEntry) -> EntryView {
    match e {
        ImportEntry::Skipped { line } => EntryView::Skipped(line@),
        ImportEntry::Directory { tb_path, label } => EntryView::Directory(tb_path@, label@),
        ImportEntry::File { tb_path, parent, label } => EntryView::File(tb_path@, parent@, label@),
        ImportEntry::Other => EntryView::Other,
    }
}

/// A local directory or file with a valid entity name goes under
/// `server_prefix`; one with an invalid name is skipped with the reason.
pub open spec fn spec_import_entry(
    server_prefix: Seq<char>,
    rel_label: Seq<char>,
    fname: Seq<char>,
    is_dir: bool,
    is_file: bool,
) -> Result<EntryView, Seq<char>> {
    let label = spec_import_label(rel_label, fname);
    if !is_dir && !is_file {
        Ok(EntryView::Other)
    } else {
        match entity_name_error(fname) {
            Some(reason) => Ok(EntryView::Skipped(label + " - SKIPPED: "@ + reason)),
            None => {
                let tb = crate::listing::spec_join_abs_dir_entry(server_prefix, fname);
                if is_dir {
                    Ok(EntryView::Directory(tb, label))
                } else {
                    match crate::rpc::spec_parent_and_final_name(tb) {
                        Ok((parent, _)) => Ok(EntryView::File(tb, parent, label)),
                        Err(e) => Err(e),
                    }
                }
            },
        }
    }
}

pub fn import_entry(
    server_prefix: &str,
    rel_label: &str,
    fname: &str,
    is_dir: bool,
    is_file: bool,
) -> (r: Result<ImportEntry, String>)
    ensures
        match r {
            Ok(e) => spec_import_entry(server_prefix@, rel_label@, fname@, is_dir, is_file) == Ok::<
                EntryView,
                Seq<char>,
            >(entry_view(e)),
            Err(m) => spec_import_entry(server_prefix@, rel_label@, fname@, is_dir, is_file)
                == Err::<EntryView, Seq<char>>(m@),
        },
{
    let label = import_label(rel_label, fname);
    if !is_dir && !is_file {
        return Ok(ImportEntry::Other);
    }
    match crate::paths::check_entity_name(chars_of(fname).as_slice()) {
        Err(reason) => {
            let mut v = chars_of(label.as_str());
            append_chars(&mut v, chars_of(" - SKIPPED: ").as_slice());
            append_chars(&mut v, chars_of(reason.as_str()).as_slice());
            Ok(ImportEntry::Skipped { line: string_of(v.as_slice()) })
        },
        Ok(()) => {
            let tb = crate::listing::join_abs_dir_entry(server_prefix, fname);
            if is_dir {
                Ok(ImportEntry::Directory { tb_path: tb, label })
            } else {
                match crate::rpc::parent_and_final_name(tb.as_str()) {
                    Ok((parent, _)) => Ok(ImportEntry::File { tb_path: tb, parent, label }),
                    Err(e) => Err(e.message()),
                }
            }
        },
    }
}

/// The directories to make sure of, outermost first, for a canonical path:
/// `/a`, `/a/b`, ... for `/a/b/...`.
pub open spec fn spec_dir_prefixes(path: Seq<char>) -> Seq<Seq<char>> {
    let segs = pieces(path);
    Seq::new(segs.len(), |i: int| seq!['/'] + join_with(segs.take(i + 1), '/'))
}

pub fn directory_prefixes(path: &str) -> (r: Vec<String>)
    ensures
        crate::completion::string_views(r@) == spec_dir_prefixes(path@),
{
    let segs = pieces_of(chars_of(path).as_slice());
    let ghost sv = views(segs@);
    let mut acc: Vec<char> = Vec::new();
    acc.push('/');
    let mut out: Vec<String> = Vec::new();
    let mut i: usize = 0;
    while i < segs.len()
        invariant
            i <= segs@.len(),
            sv == views(segs@),
            sv == pieces(path@),
            i > 0 ==> acc@ == seq!['/'] + join_with(sv.take(i as int), '/'),
            i == 0 ==> acc@ == seq!['/'],
            out@.len() == i,
            forall|k: int| 0 <= k < i ==> (#[trigger] out@[k])@ == seq!['/'] + join_with(sv.take(k + 1), '/'),
        decreases segs@.len() - i,
    {
        if i > 0 {
            acc.push('/');
        }
        append_chars(&mut acc, segs[i].as_slice());
        proof {
            assert(sv[i as int] == segs@[i as int]@);
            assert(sv.take(i + 1).drop_last() =~= sv.take(i as int));
            assert(sv.take(i + 1).last() == sv[i as int]);
            if i == 0 {
                assert(sv.take(1) =~= seq![sv[0]]);
            }
            assert(acc@ =~= seq!['/'] + join_with(sv.take(i + 1), '/'));
        }
        out.push(string_of(acc.as_slice()));
        i = i + 1;
    }
    assert(crate::completion::string_views(out@) =~= spec_dir_prefixes(path@));
    out
}

/// `import --name` applies to a single file only, and must not be blank.
pub open spec fn spec_rename_check(rename_to: Option<Seq<char>>, source_is_file: bool) -> Option<Seq<char>> {
    match rename_to {
        None => None,
        Some(n) => if trim(n).len() == 0 {
            Some("import: --name must not be empty"@)
        } else if !source_is_file {
            Some("import: --name is only valid when importing a single file"@)
        } else {
            None
        },
    }
}

pub fn import_rename_check(rename_to: Option<&str>, source_is_file: bool) -> (r: Result<(), String>)
    ensures
        crate::paths::unit_result(r) == spec_rename_check(crate::shell_path::opt_view(rename_to), source_is_file),
{
    match rename_to {
        None => Ok(()),
        Some(n) => {
            if trim_ws(chars_of(n).as_slice()).len() == 0 {
                Err(owned("import: --name must not be empty"))
            } else if !source_is_file {
                Err(owned("import: --name is only valid when importing a single file"))
            } else {
                Ok(())
            }
        },
    }
}

/// A line of the import or export report: `label - OK` or `label - KIND: detail`.
pub open spec fn spec_report_line(label: Seq<char>, kind: Seq<char>, detail: Seq<char>) -> Seq<char> {
    if kind == "OK"@ {
        label + " - OK"@
    } else {
        label + " - "@ + kind + ": "@ + detail
    }
}

pub fn report_line(label: &str, kind: &str, detail: &str) -> (r: String)
    ensures
        r@ == spec_report_line(label@, kind@, detail@),
{
    let mut v = chars_of(label);
    if crate::text::is_word(chars_of(kind).as_slice(), "OK") {
        append_chars(&mut v, chars_of(" - OK").as_slice());
    } else {
        append_chars(&mut v, chars_of(" - ").as_slice());
        append_chars(&mut v, chars_of(kind).as_slice());
        append_chars(&mut v, chars_of(": ").as_slice());
        append_chars(&mut v, chars_of(detail).as_slice());
    }
    string_of(v.as_slice())
}

/// What one repository entry becomes on export.
pub enum ExportEntry {
    /// Not exported: its name cannot be a local file name; the report line.
    Refused { line: String },
    /// A directory: created locally and exported recursively.
    Directory { server_path: String },
    /// A document: written to a local file.
    File { server_path: String },
    /// Neither: ignored.
    Other,
}

pub enum ExportView {
    Refused(Seq<char>),
    Directory(Seq<char>),
    File(Seq<char>),
    Other,
}

pub open spec fn export_view(e: ExportEntry) -> ExportView {
    match e {
        ExportEntry::Refused { line } => ExportView::Refused(line@),
        ExportEntry::Directory { server_path } => ExportView::Directory(server_path@),
        ExportEntry::File { server_path } => ExportView::File(server_path@),
        ExportEntry::Other => ExportView::Other,
    }
}

/// An entry named `name` in `server_dir` is exported under its full path; one
/// whose name is not a valid local name is refused, reported by its name
/// (at the root) or its full path (elsewhere).
pub open spec fn spec_export_entry(
    server_dir: Seq<char>,
    name: Seq<char>,
    is_dir: bool,
    is_file: bool,
    at_root: bool,
) -> ExportView {
    let full = crate::listing::spec_join_abs_dir_entry(server_dir, name);
    if !is_dir && !is_file {
        ExportView::Other
    } else {
        match crate::listing::fs_name_error(name) {
            Some(reason) => ExportView::Refused(
                (if at_root {
                    name
                } else {
                    full
                }) + " - ERROR: "@ + reason,
            ),
            None => if is_dir {
                ExportView::Directory(full)
            } else {
                ExportView::File(full)
            },
        }
    }
}

pub fn export_entry(server_dir: &str, name: &str, is_dir: bool, is_file: bool, at_root: bool) -> (r:
    ExportEntry)
    ensures
        export_view(r) == spec_export_entry(server_dir@, name@, is_dir, is_file, at_root),
{
    if !is_dir && !is_file {
        return ExportEntry::Other;
    }
    let full = crate::listing::join_abs_dir_entry(server_dir, name);
    match crate::listing::validate_fs_name(name) {
        Err(reason) => {
            let mut v = if at_root {
                chars_of(name)
            } else {
                chars_of(full.as_str())
            };
            append_chars(&mut v, chars_of(" - ERROR: ").as_slice());
            append_chars(&mut v, chars_of(reason.as_str()).as_slice());
            ExportEntry::Refused { line: string_of(v.as_slice()) }
        },
        Ok(()) => {
            if is_dir {
                ExportEntry::Directory { server_path: full }
            } else {
                ExportEntry::File { server_path: full }
            }
        },
    }
}

/// The time of the first listed entry named `name`.
pub open spec fn listed_time(rows: Seq<crate::ls::ListedEntryRow>, name: Seq<char>) -> Option<u64>
    decreases rows.len(),
{
    if rows.len() == 0 {
        None
    } else if rows[0].name@ == name {
        Some(rows[0].modified_at)
    } else {
        listed_time(rows.drop_first(), name)
    }
}

/// The modification time of `entry_path` (named `name`) in its parent's
/// listing, or `export: missing <entry path> in listing`.
pub fn modified_in_listing(entry_path: &str, name: &str, rows: &Vec<crate::ls::ListedEntryRow>) -> (r:
    Result<u64, String>)
    ensures
        match listed_time(rows@, name@) {
            Some(t) => r == Ok::<u64, String>(t),
            None => r matches Err(e) && e@ == "export: missing "@ + entry_path@ + " in listing"@,
        },
{
    let nv = chars_of(name);
    let mut i: usize = 0;
    assert(rows@.skip(0) =~= rows@);
    while i < rows.len()
        invariant
            i <= rows@.len(),
            nv@ == name@,
            listed_time(rows@, name@) == listed_time(rows@.skip(i as int), name@),
        decreases rows@.len() - i,
    {
        assert(rows@.skip(i as int)[0] == rows@[i as int]);
        assert(rows@.skip(i as int).drop_first() =~= rows@.skip(i + 1));
        if crate::text::chars_eq(chars_of(rows[i].name.as_str()).as_slice(), nv.as_slice()) {
            return Ok(rows[i].modified_at);
        }
        i = i + 1;
    }
    let mut v = chars_of("export: missing ");
    append_chars(&mut v, chars_of(entry_path).as_slice());
    append_chars(&mut v, chars_of(" in listing").as_slice());
    Err(string_of(v.as_slice()))
}

/// A local file's modification time as repository time (nanoseconds since
/// the Unix epoch): `since_epoch` is `None` for a time before the epoch.
pub open spec fn spec_fs_timestamp(since_epoch: Option<u128>) -> Result<u64, Seq<char>> {
    match since_epoch {
        None => Err("import: filesystem mtime before UNIX epoch"@),
        Some(n) => if n <= u64::MAX {
            Ok(n as u64)
        } else {
            Err("import: filesystem mtime out of range"@)
        },
    }
}

pub fn fs_timestamp(since_epoch: Option<u128>) -> (r: Result<u64, String>)
    ensures
        match spec_fs_timestamp(since_epoch) {
            Ok(t) => r == Ok::<u64, String>(t),
            Err(m) => r matches Err(e) && e@ == m,
        },
{
    match since_epoch {
        None => Err(crate::text::owned("import: filesystem mtime before UNIX epoch")),
        Some(n) => {
            if n <= 18446744073709551615u128 {
                Ok(n as u64)
            } else {
                Err(crate::text::owned("import: filesystem mtime out of range"))
            }
        },
    }
}

} // verus!
