//! The rules of an upload listing: how many entries and bytes it may hold,
//! which names a directory's children may have, and the report that
//! describes each listed file.
use vstd::prelude::*;
use vstd::string::StrSliceExecFns;
use vstd::utf8::encode_utf8;
use crate::downloads::{base64_standard, byte_len, encode_base64, is_control, utf8_len, MAX_DOWNLOAD_BYTES};
use crate::keys::is_control_char;
use crate::text::{decimal, push_decimal, push_str};

verus! {

/// The most entries one upload listing may hold, and the most children of
/// one directory it may read.
pub const MAX_UPLOAD_ENTRIES: usize = 64;

/// The longest path, in bytes, that an upload listing may name.
pub const MAX_UPLOAD_PATH_BYTES: usize = 4096;

/// The longest name, in bytes, of a directory's child in an upload.
pub const MAX_UPLOAD_NAME_BYTES: usize = 255;

/// The kind of a listed upload entry.
#[derive(Clone, Copy, Debug, PartialEq, Eq, Structural)]
pub enum UploadKind {
    Regular,
    Directory,
    Symlink,
}

/// The name of a kind in an upload report.
pub open spec fn upload_kind_name(kind: UploadKind) -> Seq<char> {
    match kind {
        UploadKind::Regular => "regular"@,
        UploadKind::Directory => "directory"@,
        UploadKind::Symlink => "symlink"@,
    }
}

/// Refuses another entry once a listing holds the most it may.
pub fn check_upload_room(entries: usize) -> (r: Result<(), String>)
    ensures
        entries < MAX_UPLOAD_ENTRIES ==> r is Ok,
        entries >= MAX_UPLOAD_ENTRIES ==> (r matches Err(e) && e@
            == "ENOSPC:Upload contains too many entries"@),
{
    if entries >= MAX_UPLOAD_ENTRIES {
        return Err(String::from_str("ENOSPC:Upload contains too many entries"));
    }
    Ok(())
}

/// Refuses a directory with more children than a listing may read.
pub fn check_directory_size(children: usize) -> (r: Result<(), String>)
    ensures
        children <= MAX_UPLOAD_ENTRIES ==> r is Ok,
        children > MAX_UPLOAD_ENTRIES ==> (r matches Err(e) && e@
            == "ENOSPC:Upload directory contains too many entries"@),
{
    if children > MAX_UPLOAD_ENTRIES {
        return Err(String::from_str("ENOSPC:Upload directory contains too many entries"));
    }
    Ok(())
}

/// The bytes a listing holds after adding an entry of `size` bytes and the
/// kind `kind`: only regular files count, and the sum may not pass the
/// download limit.
pub open spec fn upload_total(total: u64, kind: UploadKind, size: u64) -> Result<u64, Seq<char>> {
    if kind != UploadKind::Regular {
        Ok(total)
    } else if total + size > MAX_DOWNLOAD_BYTES {
        Err("EFBIG:Upload exceeds the 32 MiB limit"@)
    } else {
        Ok((total + size) as u64)
    }
}

/// Adds an entry to the bytes a listing holds, or refuses it.
pub fn upload_total_after(total: u64, kind: UploadKind, size: u64) -> (r: Result<u64, String>)
    ensures
        match upload_total(total, kind, size) {
            Ok(n) => r == Ok::<u64, String>(n),
            Err(e) => r matches Err(m) && m@ == e,
        },
{
    if kind != UploadKind::Regular {
        return Ok(total);
    }
    match total.checked_add(size) {
        None => Err(String::from_str("EFBIG:Upload exceeds the 32 MiB limit")),
        Some(sum) => {
            if sum > MAX_DOWNLOAD_BYTES as u64 {
                Err(String::from_str("EFBIG:Upload exceeds the 32 MiB limit"))
            } else {
                Ok(sum)
            }
        },
    }
}

/// `path` without the slashes at its end.
pub open spec fn trim_trailing_slashes(path: Seq<char>) -> Seq<char>
    decreases path.len(),
{
    if path.len() > 0 && path.last() == '/' {
        trim_trailing_slashes(path.drop_last())
    } else {
        path
    }
}

/// The path of the child `name` of the listed directory `path`: refused
/// for a name longer than the limit or holding a control character, and
/// for a path longer than the limit.
pub open spec fn child_upload_path(path: Seq<char>, name: Seq<char>) -> Result<Seq<char>, Seq<char>> {
    if utf8_len(name) > MAX_UPLOAD_NAME_BYTES || exists|i: int|
        0 <= i < name.len() && is_control_char(#[trigger] name[i]) {
        Err("EINVAL:Invalid upload path component"@)
    } else if utf8_len(trim_trailing_slashes(path) + "/"@ + name) > MAX_UPLOAD_PATH_BYTES {
        Err("ENAMETOOLONG:Upload path is too long"@)
    } else {
        Ok(trim_trailing_slashes(path) + "/"@ + name)
    }
}

/// Names the child `name` of the listed directory `path`, or refuses it.
pub fn upload_child_path(path: &str, name: &str) -> (r: Result<String, String>)
    ensures
        match child_upload_path(path@, name@) {
            Ok(p) => r matches Ok(s) && s@ == p,
            Err(e) => r matches Err(m) && m@ == e,
        },
{
    let n = name.unicode_len();
    let mut i: usize = 0;
    while i < n
        invariant
            n == name@.len(),
            i <= n,
            forall|k: int| 0 <= k < i ==> !is_control_char(#[trigger] name@[k]),
        decreases n - i,
    {
        if is_control(name.get_char(i)) {
            return Err(String::from_str("EINVAL:Invalid upload path component"));
        }
        i = i + 1;
    }
    if byte_len(name) > MAX_UPLOAD_NAME_BYTES as u128 {
        return Err(String::from_str("EINVAL:Invalid upload path component"));
    }
    let mut end = path.unicode_len();
    proof {
        assert(path@.take(end as int) =~= path@);
    }
    while end > 0 && path.get_char(end - 1) == '/'
        invariant
            end <= path@.len(),
            trim_trailing_slashes(path@) == trim_trailing_slashes(path@.take(end as int)),
            utf8_len(name@) <= MAX_UPLOAD_NAME_BYTES,
            forall|k: int| 0 <= k < name@.len() ==> !is_control_char(#[trigger] name@[k]),
        decreases end,
    {
        proof {
            assert(path@.take(end as int).drop_last() =~= path@.take(end - 1));
        }
        end = end - 1;
    }
    let kept = path.substring_char(0, end);
    let mut child = String::new();
    push_str(&mut child, kept);
    push_str(&mut child, "/");
    push_str(&mut child, name);
    proof {
        assert(path@.take(end as int) == trim_trailing_slashes(path@.take(end as int)));
        assert(child@ =~= trim_trailing_slashes(path@) + "/"@ + name@);
    }
    if byte_len(child.as_str()) > MAX_UPLOAD_PATH_BYTES as u128 {
        return Err(String::from_str("ENAMETOOLONG:Upload path is too long"));
    }
    Ok(child)
}

/// The id a listing gives its entry number `n`.
pub open spec fn upload_entry_id(n: nat) -> Seq<char> {
    "t"@ + decimal(n)
}

/// Names the listing's entry number `n`.
pub fn upload_id(n: u64) -> (r: String)
    ensures
        r@ == upload_entry_id(n as nat),
{
    let mut out = String::new();
    push_str(&mut out, "t");
    push_decimal(&mut out, n as u128);
    proof {
        assert(out@ =~= upload_entry_id(n as nat));
    }
    out
}

/// The report that lists one upload entry: the session, the request it
/// answers, its own id and kind, its parent's id where it has one, its
/// permissions and modification time, its size for a regular file, and
/// its path in base64.
pub open spec fn upload_file_report(
    session_id: Seq<char>,
    original_id: Seq<char>,
    actual_id: Seq<char>,
    kind: UploadKind,
    parent: Option<Seq<char>>,
    permissions: u32,
    modified_ns: Option<u64>,
    size: u64,
    path: Seq<char>,
) -> Seq<char> {
    "\x1b]5113;ac=file;id="@ + session_id + ";fid="@ + original_id + ";st="@ + actual_id + ";ft="@
        + upload_kind_name(kind) + match parent {
        Some(p) => ";pr="@ + p,
        None => Seq::empty(),
    } + ";prm="@ + decimal(permissions as nat) + match modified_ns {
        Some(m) => ";mod="@ + decimal(m as nat),
        None => Seq::empty(),
    } + if kind == UploadKind::Regular {
        ";sz="@ + decimal(size as nat)
    } else {
        Seq::empty()
    } + ";n="@ + base64_standard(encode_utf8(path)) + "\x1b\\"@
}

/// Writes the report that lists one upload entry.
pub fn upload_file_line(
    session_id: &str,
    original_id: &str,
    actual_id: &str,
    kind: UploadKind,
    parent: Option<&str>,
    permissions: u32,
    modified_ns: Option<u64>,
    size: u64,
    path: &str,
) -> (r: String)
    ensures
        r@ == upload_file_report(
            session_id@,
            original_id@,
            actual_id@,
            kind,
            match parent {
                Some(p) => Some(p@),
                None => None,
            },
            permissions,
            modified_ns,
            size,
            path@,
        ),
{
    let mut out = String::new();
    push_str(&mut out, "\x1b]5113;ac=file;id=");
    push_str(&mut out, session_id);
    push_str(&mut out, ";fid=");
    push_str(&mut out, original_id);
    push_str(&mut out, ";st=");
    push_str(&mut out, actual_id);
    push_str(&mut out, ";ft=");
    let ghost head = out@;
    match kind {
        UploadKind::Regular => push_str(&mut out, "regular"),
        UploadKind::Directory => push_str(&mut out, "directory"),
        UploadKind::Symlink => push_str(&mut out, "symlink"),
    }
    let ghost named = out@;
    match parent {
        Some(p) => {
            push_str(&mut out, ";pr=");
            push_str(&mut out, p);
        },
        None => {},
    }
    let ghost parented = out@;
    push_str(&mut out, ";prm=");
    push_decimal(&mut out, permissions as u128);
    let ghost permitted = out@;
    match modified_ns {
        Some(m) => {
            push_str(&mut out, ";mod=");
            push_decimal(&mut out, m as u128);
        },
        None => {},
    }
    let ghost timed = out@;
    if kind == UploadKind::Regular {
        push_str(&mut out, ";sz=");
        push_decimal(&mut out, size as u128);
    }
    let ghost sized = out@;
    push_str(&mut out, ";n=");
    let encoded = encode_base64(path.as_bytes());
    push_str(&mut out, encoded.as_str());
    push_str(&mut out, "\x1b\\");
    proof {
        let p = match parent {
            Some(p) => Some(p@),
            None => None,
        };
        assert(named =~= head + upload_kind_name(kind));
        assert(parented =~= named + match p {
            Some(q) => ";pr="@ + q,
            None => Seq::<char>::empty(),
        });
        assert(timed =~= permitted + match modified_ns {
            Some(m) => ";mod="@ + decimal(m as nat),
            None => Seq::<char>::empty(),
        });
        assert(sized =~= timed + if kind == UploadKind::Regular {
            ";sz="@ + decimal(size as nat)
        } else {
            Seq::<char>::empty()
        });
        assert(out@ =~= upload_file_report(
            session_id@,
            original_id@,
            actual_id@,
            kind,
            p,
            permissions,
            modified_ns,
            size,
            path@,
        ));
    }
    out
}

} // verus!
