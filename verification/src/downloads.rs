//! Naming and validation for files that programs send to and request from
//! the host: download names that cannot escape their directory or clobber
//! a file, upload status reports, and background-image paths confined to
//! a root.
use vstd::prelude::*;
use vstd::string::StrSliceExecFns;
use vstd::string::StringExecFns;
use crate::api::PaneId;
use crate::keys::is_control_char;
use crate::text::{decimal, push_decimal, push_str};
use crate::transfer::{path_is_absolute, TransferEntry, TransferKind, UploadPath};
use base64::Engine;
use std::io::Write;

verus! {

/// The largest file a program may download through the terminal.
pub const MAX_DOWNLOAD_BYTES: usize = 33554432;

/// The most bytes of a download's name that are kept.
pub const MAX_FILENAME_BYTES: usize = 240;

/// Turns one character into a string.
#[verifier::external_body]
pub(crate) fn char_to_string(c: char) -> (r: String)
    ensures
        r@ == seq![c],
{
    c.to_string()
}

/// A string of the characters of `chars`.
pub fn string_from_chars(chars: &Vec<char>) -> (r: String)
    ensures
        r@ == chars@,
{
    let mut out = String::new();
    let mut i: usize = 0;
    while i < chars.len()
        invariant
            i <= chars@.len(),
            out@ == chars@.take(i as int),
        decreases chars@.len() - i,
    {
        let piece = char_to_string(chars[i]);
        push_str(&mut out, piece.as_str());
        proof {
            assert(chars@.take(i + 1) =~= chars@.take(i as int) + seq![chars@[i as int]]);
        }
        i = i + 1;
    }
    proof {
        assert(chars@.take(i as int) =~= chars@);
    }
    out
}

/// The characters of `text`.
pub fn chars_of(text: &str) -> (r: Vec<char>)
    ensures
        r@ == text@,
{
    let n = text.unicode_len();
    let mut out: Vec<char> = Vec::new();
    let mut i: usize = 0;
    while i < n
        invariant
            n == text@.len(),
            i <= n,
            out@ == text@.take(i as int),
        decreases n - i,
    {
        out.push(text.get_char(i));
        proof {
            assert(text@.take(i + 1) =~= text@.take(i as int).push(text@[i as int]));
        }
        i = i + 1;
    }
    proof {
        assert(text@.take(n as int) =~= text@);
    }
    out
}

/// Whether `c` separates directories, on any platform.
pub open spec fn is_path_separator(c: char) -> bool {
    c == '/' || c == '\\'
}

/// What follows the last path separator of `name`.
pub open spec fn leaf_name(name: Seq<char>) -> Seq<char>
    decreases name.len(),
{
    if name.len() == 0 {
        name
    } else if is_path_separator(name.last()) {
        Seq::empty()
    } else {
        leaf_name(name.drop_last()).push(name.last())
    }
}

/// Whether `c` may not stand in a file name on some platform.
pub open spec fn is_forbidden_name_char(c: char) -> bool {
    is_control_char(c) || c == '<' || c == '>' || c == ':' || c == '"' || c == '/' || c == '\\'
        || c == '|' || c == '?' || c == '*'
}

/// How many bytes UTF-8 takes for `c`.
pub open spec fn char_utf8_len(c: char) -> nat {
    if (c as u32) < 0x80 {
        1
    } else if (c as u32) < 0x800 {
        2
    } else if (c as u32) < 0x10000 {
        3
    } else {
        4
    }
}

/// How many bytes UTF-8 takes for `s`.
pub open spec fn utf8_len(s: Seq<char>) -> nat
    decreases s.len(),
{
    if s.len() == 0 {
        0
    } else {
        utf8_len(s.drop_last()) + char_utf8_len(s.last())
    }
}

/// `leaf` with each forbidden character replaced by `_`, and each other
/// character kept while the name stays within the byte limit.
pub open spec fn sanitized(leaf: Seq<char>) -> Seq<char>
    decreases leaf.len(),
{
    if leaf.len() == 0 {
        leaf
    } else {
        let kept = sanitized(leaf.drop_last());
        let c = leaf.last();
        if is_forbidden_name_char(c) {
            kept.push('_')
        } else if utf8_len(kept) + char_utf8_len(c) <= MAX_FILENAME_BYTES {
            kept.push(c)
        } else {
            kept
        }
    }
}

/// `s` without the spaces and dots that end it.
pub open spec fn trim_trailing_dots_and_spaces(s: Seq<char>) -> Seq<char>
    decreases s.len(),
{
    if s.len() > 0 && (s.last() == ' ' || s.last() == '.') {
        trim_trailing_dots_and_spaces(s.drop_last())
    } else {
        s
    }
}

/// What comes before the first dot of `s`.
pub open spec fn before_first_dot(s: Seq<char>) -> Seq<char>
    decreases s.len(),
{
    if s.len() == 0 {
        s
    } else if s[0] == '.' {
        Seq::empty()
    } else {
        seq![s[0]] + before_first_dot(s.drop_first())
    }
}

/// `c` with ASCII lower-case letters made upper case.
pub open spec fn ascii_upper(c: char) -> char {
    if 'a' <= c && c <= 'z' {
        (((c as u8) - 32) as u8) as char
    } else {
        c
    }
}

/// Whether `name`, without regard to ASCII case, is the three letters
/// `a`, `b`, `c`.
pub open spec fn upper_is3(name: Seq<char>, a: char, b: char, c: char) -> bool {
    name.len() == 3 && ascii_upper(name[0]) == a && ascii_upper(name[1]) == b && ascii_upper(
        name[2],
    ) == c
}

/// Whether `name` is a device name that Windows reserves: CON, PRN, AUX,
/// NUL, or COM or LPT followed by a digit from 1 to 9, in any ASCII case.
pub open spec fn is_reserved_device_name(name: Seq<char>) -> bool {
    ||| upper_is3(name, 'C', 'O', 'N')
    ||| upper_is3(name, 'P', 'R', 'N')
    ||| upper_is3(name, 'A', 'U', 'X')
    ||| upper_is3(name, 'N', 'U', 'L')
    ||| (name.len() == 4 && (upper_is3(name.take(3), 'C', 'O', 'M') || upper_is3(
        name.take(3),
        'L',
        'P',
        'T',
    )) && '1' <= name[3] && name[3] <= '9')
}

/// The name a download is stored under.
pub open spec fn safe_name(name: Seq<char>) -> Seq<char> {
    let safe = trim_trailing_dots_and_spaces(sanitized(leaf_name(name)));
    if safe.len() == 0 || is_reserved_device_name(before_first_dot(safe)) {
        seq!['U', 'n', 'n', 'a', 'm', 'e', 'd', ' ', 'f', 'i', 'l', 'e']
    } else {
        safe
    }
}

fn upper_char(c: char) -> (r: char)
    ensures
        r == ascii_upper(c),
{
    if 'a' <= c && c <= 'z' {
        ((c as u8) - 32) as char
    } else {
        c
    }
}

fn upper_is3_exec(name: &Vec<char>, a: char, b: char, c: char) -> (r: bool)
    ensures
        r == upper_is3(name@, a, b, c),
{
    name.len() == 3 && upper_char(name[0]) == a && upper_char(name[1]) == b && upper_char(name[2])
        == c
}

/// Whether `name` is a device name that Windows reserves.
pub fn is_windows_reserved_name(name: &str) -> (r: bool)
    ensures
        r == is_reserved_device_name(name@),
{
    let chars = chars_of(name);
    is_reserved_chars(&chars)
}

fn is_reserved_chars(chars: &Vec<char>) -> (r: bool)
    ensures
        r == is_reserved_device_name(chars@),
{
    if upper_is3_exec(chars, 'C', 'O', 'N') || upper_is3_exec(chars, 'P', 'R', 'N')
        || upper_is3_exec(chars, 'A', 'U', 'X') || upper_is3_exec(chars, 'N', 'U', 'L') {
        return true;
    }
    if chars.len() != 4 {
        return false;
    }
    let prefix = vec![chars[0], chars[1], chars[2]];
    proof {
        assert(prefix@ =~= chars@.take(3));
    }
    let digit = chars[3];
    (upper_is3_exec(&prefix, 'C', 'O', 'M') || upper_is3_exec(&prefix, 'L', 'P', 'T')) && '1'
        <= digit && digit <= '9'
}

fn utf8_len_of(c: char) -> (r: usize)
    ensures
        r == char_utf8_len(c),
{
    let code = c as u32;
    if code < 0x80 {
        1
    } else if code < 0x800 {
        2
    } else if code < 0x10000 {
        3
    } else {
        4
    }
}

/// How many bytes the UTF-8 encoding of `text` takes.
pub fn byte_len(text: &str) -> (r: u128)
    ensures
        r == utf8_len(text@),
{
    let n = text.unicode_len();
    let mut total: u128 = 0;
    let mut i: usize = 0;
    while i < n
        invariant
            n == text@.len(),
            i <= n,
            total == utf8_len(text@.take(i as int)),
            total <= 4 * i,
        decreases n - i,
    {
        proof {
            assert(text@.take(i + 1).drop_last() =~= text@.take(i as int));
            assert(text@.take(i + 1).last() == text@[i as int]);
        }
        total = total + utf8_len_of(text.get_char(i)) as u128;
        i = i + 1;
    }
    proof {
        assert(text@.take(n as int) =~= text@);
    }
    total
}

proof fn lemma_leaf_name_step(name: Seq<char>, i: int)
    requires
        0 <= i < name.len(),
    ensures
        leaf_name(name.take(i + 1)) == if is_path_separator(name[i]) {
            Seq::empty()
        } else {
            leaf_name(name.take(i)).push(name[i])
        },
{
    assert(name.take(i + 1).drop_last() =~= name.take(i));
}

proof fn lemma_sanitized_len(s: Seq<char>)
    ensures
        sanitized(s).len() <= s.len(),
    decreases s.len(),
{
    if s.len() > 0 {
        lemma_sanitized_len(s.drop_last());
    }
}

/// The name a download with the requested `name` is stored under: the
/// last path component, with characters that file systems refuse replaced,
/// cut to the byte limit, without trailing dots and spaces, and a fixed
/// name where nothing usable remains or a Windows device name would.
pub fn safe_filename(name: &str) -> (r: String)
    ensures
        r@ == safe_name(name@),
{
    let chars = chars_of(name);
    // The leaf starts after the last separator.
    let mut start: usize = 0;
    let mut i: usize = 0;
    proof {
        assert(chars@.take(0) =~= Seq::<char>::empty());
        assert(chars@.subrange(0, 0) =~= Seq::<char>::empty());
    }
    while i < chars.len()
        invariant
            chars@ == name@,
            start <= i <= chars@.len(),
            leaf_name(chars@.take(i as int)) == chars@.subrange(start as int, i as int),
        decreases chars@.len() - i,
    {
        proof {
            lemma_leaf_name_step(chars@, i as int);
        }
        if chars[i] == '/' || chars[i] == '\\' {
            start = i + 1;
            proof {
                assert(chars@.subrange(start as int, i + 1) =~= Seq::<char>::empty());
            }
        } else {
            proof {
                assert(chars@.subrange(start as int, i + 1) =~= chars@.subrange(
                    start as int,
                    i as int,
                ).push(chars@[i as int]));
            }
        }
        i = i + 1;
    }
    proof {
        assert(chars@.take(i as int) =~= chars@);
    }
    let ghost leaf = chars@.subrange(start as int, i as int);
    let mut safe: Vec<char> = Vec::new();
    let mut bytes: usize = 0;
    let mut j: usize = start;
    proof {
        assert(leaf.take(0) =~= Seq::<char>::empty());
    }
    while j < chars.len()
        invariant
            start <= j <= chars@.len(),
            leaf == chars@.subrange(start as int, chars@.len() as int),
            safe@ == sanitized(leaf.take(j - start)),
            bytes as int == if utf8_len(safe@) <= MAX_FILENAME_BYTES + 1 {
                utf8_len(safe@) as int
            } else {
                MAX_FILENAME_BYTES + 1
            },
            safe@.len() <= j - start,
        decreases chars@.len() - j,
    {
        let c = chars[j];
        proof {
            let k = j - start;
            assert(leaf.take(k + 1).drop_last() =~= leaf.take(k));
            assert(leaf.take(k + 1).last() == c);
        }
        let width = utf8_len_of(c);
        let forbidden = is_control(c) || c == '<' || c == '>' || c == ':' || c == '"' || c == '/'
            || c == '\\' || c == '|' || c == '?' || c == '*';
        if forbidden {
            safe.push('_');
            if bytes <= MAX_FILENAME_BYTES {
                bytes = bytes + 1;
            }
            proof {
                assert(safe@.drop_last() =~= sanitized(leaf.take(j - start)));
            }
        } else if bytes + width <= MAX_FILENAME_BYTES {
            safe.push(c);
            bytes = bytes + width;
            proof {
                assert(safe@.drop_last() =~= sanitized(leaf.take(j - start)));
            }
        }
        j = j + 1;
    }
    proof {
        assert(leaf.take(j - start) =~= leaf);
        assert(leaf_name(name@) == leaf);
    }
    let ghost before_trim = safe@;
    while safe.len() > 0 && (safe[safe.len() - 1] == ' ' || safe[safe.len() - 1] == '.')
        invariant
            trim_trailing_dots_and_spaces(safe@) == trim_trailing_dots_and_spaces(before_trim),
        decreases safe@.len(),
    {
        let ghost prev = safe@;
        safe.pop();
        proof {
            assert(safe@ =~= prev.drop_last());
        }
    }
    // The stem is what precedes the first dot.
    let mut stem: Vec<char> = Vec::new();
    let mut k: usize = 0;
    while k < safe.len() && safe[k] != '.'
        invariant
            k <= safe@.len(),
            forall|m: int| 0 <= m < k ==> safe@[m] != '.',
            stem@ == safe@.take(k as int),
        decreases safe@.len() - k,
    {
        stem.push(safe[k]);
        proof {
            assert(safe@.take(k + 1) =~= safe@.take(k as int).push(safe@[k as int]));
        }
        k = k + 1;
    }
    proof {
        lemma_before_first_dot(safe@, k as int);
    }
    if safe.len() == 0 || is_reserved_chars(&stem) {
        let r = String::from_str("Unnamed file");
        proof {
            reveal_strlit("Unnamed file");
            assert(r@ =~= seq!['U', 'n', 'n', 'a', 'm', 'e', 'd', ' ', 'f', 'i', 'l', 'e']);
        }
        return r;
    }
    string_from_chars(&safe)
}

proof fn lemma_before_first_dot(s: Seq<char>, k: int)
    requires
        0 <= k <= s.len(),
        forall|m: int| 0 <= m < k ==> s[m] != '.',
        k == s.len() || s[k] == '.',
    ensures
        before_first_dot(s) == s.take(k),
    decreases k,
{
    if k > 0 {
        assert forall|m: int| 0 <= m < k - 1 implies s.drop_first()[m] != '.' by {
            assert(s.drop_first()[m] == s[m + 1]);
        }
        lemma_before_first_dot(s.drop_first(), k - 1);
        assert(s.take(k) =~= seq![s[0]] + s.drop_first().take(k - 1));
    } else {
        assert(s.take(0) =~= Seq::<char>::empty());
    }
}

pub(crate) fn is_control(c: char) -> (r: bool)
    ensures
        r == is_control_char(c),
{
    let code = c as u32;
    code <= 0x1f || (0x7f <= code && code <= 0x9f)
}

/// The position of the last dot of `s`, or -1.
pub open spec fn last_dot(s: Seq<char>) -> int
    decreases s.len(),
{
    if s.len() == 0 {
        -1
    } else if s.last() == '.' {
        s.len() - 1
    } else {
        last_dot(s.drop_last())
    }
}

/// The stem and the extension of a file name without separators, as the
/// standard library's paths split them: the name itself, or `file` where
/// it names no file, with no extension; or the parts around its last dot,
/// where one stands after the first character.
pub open spec fn stem_and_extension(name: Seq<char>) -> (Seq<char>, Option<Seq<char>>) {
    if name.len() == 0 || name == seq!['.'] || name == seq!['.', '.'] {
        (seq!['f', 'i', 'l', 'e'], None)
    } else if last_dot(name) <= 0 {
        (name, None)
    } else {
        (name.take(last_dot(name)), Some(name.skip(last_dot(name) + 1)))
    }
}

/// The `suffix`-th alternative of the file name `name`: the name itself
/// first, then the stem with the number in brackets, before the extension.
pub open spec fn numbered_name(name: Seq<char>, suffix: u16) -> Seq<char> {
    if suffix == 0 {
        name
    } else {
        let (stem, extension) = stem_and_extension(name);
        match extension {
            Some(extension) => if extension.len() > 0 {
                stem + seq![' ', '('] + decimal(suffix as nat) + seq![')', '.'] + extension
            } else {
                stem + seq![' ', '('] + decimal(suffix as nat) + seq![')']
            },
            None => stem + seq![' ', '('] + decimal(suffix as nat) + seq![')'],
        }
    }
}

proof fn lemma_last_dot_bounds(s: Seq<char>)
    ensures
        -1 <= last_dot(s) < s.len(),
        last_dot(s) >= 0 ==> s[last_dot(s)] == '.',
    decreases s.len(),
{
    if s.len() > 0 && s.last() != '.' {
        lemma_last_dot_bounds(s.drop_last());
    }
}

/// The name to try for a download whose plain name, and the alternatives
/// before `suffix`, are taken. `name` is a file name: it holds no `/`.
pub fn unique_name(name: &str, suffix: u16) -> (r: String)
    requires
        !name@.contains('/'),
    ensures
        r@ == numbered_name(name@, suffix),
{
    if suffix == 0 {
        return name.to_owned();
    }
    let chars = chars_of(name);
    let n = chars.len();
    let mut stem: Vec<char>;
    let mut extension: Option<Vec<char>> = None;
    if n == 0 || (n == 1 && chars[0] == '.') || (n == 2 && chars[0] == '.' && chars[1] == '.') {
        stem = vec!['f', 'i', 'l', 'e'];
        proof {
            if n == 1 {
                assert(chars@ =~= seq!['.']);
            }
            if n == 2 {
                assert(chars@ =~= seq!['.', '.']);
            }
        }
    } else {
        proof {
            if chars@ == seq!['.'] {
                assert(chars@[0] == '.');
            }
            if chars@ == seq!['.', '.'] {
                assert(chars@[0] == '.' && chars@[1] == '.');
            }
        }
        // Find the last dot.
        let mut i: usize = n;
        proof {
            assert(chars@.take(n as int) =~= chars@);
        }
        while i > 0 && chars[i - 1] != '.'
            invariant
                i <= n,
                n == chars@.len(),
                last_dot(chars@) == last_dot(chars@.take(i as int)),
            decreases i,
        {
            proof {
                assert(chars@.take(i as int).drop_last() =~= chars@.take(i - 1));
            }
            i = i - 1;
        }
        proof {
            if i > 0 {
                assert(chars@.take(i as int).last() == '.');
            } else {
                assert(chars@.take(0) =~= Seq::<char>::empty());
            }
            lemma_last_dot_bounds(chars@);
        }
        if i <= 1 {
            stem = chars.clone();
        } else {
            let dot = i - 1;
            stem = Vec::new();
            let mut k: usize = 0;
            while k < dot
                invariant
                    k <= dot,
                    dot < n,
                    n == chars@.len(),
                    stem@ == chars@.take(k as int),
                decreases dot - k,
            {
                stem.push(chars[k]);
                proof {
                    assert(chars@.take(k + 1) =~= chars@.take(k as int).push(chars@[k as int]));
                }
                k = k + 1;
            }
            let mut ext: Vec<char> = Vec::new();
            let mut k: usize = dot + 1;
            while k < n
                invariant
                    dot < k <= n,
                    n == chars@.len(),
                    ext@ == chars@.subrange(dot + 1, k as int),
                decreases n - k,
            {
                ext.push(chars[k]);
                proof {
                    assert(chars@.subrange(dot + 1, k + 1) =~= chars@.subrange(
                        dot + 1,
                        k as int,
                    ).push(chars@[k as int]));
                }
                k = k + 1;
            }
            proof {
                assert(chars@.skip(dot + 1) =~= chars@.subrange(dot + 1, n as int));
            }
            extension = Some(ext);
        }
    }
    let mut out = string_from_chars(&stem);
    push_str(&mut out, " (");
    push_decimal(&mut out, suffix as u128);
    let has_extension = match &extension {
        Some(ext) => ext.len() > 0,
        None => false,
    };
    if has_extension {
        push_str(&mut out, ").");
        match &extension {
            Some(ext) => {
                let text = string_from_chars(ext);
                push_str(&mut out, text.as_str());
            },
            None => {},
        }
    } else {
        push_str(&mut out, ")");
    }
    proof {
        reveal_strlit(" (");
        reveal_strlit(").");
        reveal_strlit(")");
        assert(out@ =~= numbered_name(name@, suffix));
    }
    out
}

/// A request for the transfer worker.
#[derive(Debug, PartialEq, Eq)]
pub enum DownloadRequest {
    /// Store `data` under `name` in `directory`, without overwriting.
    Single {
        directory: String,
        name: String,
        data: Vec<u8>,
        permissions: Option<u32>,
        modified_ns: Option<u64>,
    },
    /// Store the entries of a multi-file transfer in a new directory
    /// inside `directory`.
    Transfer { directory: String, entries: Vec<TransferEntry> },
    /// List the files that `paths` ask for, below `root`, for the upload
    /// session `session_id` of `pane`.
    UploadListing {
        pane: PaneId,
        root: String,
        session_id: String,
        quiet: u8,
        paths: Vec<UploadPath>,
    },
    /// Send the data of the file `name` of an upload session.
    UploadData {
        pane: PaneId,
        session_id: String,
        file_id: String,
        name: String,
        compressed: bool,
    },
    /// Forget the upload session `session_id` of `pane`.
    UploadCancel { pane: PaneId, session_id: String },
    /// Forget every upload session of `pane`.
    UploadCancelPane { pane: PaneId },
    /// Load the background image at `path` below `root`, or clear it.
    BackgroundImage { root: String, path: Option<String> },
}

/// What preparing a download gives: refused for a relative directory or
/// for more data than the limit; otherwise a request to store the data
/// under the safe form of its name.
pub open spec fn prepared_download(
    r: Result<DownloadRequest, String>,
    absolute: bool,
    directory: Seq<char>,
    name: Option<&str>,
    data: Seq<u8>,
    permissions: Option<u32>,
    modified_ns: Option<u64>,
) -> bool {
    if !absolute {
        r matches Err(e) && e@ == "OSC download directory must be absolute"@
    } else if data.len() > MAX_DOWNLOAD_BYTES {
        r matches Err(e) && e@ == "OSC download exceeds the 32 MiB limit"@
    } else {
        r matches Ok(
            DownloadRequest::Single {
                directory: d,
                name: n,
                data: b,
                permissions: p,
                modified_ns: m,
            },
        ) && d@ == directory && n@ == safe_name(
            match name {
                Some(name) => name@,
                None => "Unnamed file"@,
            },
        ) && b@ == data && p == permissions && m == modified_ns
    }
}

/// Checks a download and names its file, given whether its directory is
/// absolute.
pub fn prepare_download(
    directory_is_absolute: bool,
    directory: &str,
    name: Option<&str>,
    data: Vec<u8>,
    permissions: Option<u32>,
    modified_ns: Option<u64>,
) -> (r: Result<DownloadRequest, String>)
    ensures
        prepared_download(r, directory_is_absolute, directory@, name, data@, permissions, modified_ns),
{
    if !directory_is_absolute {
        return Err(String::from_str("OSC download directory must be absolute"));
    }
    if data.len() > MAX_DOWNLOAD_BYTES {
        return Err(String::from_str("OSC download exceeds the 32 MiB limit"));
    }
    let requested = match name {
        Some(name) => name,
        None => "Unnamed file",
    };
    Ok(
        DownloadRequest::Single {
            directory: directory.to_owned(),
            name: safe_filename(requested),
            data,
            permissions,
            modified_ns,
        },
    )
}

/// Checks a download that a program sent and turns it into a request for
/// the transfer worker. Whether the directory is absolute depends on the
/// platform's path rules; the rest is as [`prepare_download`] states.
pub fn queue(
    directory: &str,
    name: Option<&str>,
    data: Vec<u8>,
    permissions: Option<u32>,
    modified_ns: Option<u64>,
) -> (r: Result<DownloadRequest, String>)
    ensures
        exists|absolute: bool|
            prepared_download(r, absolute, directory@, name, data@, permissions, modified_ns),
{
    let absolute = path_is_absolute(directory);
    prepare_download(absolute, directory, name, data, permissions, modified_ns)
}

/// How many bytes the entries of a transfer carry.
pub open spec fn transfer_bytes(entries: Seq<TransferEntry>) -> nat
    decreases entries.len(),
{
    if entries.len() == 0 {
        0
    } else {
        transfer_bytes(entries.drop_last()) + entries.last().data@.len()
    }
}

proof fn lemma_transfer_bytes_grow(entries: Seq<TransferEntry>, i: int)
    requires
        0 <= i <= entries.len(),
    ensures
        transfer_bytes(entries.take(i)) <= transfer_bytes(entries),
    decreases entries.len() - i,
{
    if i < entries.len() {
        lemma_transfer_bytes_grow(entries, i + 1);
        assert(entries.take(i + 1).drop_last() =~= entries.take(i));
    } else {
        assert(entries.take(i) =~= entries);
    }
}

/// The most entries one transfer may hold.
pub const MAX_TRANSFER_ENTRIES: usize = 64;

/// What preparing a multi-file transfer gives: refused for a relative
/// directory, or for more entries or bytes than the limits; a lone regular
/// file at the top is stored like a single download, anything else as a
/// transfer of all its entries.
pub open spec fn prepared_transfer(
    r: Result<DownloadRequest, String>,
    absolute: bool,
    directory: Seq<char>,
    entries: Seq<TransferEntry>,
) -> bool {
    if !absolute {
        r matches Err(e) && e@ == "OSC download directory must be absolute"@
    } else if entries.len() > MAX_TRANSFER_ENTRIES || transfer_bytes(entries) > MAX_DOWNLOAD_BYTES {
        r matches Err(e) && e@ == "OSC file transfer exceeds its bounded limits"@
    } else if entries.len() == 1 && entries[0].kind == TransferKind::Regular
        && entries[0].parent is None {
        r matches Ok(
            DownloadRequest::Single {
                directory: d,
                name: n,
                data: b,
                permissions: p,
                modified_ns: m,
            },
        ) && d@ == directory && n@ == safe_name(entries[0].name@) && b@ == entries[0].data@ && p
            == entries[0].permissions && m == entries[0].modified_ns
    } else {
        r matches Ok(DownloadRequest::Transfer { directory: d, entries: es }) && d@ == directory
            && es@ == entries
    }
}

/// Checks a multi-file transfer, given whether its directory is absolute.
pub fn prepare_transfer(
    directory_is_absolute: bool,
    directory: &str,
    entries: Vec<TransferEntry>,
) -> (r: Result<DownloadRequest, String>)
    ensures
        prepared_transfer(r, directory_is_absolute, directory@, entries@),
{
    if !directory_is_absolute {
        return Err(String::from_str("OSC download directory must be absolute"));
    }
    if entries.len() > MAX_TRANSFER_ENTRIES {
        return Err(String::from_str("OSC file transfer exceeds its bounded limits"));
    }
    let mut total: usize = 0;
    let mut i: usize = 0;
    while i < entries.len()
        invariant
            directory_is_absolute,
            entries@.len() <= MAX_TRANSFER_ENTRIES,
            i <= entries@.len(),
            total == transfer_bytes(entries@.take(i as int)),
            total <= MAX_DOWNLOAD_BYTES,
        decreases entries@.len() - i,
    {
        proof {
            assert(entries@.take(i + 1).drop_last() =~= entries@.take(i as int));
        }
        if entries[i].data.len() > MAX_DOWNLOAD_BYTES - total {
            proof {
                assert(entries@.take(i + 1).last() == entries@[i as int]);
                assert(transfer_bytes(entries@.take(i + 1)) == total + entries@[i as int].data@.len());
                lemma_transfer_bytes_grow(entries@, i + 1);
            }
            return Err(String::from_str("OSC file transfer exceeds its bounded limits"));
        }
        total = total + entries[i].data.len();
        proof {
            assert(entries@.take(i + 1).last() == entries@[i as int]);
        }
        i = i + 1;
    }
    proof {
        assert(entries@.take(i as int) =~= entries@);
    }
    if entries.len() == 1 && entries[0].kind == TransferKind::Regular && entries[0].parent.is_none() {
        let mut entries = entries;
        let entry = entries.pop().unwrap();
        return Ok(
            DownloadRequest::Single {
                directory: directory.to_owned(),
                name: safe_filename(entry.name.as_str()),
                data: entry.data,
                permissions: entry.permissions,
                modified_ns: entry.modified_ns,
            },
        );
    }
    Ok(DownloadRequest::Transfer { directory: directory.to_owned(), entries })
}

/// Checks a multi-file transfer that a program sent and turns it into a
/// request for the transfer worker. Whether the directory is absolute
/// depends on the platform's path rules; the rest is as
/// [`prepare_transfer`] states.
pub fn queue_transfer(directory: &str, entries: Vec<TransferEntry>) -> (r: Result<
    DownloadRequest,
    String,
>)
    ensures
        exists|absolute: bool| prepared_transfer(r, absolute, directory@, entries@),
{
    let absolute = path_is_absolute(directory);
    prepare_transfer(absolute, directory, entries)
}

/// A request to list the files that `paths` ask for below `root`; refused
/// when the platform does not call `root` absolute.
pub fn queue_upload_listing(
    pane: PaneId,
    root: &str,
    session_id: String,
    quiet: u8,
    paths: Vec<UploadPath>,
) -> (r: Result<DownloadRequest, String>)
    ensures
        match r {
            Ok(request) => request matches DownloadRequest::UploadListing {
                pane: p,
                root: t,
                session_id: s,
                quiet: q,
                paths: ps,
            } && p == pane && t@ == root@ && s == session_id && q == quiet && ps == paths,
            Err(e) => e@ == "OSC upload directory must be absolute"@,
        },
{
    if !path_is_absolute(root) {
        return Err(String::from_str("OSC upload directory must be absolute"));
    }
    Ok(DownloadRequest::UploadListing { pane, root: root.to_owned(), session_id, quiet, paths })
}

/// A request to send the data of the file `name` of an upload session.
pub fn queue_upload_data(
    pane: PaneId,
    session_id: String,
    file_id: String,
    name: String,
    compressed: bool,
) -> (r: DownloadRequest)
    ensures
        r == (DownloadRequest::UploadData { pane, session_id, file_id, name, compressed }),
{
    DownloadRequest::UploadData { pane, session_id, file_id, name, compressed }
}

/// A request to load the background image at `path` below `root`, or to
/// clear it; refused when the platform does not call `root` absolute.
pub fn queue_background_image(root: &str, path: Option<String>) -> (r: Result<
    DownloadRequest,
    String,
>)
    ensures
        match r {
            Ok(request) => request matches DownloadRequest::BackgroundImage { root: t, path: p }
                && t@ == root@ && p == path,
            Err(e) => e@ == "OSC background-image directory must be absolute"@,
        },
{
    if !path_is_absolute(root) {
        return Err(String::from_str("OSC background-image directory must be absolute"));
    }
    Ok(DownloadRequest::BackgroundImage { root: root.to_owned(), path })
}

/// Why a job could not be handed to the transfer worker: its bounded queue
/// is full, or the worker has stopped.
#[derive(Clone, Copy, Debug, PartialEq, Eq, Structural)]
pub enum SendFailure {
    Full,
    Disconnected,
}

/// The worker a job goes to: downloads, or the file transfers, uploads and
/// background images.
#[derive(Clone, Copy, Debug, PartialEq, Eq, Structural)]
pub enum JobQueue {
    Download,
    FileTransfer,
}

/// What a job that could not be queued reports.
pub open spec fn send_failure_text(queue: JobQueue, failure: SendFailure) -> Seq<char> {
    match (queue, failure) {
        (JobQueue::Download, SendFailure::Full) => "OSC download queue is full"@,
        (JobQueue::Download, SendFailure::Disconnected) => "OSC download worker stopped"@,
        (JobQueue::FileTransfer, SendFailure::Full) => "OSC file transfer queue is full"@,
        (JobQueue::FileTransfer, SendFailure::Disconnected) => "OSC file transfer worker stopped"@,
    }
}

/// The error of a job that could not be queued.
pub fn send_failure_message(queue: JobQueue, failure: SendFailure) -> (r: String)
    ensures
        r@ == send_failure_text(queue, failure),
{
    match (queue, failure) {
        (JobQueue::Download, SendFailure::Full) => String::from_str("OSC download queue is full"),
        (JobQueue::Download, SendFailure::Disconnected) => String::from_str(
            "OSC download worker stopped",
        ),
        (JobQueue::FileTransfer, SendFailure::Full) => String::from_str(
            "OSC file transfer queue is full",
        ),
        (JobQueue::FileTransfer, SendFailure::Disconnected) => String::from_str(
            "OSC file transfer worker stopped",
        ),
    }
}

/// A request to forget the upload session `session_id` of `pane`.
pub fn queue_upload_cancel(pane: PaneId, session_id: String) -> (r: DownloadRequest)
    ensures
        r == (DownloadRequest::UploadCancel { pane, session_id }),
{
    DownloadRequest::UploadCancel { pane, session_id }
}

/// A request to forget every upload session of `pane`.
pub fn queue_upload_cancel_pane(pane: PaneId) -> (r: DownloadRequest)
    ensures
        r == (DownloadRequest::UploadCancelPane { pane }),
{
    DownloadRequest::UploadCancelPane { pane }
}

/// What the standard base64 alphabet, with padding, makes of `bytes`.
pub uninterp spec fn base64_standard(bytes: Seq<u8>) -> Seq<char>;

/// Encodes `bytes` with `base64::engine::general_purpose::STANDARD`; the
/// result is named by `base64_standard` of the bytes.
#[verifier::external_body]
pub(crate) fn encode_base64(bytes: &[u8]) -> (r: String)
    ensures
        r@ == base64_standard(bytes@),
{
    base64::engine::general_purpose::STANDARD.encode(bytes)
}

/// An upload status report for the session `session_id`, about the file
/// `file_id` where there is one, carrying `message`.
pub open spec fn upload_status_report(
    session_id: Seq<char>,
    file_id: Option<Seq<char>>,
    message: Seq<char>,
) -> Seq<char> {
    "\x1b]5113;ac=status;id="@ + session_id + match file_id {
        Some(file_id) => ";fid="@ + file_id,
        None => Seq::empty(),
    } + ";st="@ + base64_standard(vstd::utf8::encode_utf8(message)) + "\x1b\\"@
}

/// Reports the status `message` of an upload.
pub fn upload_status(session_id: &str, file_id: Option<&str>, message: &str) -> (r: String)
    ensures
        r@ == upload_status_report(
            session_id@,
            match file_id {
                Some(f) => Some(f@),
                None => None,
            },
            message@,
        ),
{
    let mut out = String::new();
    push_str(&mut out, "\x1b]5113;ac=status;id=");
    push_str(&mut out, session_id);
    match file_id {
        Some(file_id) => {
            push_str(&mut out, ";fid=");
            push_str(&mut out, file_id);
        },
        None => {},
    }
    push_str(&mut out, ";st=");
    let encoded = encode_base64(message.as_bytes());
    push_str(&mut out, encoded.as_str());
    push_str(&mut out, "\x1b\\");
    proof {
        let fid = match file_id {
            Some(f) => Some(f@),
            None => None,
        };
        assert(out@ =~= upload_status_report(session_id@, fid, message@));
    }
    out
}

/// The reports owed for a failed upload: none when the program asked for
/// complete quiet, otherwise one status report.
pub fn upload_error_responses(session_id: &str, file_id: Option<&str>, quiet: u8, message: &str) -> (r:
    Vec<String>)
    ensures
        quiet == 2 ==> r@.len() == 0,
        quiet != 2 ==> r@.len() == 1 && r@[0]@ == upload_status_report(
            session_id@,
            match file_id {
                Some(f) => Some(f@),
                None => None,
            },
            message@,
        ),
{
    let mut out: Vec<String> = Vec::new();
    if quiet != 2 {
        out.push(upload_status(session_id, file_id, message));
    }
    out
}

/// The largest piece of upload data sent in one report.
pub const UPLOAD_CHUNK_BYTES: usize = 4096;

/// What zlib, at the default level, makes of `bytes`.
pub uninterp spec fn zlib_default(bytes: Seq<u8>) -> Seq<u8>;

/// Compresses `bytes` with `flate2::write::ZlibEncoder` at the default
/// level into a vector; when that succeeds, the result is named by
/// `zlib_default` of the bytes.
#[verifier::external_body]
fn compress_zlib(bytes: &[u8]) -> (r: Option<Vec<u8>>)
    ensures
        r matches Some(v) ==> v@ == zlib_default(bytes@),
{
    let mut encoder = flate2::write::ZlibEncoder::new(Vec::new(), flate2::Compression::default());
    match encoder.write_all(bytes) {
        Ok(()) => {},
        Err(_) => return None,
    }
    encoder.finish().ok()
}

/// The data report of one piece of an upload.
pub open spec fn upload_data_report(session_id: Seq<char>, file_id: Seq<char>, piece: Seq<u8>) -> Seq<
    char,
> {
    "\x1b]5113;ac=data;id="@ + session_id + ";fid="@ + file_id + ";d="@ + base64_standard(piece)
        + "\x1b\\"@
}

/// The report that ends an upload's data.
pub open spec fn upload_end_report(session_id: Seq<char>, file_id: Seq<char>) -> Seq<char> {
    "\x1b]5113;ac=end_data;id="@ + session_id + ";fid="@ + file_id + "\x1b\\"@
}

/// How many pieces of at most the chunk size `len` bytes make.
pub open spec fn chunk_count(len: nat) -> nat {
    ((len + UPLOAD_CHUNK_BYTES - 1) / (UPLOAD_CHUNK_BYTES as int)) as nat
}

/// The reports that carry `payload`: one per piece of at most the chunk
/// size, in order, then the end.
pub open spec fn upload_data_reports(session_id: Seq<char>, file_id: Seq<char>, payload: Seq<u8>) -> Seq<
    Seq<char>,
> {
    Seq::new(
        chunk_count(payload.len()),
        |k: int|
            upload_data_report(
                session_id,
                file_id,
                payload.subrange(
                    k * UPLOAD_CHUNK_BYTES,
                    if (k + 1) * UPLOAD_CHUNK_BYTES <= payload.len() {
                        (k + 1) * UPLOAD_CHUNK_BYTES
                    } else {
                        payload.len() as int
                    },
                ),
            ),
    ).push(upload_end_report(session_id, file_id))
}

/// The reports that send the contents `data` of an uploaded file,
/// compressed first when the program asked for it.
pub fn upload_data_frames(session_id: &str, file_id: &str, data: Vec<u8>, compressed: bool) -> (r:
    Vec<String>)
    ensures
        !compressed ==> r@.map_values(|s: String| s@) == upload_data_reports(
            session_id@,
            file_id@,
            data@,
        ),
        compressed ==> (r@.map_values(|s: String| s@) == upload_data_reports(
            session_id@,
            file_id@,
            zlib_default(data@),
        ) || (r@.len() == 1 && r@[0]@ == upload_status_report(
            session_id@,
            Some(file_id@),
            "EIO:Cannot compress upload data"@,
        ))),
{
    let payload = if compressed {
        match compress_zlib(data.as_slice()) {
            Some(packed) => packed,
            None => {
                let mut out: Vec<String> = Vec::new();
                out.push(upload_status(session_id, Some(file_id), "EIO:Cannot compress upload data"));
                return out;
            },
        }
    } else {
        data
    };
    let ghost p = payload@;
    let mut out: Vec<String> = Vec::new();
    let mut start: usize = 0;
    let mut k: usize = 0;
    let len = payload.len();
    while start < len
        invariant
            p == payload@,
            len == p.len(),
            start <= len,
            start < len ==> start == k * UPLOAD_CHUNK_BYTES,
            k <= chunk_count(p.len()),
            start < len ==> k < chunk_count(p.len()),
            start >= len ==> k == chunk_count(p.len()),
            out@.len() == k,
            forall|m: int|
                0 <= m < k ==> (#[trigger] out@[m])@ == upload_data_reports(
                    session_id@,
                    file_id@,
                    p,
                )[m],
        decreases len - start,
    {
        let end = if len - start >= UPLOAD_CHUNK_BYTES {
            start + UPLOAD_CHUNK_BYTES
        } else {
            len
        };
        let piece = vstd::slice::slice_subrange(payload.as_slice(), start, end);
        let mut report = String::new();
        push_str(&mut report, "\x1b]5113;ac=data;id=");
        push_str(&mut report, session_id);
        push_str(&mut report, ";fid=");
        push_str(&mut report, file_id);
        push_str(&mut report, ";d=");
        let encoded = encode_base64(piece);
        push_str(&mut report, encoded.as_str());
        push_str(&mut report, "\x1b\\");
        proof {
            assert(report@ =~= upload_data_report(session_id@, file_id@, p.subrange(
                start as int,
                end as int,
            )));
            lemma_chunk_count(p.len(), k as nat);
        }
        out.push(report);
        start = end;
        k = k + 1;
    }
    let mut end = String::new();
    push_str(&mut end, "\x1b]5113;ac=end_data;id=");
    push_str(&mut end, session_id);
    push_str(&mut end, ";fid=");
    push_str(&mut end, file_id);
    push_str(&mut end, "\x1b\\");
    out.push(end);
    proof {
        let reports = upload_data_reports(session_id@, file_id@, p);
        assert(out@.map_values(|s: String| s@) =~= reports);
    }
    out
}

proof fn lemma_chunk_count(len: nat, k: nat)
    ensures
        (k + 1) * UPLOAD_CHUNK_BYTES < len ==> k + 1 < chunk_count(len),
        (k + 1) * UPLOAD_CHUNK_BYTES >= len && k * UPLOAD_CHUNK_BYTES < len ==> k + 1 == chunk_count(
            len,
        ),
{
    let c = UPLOAD_CHUNK_BYTES as int;
    if (k + 1) * c < len {
        vstd::arithmetic::div_mod::lemma_div_plus_one(len + c - 1 - (k + 1) * c, c);
        assert((len + c - 1) / c > k + 1) by (nonlinear_arith)
            requires
                (k + 1) * c < len,
                c == 4096,
        ;
    }
    if (k + 1) * c >= len && k * c < len {
        assert((len + c - 1) / c == k + 1) by (nonlinear_arith)
            requires
                (k + 1) * c >= len,
                k * c < len,
                c == 4096,
        ;
    }
}

/// The pieces of `rest` between slashes, the first having begun with
/// `current`: an empty piece stands between two adjacent slashes and
/// after a final one.
pub open spec fn split_slashes_from(rest: Seq<char>, current: Seq<char>) -> Seq<Seq<char>>
    decreases rest.len(),
{
    if rest.len() == 0 {
        seq![current]
    } else if rest[0] == '/' {
        seq![current] + split_slashes_from(rest.drop_first(), Seq::empty())
    } else {
        split_slashes_from(rest.drop_first(), current.push(rest[0]))
    }
}

/// The pieces of `path` between slashes, as `str::split('/')` gives them.
pub open spec fn split_slashes(path: Seq<char>) -> Seq<Seq<char>> {
    split_slashes_from(path, Seq::empty())
}

/// Whether `component` may name an entry below a root: not empty, not a
/// dot or two, with no backslash, colon or control character.
pub open spec fn is_safe_component(component: Seq<char>) -> bool {
    &&& component.len() > 0
    &&& component != seq!['.']
    &&& component != seq!['.', '.']
    &&& forall|i: int|
        0 <= i < component.len() ==> {
            let c = #[trigger] component[i];
            c != '\\' && c != ':' && !is_control_char(c)
        }
}

/// Whether every piece is safe.
pub open spec fn all_safe(pieces: Seq<Seq<char>>) -> bool {
    forall|k: int| 0 <= k < pieces.len() ==> is_safe_component(#[trigger] pieces[k])
}

/// `path` without a leading `~/` or `/`, if it has one.
pub open spec fn strip_home_or_root(path: Seq<char>) -> Option<Seq<char>> {
    if path.len() >= 2 && path[0] == '~' && path[1] == '/' {
        Some(path.skip(2))
    } else if path.len() >= 1 && path[0] == '/' {
        Some(path.skip(1))
    } else {
        None
    }
}

proof fn lemma_split_step(s: Seq<char>, start: int, i: int)
    requires
        0 <= start <= i < s.len(),
    ensures
        split_slashes_from(s.skip(i), s.subrange(start, i)) == if s[i] == '/' {
            seq![s.subrange(start, i)] + split_slashes_from(s.skip(i + 1), s.subrange(i + 1, i + 1))
        } else {
            split_slashes_from(s.skip(i + 1), s.subrange(start, i + 1))
        },
{
    assert(s.skip(i).drop_first() =~= s.skip(i + 1));
    assert(s.skip(i)[0] == s[i]);
    assert(s.subrange(i + 1, i + 1) =~= Seq::<char>::empty());
    assert(s.subrange(start, i + 1) =~= s.subrange(start, i).push(s[i]));
}

/// Splits `relative` at its slashes, where every piece is safe.
pub fn safe_components(relative: &str) -> (r: Option<Vec<String>>)
    ensures
        r is Some <==> all_safe(split_slashes(relative@)),
        r matches Some(parts) ==> parts@.map_values(|p: String| p@) == split_slashes(relative@),
{
    let chars = chars_of(relative);
    let ghost t = chars@;
    let n = chars.len();
    let mut parts: Vec<String> = Vec::new();
    let mut start: usize = 0;
    let mut i: usize = 0;
    let mut piece_ok = true;
    proof {
        assert(t.skip(0) =~= t);
        assert(t.subrange(0, 0) =~= Seq::<char>::empty());
    }
    while i < n
        invariant
            t == chars@,
            t == relative@,
            n == t.len(),
            start <= i <= n,
            split_slashes(t) == parts@.map_values(|p: String| p@) + split_slashes_from(
                t.skip(i as int),
                t.subrange(start as int, i as int),
            ),
            forall|k: int| 0 <= k < parts@.len() ==> is_safe_component(#[trigger] parts@[k]@),
            piece_ok == forall|m: int|
                start <= m < i ==> {
                    let c = #[trigger] t[m];
                    c != '\\' && c != ':' && !is_control_char(c)
                },
        decreases n - i,
    {
        proof {
            lemma_split_step(t, start as int, i as int);
        }
        let c = chars[i];
        if c == '/' {
            let piece_len = i - start;
            let dot = piece_len == 1 && chars[start] == '.';
            let dots = piece_len == 2 && chars[start] == '.' && chars[start + 1] == '.';
            let ghost piece = t.subrange(start as int, i as int);
            proof {
                assert(piece.len() == piece_len);
                if piece_len >= 1 {
                    assert(piece[0] == t[start as int]);
                }
                if piece_len >= 2 {
                    assert(piece[1] == t[start + 1]);
                }
                if dot {
                    assert(piece =~= seq!['.']);
                }
                if dots {
                    assert(piece =~= seq!['.', '.']);
                }
                assert(seq!['.'].len() == 1 && seq!['.'][0] == '.');
                assert(seq!['.', '.'].len() == 2 && seq!['.', '.'][0] == '.' && seq!['.', '.'][1] == '.');
                assert(piece_ok == forall|m: int|
                    0 <= m < piece.len() ==> {
                        let c = #[trigger] piece[m];
                        c != '\\' && c != ':' && !is_control_char(c)
                    }) by {
                    if piece_ok {
                        assert forall|m: int| 0 <= m < piece.len() implies {
                            let c = #[trigger] piece[m];
                            c != '\\' && c != ':' && !is_control_char(c)
                        } by {
                            assert(piece[m] == t[start + m]);
                        }
                    } else {
                        let m = choose|m: int|
                            start <= m < i && !{
                                let c = #[trigger] t[m];
                                c != '\\' && c != ':' && !is_control_char(c)
                            };
                        assert(piece[m - start] == t[m]);
                    }
                }
            }
            if piece_len == 0 || dot || dots || !piece_ok {
                proof {
                    let k = parts@.len() as int;
                    assert(split_slashes(t)[k] == piece);
                }
                return None;
            }
            let text = relative.substring_char(start, i);
            let ghost before = parts@;
            parts.push(text.to_owned());
            proof {
                assert(parts@.map_values(|p: String| p@) =~= before.map_values(|p: String| p@).push(
                    piece,
                ));
                assert(parts@.map_values(|p: String| p@) + split_slashes_from(
                    t.skip(i + 1),
                    t.subrange(i + 1, i + 1),
                ) =~= before.map_values(|p: String| p@) + (seq![piece] + split_slashes_from(
                    t.skip(i + 1),
                    t.subrange(i + 1, i + 1),
                )));
            }
            start = i + 1;
            piece_ok = true;
        } else {
            piece_ok = piece_ok && c != '\\' && c != ':' && !is_control(c);
        }
        i = i + 1;
    }
    // The last piece runs to the end.
    let piece_len = n - start;
    let dot = piece_len == 1 && chars[start] == '.';
    let dots = piece_len == 2 && chars[start] == '.' && chars[start + 1] == '.';
    let ghost piece = t.subrange(start as int, n as int);
    proof {
        assert(t.skip(n as int) =~= Seq::<char>::empty());
        assert(split_slashes_from(t.skip(n as int), piece) == seq![piece]);
        assert(piece.len() == piece_len);
        if piece_len >= 1 {
            assert(piece[0] == t[start as int]);
        }
        if piece_len >= 2 {
            assert(piece[1] == t[start + 1]);
        }
        if dot {
            assert(piece =~= seq!['.']);
        }
        if dots {
            assert(piece =~= seq!['.', '.']);
        }
        assert(seq!['.'].len() == 1 && seq!['.'][0] == '.');
        assert(seq!['.', '.'].len() == 2 && seq!['.', '.'][0] == '.' && seq!['.', '.'][1] == '.');
        assert(piece_ok == forall|m: int|
            0 <= m < piece.len() ==> {
                let c = #[trigger] piece[m];
                c != '\\' && c != ':' && !is_control_char(c)
            }) by {
            if piece_ok {
                assert forall|m: int| 0 <= m < piece.len() implies {
                    let c = #[trigger] piece[m];
                    c != '\\' && c != ':' && !is_control_char(c)
                } by {
                    assert(piece[m] == t[start + m]);
                }
            } else {
                let m = choose|m: int|
                    start <= m < n && !{
                        let c = #[trigger] t[m];
                        c != '\\' && c != ':' && !is_control_char(c)
                    };
                assert(piece[m - start] == t[m]);
            }
        }
    }
    if piece_len == 0 || dot || dots || !piece_ok {
        proof {
            let k = parts@.len() as int;
            assert(split_slashes(t)[k] == piece);
        }
        return None;
    }
    let text = relative.substring_char(start, n);
    let ghost before = parts@;
    parts.push(text.to_owned());
    proof {
        assert(parts@.map_values(|p: String| p@) =~= before.map_values(|p: String| p@).push(piece));
        assert(split_slashes(t) =~= parts@.map_values(|p: String| p@));
        assert forall|k: int|
            0 <= k < split_slashes(t).len() implies is_safe_component(
            #[trigger] split_slashes(t)[k],
        ) by {
            assert(split_slashes(t)[k] == parts@[k]@);
        }
    }
    Some(parts)
}

/// The path below the configured root of a background image that a
/// program requested: the request without a leading `~/` or `/`, split at
/// its slashes. Refused when nothing remains or a piece is unsafe.
pub fn background_image_components(requested: &str) -> (r: Result<Vec<String>, String>)
    ensures
        background_relative(requested@).len() == 0 ==> (r matches Err(e) && e@
            == "OSC background-image path is empty"@),
        background_relative(requested@).len() > 0 && all_safe(
            split_slashes(background_relative(requested@)),
        ) ==> (r matches Ok(parts) && parts@.map_values(|p: String| p@) == split_slashes(
            background_relative(requested@),
        )),
        background_relative(requested@).len() > 0 && !all_safe(
            split_slashes(background_relative(requested@)),
        ) ==> (r matches Err(e) && e@ == "OSC background-image path is outside the configured root"@),
{
    let relative = strip_home_or_root_exec(requested);
    let relative = match relative {
        Some(rest) => rest,
        None => requested,
    };
    assert(relative@ == background_relative(requested@));
    if relative.unicode_len() == 0 {
        return Err(String::from_str("OSC background-image path is empty"));
    }
    match safe_components(relative) {
        Some(parts) => Ok(parts),
        None => Err(String::from_str("OSC background-image path is outside the configured root")),
    }
}

/// A requested background image path without a leading `~/` or `/`.
pub open spec fn background_relative(requested: Seq<char>) -> Seq<char> {
    match strip_home_or_root(requested) {
        Some(rest) => rest,
        None => requested,
    }
}

/// Where a path that a program asks to upload lies below the upload root:
/// the pieces to join to the root, and the path as the transfer names it,
/// beginning with a slash. The request must begin with `~/` or `/`; what
/// follows is split at its slashes, and refused if a piece is empty, a dot
/// or two, or holds a backslash, a colon or a control character. Nothing
/// after the leading slash names the root itself.
pub fn resolve_upload_path(requested: &str) -> (r: Option<(Vec<String>, String)>)
    ensures
        strip_home_or_root(requested@) is None ==> r is None,
        strip_home_or_root(requested@) matches Some(relative) ==> if relative.len() == 0 {
            r matches Some((parts, path)) && parts@.len() == 0 && path@ == seq!['/']
        } else {
            &&& r is Some <==> all_safe(split_slashes(relative))
            &&& r matches Some((parts, path)) ==> parts@.map_values(|p: String| p@) == split_slashes(
                relative,
            ) && path@ == seq!['/'] + relative
        },
        r matches Some((parts, path)) ==> all_safe(parts@.map_values(|p: String| p@)) && path@.len()
            > 0 && path@[0] == '/',
{
    let relative = match strip_home_or_root_exec(requested) {
        Some(rest) => rest,
        None => {
            return None;
        },
    };
    let mut path = String::new();
    push_str(&mut path, "/");
    proof {
        reveal_strlit("/");
    }
    if relative.unicode_len() == 0 {
        let parts: Vec<String> = Vec::new();
        proof {
            assert(path@ =~= seq!['/']);
            assert(parts@.map_values(|p: String| p@) =~= Seq::<Seq<char>>::empty());
        }
        return Some((parts, path));
    }
    match safe_components(relative) {
        Some(parts) => {
            push_str(&mut path, relative);
            proof {
                assert(path@ =~= seq!['/'] + relative@);
            }
            Some((parts, path))
        },
        None => None,
    }
}

fn strip_home_or_root_exec(path: &str) -> (r: Option<&str>)
    ensures
        r matches Some(rest) ==> strip_home_or_root(path@) == Some(rest@),
        r is None ==> strip_home_or_root(path@) is None,
{
    let n = path.unicode_len();
    if n >= 2 && path.get_char(0) == '~' && path.get_char(1) == '/' {
        Some(path.substring_char(2, n))
    } else if n >= 1 && path.get_char(0) == '/' {
        Some(path.substring_char(1, n))
    } else {
        None
    }
}

/// Where a requested upload lies below the upload root: the pieces of the
/// request after its leading `~/` or `/`, and its path as the program sees
/// it, from a leading slash. A request without that prefix, or with an
/// unsafe piece, is refused; an empty rest names the root itself.
pub fn upload_request_path(requested: &str) -> (r: Option<(Vec<String>, String)>)
    ensures
        match strip_home_or_root(requested@) {
            None => r is None,
            Some(relative) => if relative.len() == 0 {
                r matches Some((parts, path)) && parts@.len() == 0 && path@ == seq!['/']
            } else if all_safe(split_slashes(relative)) {
                r matches Some((parts, path)) && parts@.map_values(|p: String| p@) == split_slashes(
                    relative,
                ) && path@ == seq!['/'] + relative
            } else {
                r is None
            },
        },
{
    let relative = match strip_home_or_root_exec(requested) {
        Some(rest) => rest,
        None => return None,
    };
    let mut path = String::new();
    push_str(&mut path, "/");
    proof {
        reveal_strlit("/");
    }
    if relative.unicode_len() == 0 {
        return Some((Vec::new(), path));
    }
    match safe_components(relative) {
        Some(parts) => {
            push_str(&mut path, relative);
            Some((parts, path))
        },
        None => None,
    }
}

} // verus!
