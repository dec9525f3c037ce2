//! Windows path handling: file names, extensions, parent directories and joins,
//! following the rules of Rust's `std::path` on Windows for drive-letter,
//! UNC, rooted and relative paths (verbatim `\\?\` and device `\\.\` prefixes are read as
//! plain text).

use vstd::prelude::*;
use crate::text::{chars_of, string_of, lower_chars, ascii_lower};

verus! {

/// A path separator: `\` or `/`.
pub open spec fn is_sep(c: char) -> bool {
    c == '\\' || c == '/'
}

/// An ASCII letter.
pub open spec fn is_letter(c: char) -> bool {
    ('a' <= c && c <= 'z') || ('A' <= c && c <= 'Z')
}

/// Where the component of `s` that starts at `i` ends: at the next separator, or at the end.
pub open spec fn comp_end(s: Seq<char>, i: int) -> int
    decreases s.len() - i,
{
    if i < 0 || i >= s.len() || is_sep(s[i]) {
        i
    } else {
        comp_end(s, i + 1)
    }
}

/// The length of a UNC prefix `\\server\share` (either separator), or 0. Server and
/// share must not be empty; `\\?\` and `\\.\` forms are not taken as UNC.
pub open spec fn unc_len(s: Seq<char>) -> int {
    if s.len() >= 2 && is_sep(s[0]) && is_sep(s[1]) && !(s.len() >= 4 && (s[2] == '?' || s[2]
        == '.') && is_sep(s[3])) {
        let e1 = comp_end(s, 2);
        if e1 > 2 && e1 < s.len() && comp_end(s, e1 + 1) > e1 + 1 {
            comp_end(s, e1 + 1)
        } else {
            0
        }
    } else {
        0
    }
}

/// The length of the path's prefix: a drive such as `C:`, a UNC `\\server\share`, or 0.
pub open spec fn prefix_len(s: Seq<char>) -> int {
    if s.len() >= 2 && s[1] == ':' && is_letter(s[0]) {
        2
    } else {
        unc_len(s)
    }
}

/// Where the components of `s` begin: after the prefix, the root separator,
/// or a leading `.` component.
pub open spec fn body_start(s: Seq<char>) -> int {
    let p = prefix_len(s);
    if s.len() > p && is_sep(s[p]) {
        p + 1
    } else if s.len() > p && s[p] == '.' && (s.len() == p + 1 || is_sep(s[p + 1])) {
        p + 1
    } else {
        p
    }
}

/// `s` without trailing separators and trailing `.` components, never cutting below `b`.
pub open spec fn trim_back(s: Seq<char>, b: int) -> Seq<char>
    decreases s.len(),
{
    if s.len() > b && s.len() > 0 && is_sep(s.last()) {
        trim_back(s.drop_last(), b)
    } else if s.len() > b && s.len() > 0 && s.last() == '.' && (s.len() - 1 == b || (s.len()
        >= 2 && is_sep(s[s.len() - 2]))) {
        trim_back(s.drop_last(), b)
    } else {
        s
    }
}

/// The index just after the last separator of `s`, or 0.
pub open spec fn after_last_sep(s: Seq<char>) -> int
    decreases s.len(),
{
    if s.len() == 0 {
        0
    } else if is_sep(s.last()) {
        s.len() as int
    } else {
        after_last_sep(s.drop_last())
    }
}

/// Where the last component of `s` begins (`s` already trimmed).
pub open spec fn last_start(t: Seq<char>, b: int) -> int {
    let k = after_last_sep(t);
    if k < b {
        b
    } else {
        k
    }
}

/// The final component of a path, unless the path ends in a root, a prefix or `..`
/// (`Path::file_name`).
pub open spec fn file_name(s: Seq<char>) -> Option<Seq<char>> {
    let b = body_start(s);
    let t = trim_back(s, b);
    let c = t.skip(last_start(t, b));
    if t.len() <= b || c == ".."@ {
        None
    } else {
        Some(c)
    }
}

/// The path without its final component (`Path::parent`): `None` when nothing but a
/// root or prefix is left.
pub open spec fn parent(s: Seq<char>) -> Option<Seq<char>> {
    let p = prefix_len(s);
    let b = body_start(s);
    let t = trim_back(s, b);
    if t.len() <= b {
        if b > p && !is_sep(s[p]) {
            Some(s.take(p))
        } else {
            None
        }
    } else {
        Some(trim_back(t.take(last_start(t, b)), b))
    }
}

/// The index of the last `c` in `s`, or -1.
pub open spec fn last_index_of(s: Seq<char>, c: char) -> int
    decreases s.len(),
{
    if s.len() == 0 {
        -1
    } else if s.last() == c {
        s.len() - 1
    } else {
        last_index_of(s.drop_last(), c)
    }
}

/// The text after the last `.` of the file name, unless that dot starts the name
/// (`Path::extension`).
pub open spec fn extension(s: Seq<char>) -> Option<Seq<char>> {
    match file_name(s) {
        Some(n) => {
            let d = last_index_of(n, '.');
            if d <= 0 {
                None
            } else {
                Some(n.skip(d + 1))
            }
        },
        None => None,
    }
}

/// The lower-cased extension of a path, or empty when it has none.
pub open spec fn lower_extension(s: Seq<char>) -> Seq<char> {
    match extension(s) {
        Some(e) => ascii_lower(e),
        None => Seq::empty(),
    }
}

/// `base` with `name` appended (`PathBuf::push`): a name with a prefix (such as `C:x`)
/// replaces `base`; a name with a root (a leading separator) keeps only the prefix of
/// `base`; else a `\` goes between them unless `base` is empty, ends with a separator,
/// or is a bare drive prefix.
pub open spec fn join(base: Seq<char>, name: Seq<char>) -> Seq<char> {
    if prefix_len(name) > 0 {
        name
    } else if name.len() > 0 && is_sep(name[0]) {
        base.take(prefix_len(base)) + name
    } else if base.len() == 0 || is_sep(base.last()) || (prefix_len(base) == 2 && base.len() == 2) {
        base + name
    } else {
        base + seq!['\\'] + name
    }
}

fn is_sep_char(c: char) -> (b: bool)
    ensures
        b == is_sep(c),
{
    c == '\\' || c == '/'
}

proof fn lemma_comp_end_bound(s: Seq<char>, i: int)
    requires
        0 <= i <= s.len(),
    ensures
        i <= comp_end(s, i) <= s.len(),
    decreases s.len() - i,
{
    if i < s.len() && !is_sep(s[i]) {
        lemma_comp_end_bound(s, i + 1);
    }
}

fn comp_end_of(s: &[char], i: usize) -> (r: usize)
    requires
        i <= s.len(),
    ensures
        r == comp_end(s@, i as int),
        i <= r <= s.len(),
{
    let mut j = i;
    proof {
        lemma_comp_end_bound(s@, i as int);
    }
    while j < s.len() && !is_sep_char(s[j])
        invariant
            i <= j <= s.len(),
            comp_end(s@, j as int) == comp_end(s@, i as int),
        decreases s.len() - j,
    {
        j += 1;
    }
    j
}

fn prefix_len_of(s: &[char]) -> (r: usize)
    ensures
        r == prefix_len(s@),
        r <= s.len(),
{
    if s.len() >= 2 && s[1] == ':' && (('a' <= s[0] && s[0] <= 'z') || ('A' <= s[0] && s[0]
        <= 'Z')) {
        return 2;
    }
    if s.len() >= 2 && is_sep_char(s[0]) && is_sep_char(s[1]) && !(s.len() >= 4 && (s[2] == '?'
        || s[2] == '.') && is_sep_char(s[3])) {
        let e1 = comp_end_of(s, 2);
        if e1 > 2 && e1 < s.len() {
            let e2 = comp_end_of(s, e1 + 1);
            if e2 > e1 + 1 {
                return e2;
            }
        }
    }
    0
}

fn body_start_of(s: &[char]) -> (r: usize)
    ensures
        r == body_start(s@),
        r <= s.len(),
{
    let p = prefix_len_of(s);
    if s.len() > p && is_sep_char(s[p]) {
        p + 1
    } else if s.len() > p && s[p] == '.' && (s.len() == p + 1 || is_sep_char(s[p + 1])) {
        p + 1
    } else {
        p
    }
}

/// The length of `trim_back(s.take(n), b)`.
fn trim_back_len(s: &[char], n: usize, b: usize) -> (r: usize)
    requires
        n <= s.len(),
    ensures
        r <= n,
        s@.take(n as int).take(r as int) == trim_back(s@.take(n as int), b as int),
{
    let mut m: usize = n;
    assert(s@.take(n as int).take(n as int) == s@.take(n as int));
    while m > b && (is_sep_char(s[m - 1]) || (s[m - 1] == '.' && (m - 1 == b || (m >= 2
        && is_sep_char(s[m - 2])))))
        invariant
            m <= n <= s.len(),
            trim_back(s@.take(m as int), b as int) == trim_back(s@.take(n as int), b as int),
            s@.take(n as int).take(m as int) == s@.take(m as int),
        decreases m,
    {
        assert(s@.take(m as int).drop_last() == s@.take(m - 1));
        assert(s@.take(n as int).take(m - 1) == s@.take(m - 1));
        m -= 1;
    }
    m
}

/// The value of `after_last_sep(s.take(n))`.
fn after_last_sep_of(s: &[char], n: usize) -> (r: usize)
    requires
        n <= s.len(),
    ensures
        r <= n,
        r == after_last_sep(s@.take(n as int)),
{
    let mut m: usize = n;
    while m > 0 && !is_sep_char(s[m - 1])
        invariant
            m <= n <= s.len(),
            after_last_sep(s@.take(m as int)) == after_last_sep(s@.take(n as int)),
        decreases m,
    {
        assert(s@.take(m as int).drop_last() == s@.take(m - 1));
        m -= 1;
    }
    m
}

fn slice_to_vec(s: &[char], from: usize, to: usize) -> (r: Vec<char>)
    requires
        from <= to <= s.len(),
    ensures
        r@ == s@.subrange(from as int, to as int),
{
    let mut r: Vec<char> = Vec::new();
    let mut i: usize = from;
    while i < to
        invariant
            from <= i <= to <= s.len(),
            r@ == s@.subrange(from as int, i as int),
        decreases to - i,
    {
        r.push(s[i]);
        i += 1;
        assert(r@ == s@.subrange(from as int, i as int));
    }
    r
}

/// Where the final component of `s` lies: `Some((start, end))` when `file_name` is some.
fn file_name_bounds(s: &[char]) -> (r: Option<(usize, usize)>)
    ensures
        match r {
            Some((a, e)) => a <= e <= s.len() && file_name(s@) == Some(s@.subrange(
                a as int,
                e as int,
            )),
            None => file_name(s@) is None,
        },
{
    let b = body_start_of(s);
    let tl = trim_back_len(s, s.len(), b);
    assert(s@.take(s.len() as int) == s@);
    let ghost t = trim_back(s@, b as int);
    let k = after_last_sep_of(s, tl);
    let st = if k < b {
        b
    } else {
        k
    };
    if tl <= b {
        return None;
    }
    assert(st <= tl);
    assert(t.skip(last_start(t, b as int)) == s@.subrange(st as int, tl as int));
    proof {
        crate::text::reveal_dots();
    }
    if tl - st == 2 && s[st] == '.' && s[st + 1] == '.' {
        assert(s@.subrange(st as int, tl as int) == ".."@);
        return None;
    }
    assert(s@.subrange(st as int, tl as int) != ".."@) by {
        if s@.subrange(st as int, tl as int) == ".."@ {
            assert(s@.subrange(st as int, tl as int)[0] == '.');
            assert(s@.subrange(st as int, tl as int)[1] == '.');
        }
    }
    Some((st, tl))
}

/// The final component of a path (see `file_name`).
pub fn path_file_name(path: &str) -> (r: Option<String>)
    ensures
        match r {
            Some(n) => file_name(path@) == Some(n@),
            None => file_name(path@) is None,
        },
{
    let s = chars_of(path);
    match file_name_bounds(s.as_slice()) {
        Some((a, e)) => Some(string_of(slice_to_vec(s.as_slice(), a, e).as_slice())),
        None => None,
    }
}

/// Where the extension of `s` lies (see `extension`).
fn extension_bounds(s: &[char]) -> (r: Option<(usize, usize)>)
    ensures
        match r {
            Some((a, e)) => a <= e <= s.len() && extension(s@) == Some(s@.subrange(
                a as int,
                e as int,
            )),
            None => extension(s@) is None,
        },
{
    match file_name_bounds(s) {
        None => None,
        Some((a, e)) => {
            let ghost n = s@.subrange(a as int, e as int);
            let mut d: usize = e;
            assert(n.take(e - a) == n);
            while d > a && s[d - 1] != '.'
                invariant
                    a <= d <= e <= s.len(),
                    n == s@.subrange(a as int, e as int),
                    last_index_of(n.take(d - a), '.') == last_index_of(n, '.'),
                decreases d,
            {
                assert(n.take(d - a).drop_last() == n.take(d - a - 1));
                d -= 1;
            }
            if d - a <= 1 {
                if d - a == 1 {
                    assert(n.take(1).drop_last() == n.take(0));
                }
                return None;
            }
            assert(last_index_of(n, '.') == d - 1 - a) by {
                assert(n.take(d - a).last() == '.');
            }
            assert(n.skip(d - a) == s@.subrange(d as int, e as int));
            Some((d, e))
        },
    }
}

/// The lower-cased extension of a path, or empty (see `lower_extension`).
pub fn file_ext(path: &str) -> (r: String)
    ensures
        r@ == lower_extension(path@),
{
    let s = chars_of(path);
    match extension_bounds(s.as_slice()) {
        Some((a, e)) => {
            let x = slice_to_vec(s.as_slice(), a, e);
            string_of(lower_chars(x.as_slice()).as_slice())
        },
        None => {
            assert(ascii_lower(Seq::<char>::empty()) == Seq::<char>::empty());
            String::new()
        },
    }
}

/// The length of `parent(s)`, which is always a prefix of `s`.
fn parent_len(s: &[char]) -> (r: Option<usize>)
    ensures
        match r {
            Some(n) => n <= s.len() && parent(s@) == Some(s@.take(n as int)),
            None => parent(s@) is None,
        },
{
    let p = prefix_len_of(s);
    let b = body_start_of(s);
    let tl = trim_back_len(s, s.len(), b);
    assert(s@.take(s.len() as int) == s@);
    if tl <= b {
        if b > p && !is_sep_char(s[p]) {
            return Some(p);
        } else {
            return None;
        }
    }
    let ghost t = trim_back(s@, b as int);
    let k = after_last_sep_of(s, tl);
    let st = if k < b {
        b
    } else {
        k
    };
    assert(t.take(last_start(t, b as int)) == s@.take(st as int));
    let n = trim_back_len(s, st, b);
    assert(s@.take(st as int).take(n as int) == s@.take(n as int));
    Some(n)
}

/// The directory part of a path (see `parent`).
pub fn path_parent(path: &str) -> (r: Option<String>)
    ensures
        match r {
            Some(d) => parent(path@) == Some(d@),
            None => parent(path@) is None,
        },
{
    let s = chars_of(path);
    match parent_len(s.as_slice()) {
        Some(n) => Some(string_of(slice_to_vec(s.as_slice(), 0, n).as_slice())),
        None => None,
    }
}

/// Appends a name to a path (see `join`).
pub fn join_path(base: &str, name: &str) -> (r: String)
    ensures
        r@ == join(base@, name@),
{
    let n = chars_of(name);
    if prefix_len_of(n.as_slice()) > 0 {
        return string_of(n.as_slice());
    }
    let s = chars_of(base);
    if n.len() > 0 && is_sep_char(n[0]) {
        let p = prefix_len_of(s.as_slice());
        let mut r = string_of(slice_to_vec(s.as_slice(), 0, p).as_slice());
        proof {
            assert(s@.subrange(0, p as int) == s@.take(p as int));
        }
        r.append(name);
        return r;
    }
    let mut r = string_of(s.as_slice());
    if !(s.len() == 0 || is_sep_char(s[s.len() - 1]) || (prefix_len_of(s.as_slice()) == 2
        && s.len() == 2)) {
        crate::text::push_char(&mut r, '\\');
    }
    r.append(name);
    r
}

/// The temporary file written before `path` is replaced: the file name with `.tmp`
/// appended, in the same directory.
pub open spec fn tmp_path_of(s: Seq<char>) -> Seq<char> {
    match file_name(s) {
        Some(n) => join(parent(s)->0, n + ".tmp"@),
        None => join(s, ".tmp"@),
    }
}

/// The path of the temporary file used to replace `path` (see `tmp_path_of`).
pub fn tmp_path(path: &str) -> (r: String)
    ensures
        r@ == tmp_path_of(path@),
{
    let s = chars_of(path);
    match file_name_bounds(s.as_slice()) {
        Some((a, e)) => {
            let mut name = string_of(slice_to_vec(s.as_slice(), a, e).as_slice());
            name.append(".tmp");
            let dir = match parent_len(s.as_slice()) {
                Some(n) => string_of(slice_to_vec(s.as_slice(), 0, n).as_slice()),
                None => {
                    proof {
                        lemma_file_name_has_parent(s@);
                    }
                    String::new()
                },
            };
            join_path(dir.as_str(), name.as_str())
        },
        None => join_path(path, ".tmp"),
    }
}

proof fn lemma_file_name_has_parent(s: Seq<char>)
    requires
        file_name(s) is Some,
    ensures
        parent(s) is Some,
{
}

/// `config.json` in the data directory.
pub fn config_path(data_dir: &str) -> (r: String)
    ensures
        r@ == join(data_dir@, "config.json"@),
{
    join_path(data_dir, "config.json")
}

/// The `icons` directory in the data directory.
pub fn icons_dir(data_dir: &str) -> (r: String)
    ensures
        r@ == join(data_dir@, "icons"@),
{
    join_path(data_dir, "icons")
}

/// `window.json` in the data directory.
pub fn window_path(data_dir: &str) -> (r: String)
    ensures
        r@ == join(data_dir@, "window.json"@),
{
    join_path(data_dir, "window.json")
}

/// `config.json.bak` in the data directory: the previous good configuration.
pub fn backup_path(data_dir: &str) -> (r: String)
    ensures
        r@ == join(data_dir@, "config.json.bak"@),
{
    join_path(data_dir, "config.json.bak")
}

/// The portable data directory: `data` beside the executable.
pub fn portable_data_dir(exe_dir: &str) -> (r: String)
    ensures
        r@ == join(exe_dir@, "data"@),
{
    join_path(exe_dir, "data")
}

/// Where the data lives: the portable directory when the executable's directory is known
/// and its `data` directory is writable, else `SecAxis\data` under `%APPDATA%`, or
/// under the temporary directory when `%APPDATA%` is not set.
pub open spec fn data_dir_choice(
    exe_dir: Option<Seq<char>>,
    portable_writable: bool,
    appdata: Option<Seq<char>>,
    temp_dir: Seq<char>,
) -> Seq<char> {
    if exe_dir is Some && portable_writable {
        join(exe_dir->0, "data"@)
    } else {
        let base = if appdata is Some {
            appdata->0
        } else {
            temp_dir
        };
        join(join(base, "SecAxis"@), "data"@)
    }
}

/// Chooses the data directory (see `data_dir_choice`); `portable_writable` tells
/// whether `portable_data_dir` of `exe_dir` could be written.
pub fn choose_data_dir(
    exe_dir: Option<&str>,
    portable_writable: bool,
    appdata: Option<&str>,
    temp_dir: &str,
) -> (r: String)
    ensures
        r@ == data_dir_choice(
            match exe_dir {
                Some(d) => Some(d@),
                None => None,
            },
            portable_writable,
            match appdata {
                Some(a) => Some(a@),
                None => None,
            },
            temp_dir@,
        ),
{
    if let Some(dir) = exe_dir {
        if portable_writable {
            return portable_data_dir(dir);
        }
    }
    let base = match appdata {
        Some(a) => a,
        None => temp_dir,
    };
    let app = join_path(base, "SecAxis");
    join_path(app.as_str(), "data")
}

} // verus!
