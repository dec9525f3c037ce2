//! Tool icons: the file name an extracted icon is saved under, which icon names may
//! be read, the pixel conversion of an extracted bitmap, and the data URL an icon is
//! served as.

use vstd::prelude::*;
use base64::Engine;
use crate::text::{chars_of, digit, owned, push_char, has_char};
use crate::paths::{join, join_path};

verus! {

/// The lower-case hex digit for `d < 16`.
pub open spec fn hex_digit(d: nat) -> char {
    if d < 10 {
        digit(d)
    } else {
        ((d + 87) as u32) as char
    }
}

/// The last `n` lower-case hex digits of `h`, zero-padded (`{:0n$x}` for `h < 16^n`).
pub open spec fn hex_padded(h: nat, n: nat) -> Seq<char>
    decreases n,
{
    if n == 0 {
        Seq::empty()
    } else {
        hex_padded(h / 16, (n - 1) as nat).push(hex_digit(h % 16))
    }
}

fn hex_pad(h: u64, n: usize) -> (s: String)
    ensures
        s@ == hex_padded(h as nat, n as nat),
    decreases n,
{
    if n == 0 {
        return String::new();
    }
    let mut s = hex_pad(h / 16, n - 1);
    let d = (h % 16) as u8;
    let c: char = if d < 10 {
        (d + 48) as char
    } else {
        (d + 87) as char
    };
    push_char(&mut s, c);
    s
}

/// The file name of an icon extracted from an EXE whose path hashes to `hash`.
pub open spec fn icon_name_for(hash: u64) -> Seq<char> {
    "exe-"@ + hex_padded(hash as nat, 16) + ".png"@
}

/// The file name of an extracted icon: `exe-`, the hash as 16 hex digits, `.png`.
pub fn icon_file_name(hash: u64) -> (r: String)
    ensures
        r@ == icon_name_for(hash),
{
    let mut r = owned("exe-");
    let h = hex_pad(hash, 16);
    r.append(h.as_str());
    r.append(".png");
    r
}

/// `s` holds two dots in a row.
pub open spec fn has_dot_dot(s: Seq<char>) -> bool {
    exists|i: int| 0 <= i && i + 1 < s.len() && #[trigger] s[i] == '.' && s[i + 1] == '.'
}

/// An icon name that stays inside the icons directory: not empty, no separator, no `..`.
pub open spec fn safe_icon_name(n: Seq<char>) -> bool {
    n.len() > 0 && !n.contains('/') && !n.contains('\\') && !has_dot_dot(n)
}

/// Whether an icon name stays inside the icons directory (see `safe_icon_name`).
pub fn is_safe_icon_name(name: &str) -> (b: bool)
    ensures
        b == safe_icon_name(name@),
{
    let v = chars_of(name);
    if v.len() == 0 || has_char(v.as_slice(), '/') || has_char(v.as_slice(), '\\') {
        return false;
    }
    let mut i: usize = 0;
    while i < v.len() - 1
        invariant
            v.len() > 0,
            v@ == name@,
            i <= v.len() - 1,
            forall|j: int| 0 <= j < i && j + 1 < v@.len() ==> !(#[trigger] v@[j] == '.' && v@[j + 1] == '.'),
        decreases v.len() - i,
    {
        if v[i] == '.' && v[i + 1] == '.' {
            assert(v@[i as int] == '.' && v@[i + 1] == '.');
            assert(i + 1 < v@.len());
            assert(has_dot_dot(v@));
            return false;
        }
        i += 1;
    }
    true
}

/// The path of an icon in the data directory's `icons` directory, or why its name is refused.
pub fn icon_path(data_dir: &str, name: &str) -> (r: Result<String, String>)
    ensures
        match r {
            Ok(p) => safe_icon_name(name@) && p@ == join(join(data_dir@, "icons"@), name@),
            Err(m) => !safe_icon_name(name@) && m@ == "非法图标名"@,
        },
{
    if !is_safe_icon_name(name) {
        return Err(owned("非法图标名"));
    }
    let dir = join_path(data_dir, "icons");
    Ok(join_path(dir.as_str(), name))
}

/// The character of the standard base64 alphabet (`A-Z a-z 0-9 + /`) for a 6-bit value.
pub open spec fn b64_char(v: int) -> char {
    if v < 26 {
        (65 + v) as char
    } else if v < 52 {
        (97 + v - 26) as char
    } else if v < 62 {
        (48 + v - 52) as char
    } else if v == 62 {
        '+'
    } else {
        '/'
    }
}

/// Standard base64 with `=` padding (RFC 4648): every 3 bytes become 4 characters of
/// 6 bits each; a last group of 1 or 2 bytes is padded with `=` to 4 characters.
pub open spec fn base64_of(b: Seq<u8>) -> Seq<char>
    decreases b.len(),
{
    if b.len() == 0 {
        Seq::empty()
    } else {
        let x = b[0] as int;
        if b.len() == 1 {
            seq![b64_char(x / 4), b64_char((x % 4) * 16), '=', '=']
        } else {
            let y = b[1] as int;
            if b.len() == 2 {
                seq![b64_char(x / 4), b64_char((x % 4) * 16 + y / 16), b64_char((y % 16) * 4), '=']
            } else {
                let z = b[2] as int;
                seq![
                    b64_char(x / 4),
                    b64_char((x % 4) * 16 + y / 16),
                    b64_char((y % 16) * 4 + z / 64),
                    b64_char(z % 64),
                ] + base64_of(b.skip(3))
            }
        }
    }
}

/// base64's `engine::general_purpose::STANDARD.encode`: the standard, padded base64
/// text of `bytes` (see `base64_of`). It panics only when the encoded length overflows
/// `usize`, which the `requires` rules out.
#[verifier::external_body]
fn base64_encode(bytes: &[u8]) -> (s: String)
    requires
        bytes@.len() / 3 * 4 + 4 <= usize::MAX,
    ensures
        s@ == base64_of(bytes@),
{
    base64::engine::general_purpose::STANDARD.encode(bytes)
}

/// The PNG data URL of base64 text.
pub open spec fn png_data_url(b64: Seq<char>) -> Seq<char> {
    "data:image/png;base64,"@ + b64
}

/// The PNG data URL of base64 text (see `png_data_url`).
pub fn data_url_from_base64(b64: &str) -> (r: String)
    ensures
        r@ == png_data_url(b64@),
{
    let mut r = owned("data:image/png;base64,");
    r.append(b64);
    r
}

/// The data URL an icon file's bytes are served as (icons are always PNG).
pub fn icon_data_url(bytes: &[u8]) -> (r: String)
    requires
        bytes@.len() / 3 * 4 + 4 <= usize::MAX,
    ensures
        r@ == png_data_url(base64_of(bytes@)),
{
    let b64 = base64_encode(bytes);
    data_url_from_base64(b64.as_str())
}

/// Some pixel (a complete 4-byte group) has a non-zero alpha byte.
pub open spec fn alpha_present(b: Seq<u8>) -> bool {
    exists|k: int| 0 <= k && 4 * k + 3 < b.len() && #[trigger] b[4 * k + 3] != 0
}

/// A bitmap read as BGRA turned into RGBA: in every complete 4-byte pixel the first
/// and third bytes swap, and when no pixel has any alpha the alpha bytes become 255
/// (an icon without an alpha channel is opaque). Trailing bytes stay as they are.
pub open spec fn rgba_of(b: Seq<u8>) -> Seq<u8> {
    Seq::new(
        b.len(),
        |i: int|
            {
                let base = i - i % 4;
                if base + 3 >= b.len() {
                    b[i]
                } else if i % 4 == 0 {
                    b[i + 2]
                } else if i % 4 == 2 {
                    b[i - 2]
                } else if i % 4 == 3 && !alpha_present(b) {
                    255u8
                } else {
                    b[i]
                }
            },
    )
}

/// The bitmap with the first and third bytes of every complete pixel swapped.
pub open spec fn swapped_of(b: Seq<u8>) -> Seq<u8> {
    Seq::new(
        b.len(),
        |j: int|
            if j - j % 4 + 3 >= b.len() {
                b[j]
            } else if j % 4 == 0 {
                b[j + 2]
            } else if j % 4 == 2 {
                b[j - 2]
            } else {
                b[j]
            },
    )
}

fn swap_red_blue(buf: &mut Vec<u8>)
    ensures
        final(buf)@ == swapped_of(old(buf)@),
{
    let ghost orig = buf@;
    let n = buf.len();
    let mut i: usize = 0;
    while n - i >= 4
        invariant
            n == buf.len() == orig.len(),
            i % 4 == 0,
            i <= n,
            forall|j: int|
                0 <= j < n ==> #[trigger] buf@[j] == if j < i {
                    swapped_of(orig)[j]
                } else {
                    orig[j]
                },
        decreases n - i,
    {
        let b0 = buf[i];
        let b2 = buf[i + 2];
        buf.set(i, b2);
        buf.set(i + 2, b0);
        i += 4;
    }
    assert(buf@ =~= swapped_of(orig));
}

fn any_alpha(buf: &Vec<u8>) -> (b: bool)
    ensures
        b == alpha_present(buf@),
{
    let n = buf.len();
    let mut k: usize = 0;
    while n - k >= 4
        invariant
            n == buf.len(),
            k % 4 == 0,
            k <= n,
            forall|m: int| 0 <= m && 4 * m + 3 < k ==> #[trigger] buf@[4 * m + 3] == 0,
        decreases n - k,
    {
        if buf[k + 3] != 0 {
            assert(buf@[4 * (k as int / 4) + 3] != 0);
            return true;
        }
        k += 4;
    }
    assert(!alpha_present(buf@)) by {
        if alpha_present(buf@) {
            let m = choose|m: int| 0 <= m && 4 * m + 3 < buf@.len() && #[trigger] buf@[4 * m + 3] != 0;
            assert(4 * m + 3 < k);
        }
    }
    false
}

fn make_opaque(buf: &mut Vec<u8>)
    ensures
        final(buf)@ == Seq::new(
            old(buf)@.len(),
            |j: int|
                if j % 4 == 3 && j - j % 4 + 3 < old(buf)@.len() {
                    255u8
                } else {
                    old(buf)@[j]
                },
        ),
{
    let ghost orig = buf@;
    let n = buf.len();
    let mut p: usize = 0;
    while n - p >= 4
        invariant
            n == buf.len() == orig.len(),
            p % 4 == 0,
            p <= n,
            forall|j: int|
                0 <= j < n ==> #[trigger] buf@[j] == if j < p && j % 4 == 3 {
                    255u8
                } else {
                    orig[j]
                },
        decreases n - p,
    {
        buf.set(p + 3, 255u8);
        p += 4;
    }
    assert(buf@ =~= Seq::new(
        orig.len(),
        |j: int|
            if j % 4 == 3 && j - j % 4 + 3 < orig.len() {
                255u8
            } else {
                orig[j]
            },
    ));
}

/// Turns a BGRA bitmap into RGBA (see `rgba_of`).
pub fn bgra_to_rgba(buf: &mut Vec<u8>)
    ensures
        final(buf)@ == rgba_of(old(buf)@),
{
    let ghost orig = buf@;
    let has_alpha = any_alpha(buf);
    swap_red_blue(buf);
    if !has_alpha {
        make_opaque(buf);
    }
    assert(buf@ =~= rgba_of(orig));
}

} // verus!
