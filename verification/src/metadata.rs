//! What the library makes of the tags read from an audio file: the title it
//! shows, the optional text fields it keeps, which embedded picture is the
//! cover, the file extension the cover is cached under, and the cache key
//! that names a cached cover.
use vstd::prelude::*;
use vstd::utf8::encode_utf8;

use crate::paths::{file_stem_of, path_file_stem};
use crate::text::{chars_of, hex_padded, push_hex_padded, trim, trim_chars};

verus! {

/// The text of a tag field, kept only when something is left after trimming.
pub open spec fn non_empty_spec(value: Option<Seq<char>>) -> Option<Seq<char>> {
    match value {
        Some(v) => if trim(v).len() > 0 {
            Some(v)
        } else {
            None
        },
        None => None,
    }
}

pub open spec fn opt_view(value: Option<String>) -> Option<Seq<char>> {
    match value {
        Some(v) => Some(v@),
        None => None,
    }
}

/// Keeps a tag value only when it is not blank; the value itself is kept as
/// it was, untrimmed.
pub fn non_empty(value: Option<String>) -> (r: Option<String>)
    ensures
        opt_view(r) == non_empty_spec(opt_view(value)),
{
    match value {
        Some(v) => {
            let t = trim_chars(&chars_of(v.as_str()));
            if t.len() > 0 {
                Some(v)
            } else {
                None
            }
        },
        None => None,
    }
}

/// The title of a file without a usable title tag: its file name without the
/// extension, or nothing.
pub open spec fn fallback_title_spec(path: Seq<char>) -> Seq<char> {
    match path_file_stem(path) {
        Some(stem) => stem,
        None => seq![],
    }
}

pub fn fallback_title(path: &str) -> (r: String)
    ensures
        r@ == fallback_title_spec(path@),
{
    match file_stem_of(path) {
        Some(stem) => stem,
        None => String::new(),
    }
}

/// The title the library shows: the title tag when it is not blank, else the
/// file name without its extension.
pub open spec fn track_title_spec(tag_title: Option<Seq<char>>, path: Seq<char>) -> Seq<char> {
    match tag_title {
        Some(t) => if trim(t).len() > 0 {
            t
        } else {
            fallback_title_spec(path)
        },
        None => fallback_title_spec(path),
    }
}

pub fn track_title(tag_title: Option<String>, path: &str) -> (r: String)
    ensures
        r@ == track_title_spec(opt_view(tag_title), path@),
{
    match non_empty(tag_title) {
        Some(t) => t,
        None => fallback_title(path),
    }
}

/// The picture formats a cover may come in.
#[derive(Debug, Clone, Copy, PartialEq, Eq, Structural)]
pub enum CoverMime {
    Png,
    Jpeg,
    Tiff,
    Bmp,
    Gif,
    Other,
}

pub open spec fn extension_for_spec(mime: Option<CoverMime>) -> Seq<char> {
    match mime {
        Some(CoverMime::Png) => "png"@,
        Some(CoverMime::Jpeg) => "jpg"@,
        Some(CoverMime::Tiff) => "tiff"@,
        Some(CoverMime::Bmp) => "bmp"@,
        Some(CoverMime::Gif) => "gif"@,
        _ => "bin"@,
    }
}

/// The file extension a cover of this format is cached under.
pub fn extension_for(mime: Option<CoverMime>) -> (r: &'static str)
    ensures
        r@ == extension_for_spec(mime),
{
    match mime {
        Some(CoverMime::Png) => "png",
        Some(CoverMime::Jpeg) => "jpg",
        Some(CoverMime::Tiff) => "tiff",
        Some(CoverMime::Bmp) => "bmp",
        Some(CoverMime::Gif) => "gif",
        _ => "bin",
    }
}

/// Which of the embedded pictures is the cover, given for each whether it is
/// marked as the front cover: the first front cover, else the first picture.
pub open spec fn chosen_cover(front: Seq<bool>) -> Option<int> {
    if exists|i: int| 0 <= i < front.len() && front[i] {
        Some(choose|i: int| 0 <= i < front.len() && front[i] && forall|k: int| 0 <= k < i ==> !front[k])
    } else if front.len() > 0 {
        Some(0)
    } else {
        None
    }
}

pub fn choose_cover(front: &Vec<bool>) -> (r: Option<usize>)
    ensures
        match r {
            Some(i) => {
                &&& i < front@.len()
                &&& (front@[i as int] && forall|k: int| 0 <= k < i ==> !front@[k]) || (i == 0 && forall|k: int|
                    0 <= k < front@.len() ==> !front@[k])
            },
            None => front@.len() == 0,
        },
        match (r, chosen_cover(front@)) {
            (Some(i), Some(j)) => i == j,
            (None, None) => true,
            _ => false,
        },
{
    let mut i: usize = 0;
    while i < front.len()
        invariant
            i <= front@.len(),
            forall|k: int| 0 <= k < i ==> !front@[k],
        decreases front@.len() - i,
    {
        if front[i] {
            proof {
                let j = choose|j: int| 0 <= j < front@.len() && front@[j] && forall|k: int| 0 <= k < j ==> !front@[k];
                assert(j == i) by {
                    if j < i {
                    } else if j > i {
                        assert(!front@[i as int]);
                    }
                }
            }
            return Some(i);
        }
        i = i + 1;
    }
    if front.len() > 0 {
        Some(0)
    } else {
        None
    }
}

/// The FNV-1a offset basis and prime for 64 bits.
pub const FNV_OFFSET: u64 = 0xcbf29ce484222325;
pub const FNV_PRIME: u64 = 0x0000_0100_0000_01b3;

/// One FNV-1a step: xor the byte in, then multiply by the prime modulo 2^64.
pub open spec fn fnv_step(h: u64, b: u8) -> u64 {
    (((h ^ (b as u64)) as nat * FNV_PRIME as nat) % 0x1_0000_0000_0000_0000) as u64
}

/// FNV-1a of `bytes`, starting from `h`.
pub open spec fn fnv_fold(h: u64, bytes: Seq<u8>) -> u64
    decreases bytes.len(),
{
    if bytes.len() == 0 {
        h
    } else {
        fnv_step(fnv_fold(h, bytes.drop_last()), bytes.last())
    }
}

/// The lowest `k` bytes of `n`, least significant first (`to_le_bytes` for `k == 8`).
pub open spec fn le_bytes(n: nat, k: nat) -> Seq<u8>
    decreases k,
{
    if k == 0 {
        seq![]
    } else {
        seq![(n % 256) as u8] + le_bytes(n / 256, (k - 1) as nat)
    }
}

/// The name of the cached cover of a file: FNV-1a over the bytes of its path,
/// then its size and its modification time in seconds, both as eight
/// little-endian bytes, written as sixteen lowercase hexadecimal digits.
pub open spec fn cache_key_spec(path: Seq<char>, size: u64, modified_secs: u64) -> Seq<char> {
    hex_padded(
        fnv_fold(FNV_OFFSET, encode_utf8(path) + le_bytes(size as nat, 8) + le_bytes(modified_secs as nat, 8)) as nat,
        16,
    )
}

proof fn lemma_fnv_concat(h: u64, a: Seq<u8>, b: Seq<u8>)
    ensures
        fnv_fold(h, a + b) == fnv_fold(fnv_fold(h, a), b),
    decreases b.len(),
{
    if b.len() == 0 {
        assert(a + b =~= a);
    } else {
        assert((a + b).drop_last() =~= a + b.drop_last());
        lemma_fnv_concat(h, a, b.drop_last());
    }
}

fn fnv_feed_byte(h: u64, b: u8) -> (r: u64)
    ensures
        r == fnv_step(h, b),
{
    let x: u64 = h ^ (b as u64);
    x.wrapping_mul(FNV_PRIME)
}

fn fnv_feed_le(h: u64, n: u64, k: usize) -> (r: u64)
    ensures
        r == fnv_fold(h, le_bytes(n as nat, k as nat)),
    decreases k,
{
    if k == 0 {
        h
    } else {
        let byte: u8 = (n % 256) as u8;
        let h2 = fnv_feed_byte(h, byte);
        let r = fnv_feed_le(h2, n / 256, k - 1);
        proof {
            let rest = le_bytes((n / 256) as nat, (k - 1) as nat);
            lemma_fnv_concat(h, seq![byte], rest);
            assert(fnv_fold(h, seq![byte]) == h2) by {
                reveal_with_fuel(fnv_fold, 2);
                assert(seq![byte].drop_last() =~= Seq::<u8>::empty());
                assert(fnv_fold(h, Seq::<u8>::empty()) == h);
            }
            assert(le_bytes(n as nat, k as nat) == seq![byte] + rest);
        }
        r
    }
}

/// The cache key for a cover (see [`cache_key_spec`]).
pub fn cache_key(path: &str, size: u64, modified_secs: u64) -> (r: String)
    ensures
        r@ == cache_key_spec(path@, size, modified_secs),
{
    let bytes = path.as_bytes();
    let mut h: u64 = FNV_OFFSET;
    let mut i: usize = 0;
    while i < bytes.len()
        invariant
            bytes@ == encode_utf8(path@),
            i <= bytes@.len(),
            h == fnv_fold(FNV_OFFSET, bytes@.take(i as int)),
        decreases bytes@.len() - i,
    {
        h = fnv_feed_byte(h, bytes[i]);
        assert(bytes@.take(i as int + 1).drop_last() =~= bytes@.take(i as int));
        i = i + 1;
    }
    assert(bytes@.take(i as int) =~= bytes@);
    let h2 = fnv_feed_le(h, size, 8);
    let h3 = fnv_feed_le(h2, modified_secs, 8);
    proof {
        let a = encode_utf8(path@);
        let b = le_bytes(size as nat, 8);
        let c = le_bytes(modified_secs as nat, 8);
        lemma_fnv_concat(FNV_OFFSET, a, b);
        lemma_fnv_concat(FNV_OFFSET, a + b, c);
    }
    let mut key = String::new();
    push_hex_padded(&mut key, h3, 16);
    assert(key@ =~= cache_key_spec(path@, size, modified_secs));
    key
}

/// The extensions a cached cover may have, in the order they are looked for.
pub open spec fn cached_extension(i: int) -> Seq<char> {
    if i == 0 {
        "jpg"@
    } else if i == 1 {
        "png"@
    } else if i == 2 {
        "tiff"@
    } else if i == 3 {
        "bmp"@
    } else if i == 4 {
        "gif"@
    } else {
        "bin"@
    }
}

fn cached_extension_at(i: usize) -> (r: &'static str)
    requires
        i < 6,
    ensures
        r@ == cached_extension(i as int),
{
    if i == 0 {
        "jpg"
    } else if i == 1 {
        "png"
    } else if i == 2 {
        "tiff"
    } else if i == 3 {
        "bmp"
    } else if i == 4 {
        "gif"
    } else {
        "bin"
    }
}

/// The file name a cover is cached under: `{key}.{extension}`.
pub fn cover_file_name(key: &str, extension: &str) -> (r: String)
    ensures
        r@ == key@ + "."@ + extension@,
{
    let mut name = String::from_str(key);
    name.append(".");
    name.append(extension);
    name
}

/// The file names under which a cached cover for `key` may already exist, in
/// the order they are looked for: the first that exists is the cached cover.
pub fn cached_cover_candidates(key: &str) -> (r: Vec<String>)
    ensures
        r@.len() == 6,
        forall|i: int| 0 <= i < 6 ==> #[trigger] r@[i]@ == key@ + "."@ + cached_extension(i),
{
    let mut out: Vec<String> = Vec::new();
    let mut i: usize = 0;
    while i < 6
        invariant
            i <= 6,
            out@.len() == i,
            forall|k: int| 0 <= k < i ==> #[trigger] out@[k]@ == key@ + "."@ + cached_extension(k),
        decreases 6 - i,
    {
        out.push(cover_file_name(key, cached_extension_at(i)));
        i = i + 1;
    }
    out
}

} // verus!
