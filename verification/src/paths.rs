//! Byte-level path rules: ASCII lower-casing, file-name and extension
//! splitting, image classification by extension, and the derived target
//! paths (`.jpg` for a converted image, `.pdf` for a directory's bundle).
//!
//! Paths are byte strings; `47` is `/` and `46` is `.`.

use vstd::prelude::*;

verus! {

/// True when `b` is an ASCII upper-case letter.
pub open spec fn is_ascii_upper(b: u8) -> bool {
    65 <= b && b <= 90
}

/// Lower-cases one ASCII byte; other bytes are unchanged.
pub open spec fn lower_byte(b: u8) -> u8 {
    if is_ascii_upper(b) {
        (b + 32) as u8
    } else {
        b
    }
}

/// ASCII lower-casing of a byte string.
pub open spec fn lower_bytes(s: Seq<u8>) -> Seq<u8> {
    s.map_values(|b: u8| lower_byte(b))
}

/// ASCII lower-casing, executable form.
pub fn ascii_lowercase(s: &Vec<u8>) -> (r: Vec<u8>)
    ensures
        r@ == lower_bytes(s@),
{
    let mut out: Vec<u8> = Vec::new();
    let mut i: usize = 0;
    while i < s.len()
        invariant
            i <= s.len(),
            out@ == lower_bytes(s@.take(i as int)),
        decreases s.len() - i,
    {
        let b = s[i];
        if 65 <= b && b <= 90 {
            out.push(b + 32);
        } else {
            out.push(b);
        }
        proof {
            assert(lower_bytes(s@.take(i + 1 as int)) =~= lower_bytes(
                s@.take(i as int),
            ).push(lower_byte(s@[i as int])));
        }
        i = i + 1;
    }
    proof {
        assert(s@.take(s@.len() as int) =~= s@);
    }
    out
}

/// Number of bytes of `p` up to and including the last occurrence of `sep`;
/// 0 when `p` does not contain `sep`.
pub open spec fn sep_prefix_len(p: Seq<u8>, sep: u8) -> int
    decreases p.len(),
{
    if p.len() == 0 {
        0
    } else if p.last() == sep {
        p.len() as int
    } else {
        sep_prefix_len(p.drop_last(), sep)
    }
}

pub proof fn lemma_sep_prefix_len_bounds(p: Seq<u8>, sep: u8)
    ensures
        0 <= sep_prefix_len(p, sep) <= p.len(),
    decreases p.len(),
{
    if p.len() > 0 && p.last() != sep {
        lemma_sep_prefix_len_bounds(p.drop_last(), sep);
    }
}

/// Where `p` is known up to a suffix that holds no `sep`, the split point is
/// already determined by the prefix.
pub proof fn lemma_sep_prefix_len_take(p: Seq<u8>, sep: u8, i: int)
    requires
        0 <= i <= p.len(),
        forall|j: int| i <= j < p.len() ==> p[j] != sep,
    ensures
        sep_prefix_len(p, sep) == sep_prefix_len(p.take(i), sep),
    decreases p.len() - i,
{
    if i < p.len() {
        lemma_sep_prefix_len_take(p, sep, i + 1);
        assert(p.take(i + 1).drop_last() =~= p.take(i));
        assert(sep_prefix_len(p.take(i + 1), sep) == sep_prefix_len(p.take(i), sep));
    } else {
        assert(p.take(i) =~= p);
    }
}

/// A positive split point sits right after an occurrence of `sep`.
pub proof fn lemma_sep_prefix_len_sep(p: Seq<u8>, sep: u8)
    requires
        sep_prefix_len(p, sep) > 0,
    ensures
        p[sep_prefix_len(p, sep) - 1] == sep,
    decreases p.len(),
{
    lemma_sep_prefix_len_bounds(p, sep);
    if p.len() > 0 && p.last() != sep {
        lemma_sep_prefix_len_sep(p.drop_last(), sep);
        lemma_sep_prefix_len_bounds(p.drop_last(), sep);
    }
}

/// A path with a slash is its parent, a slash, then its file name.
pub proof fn lemma_path_reconstruction(p: Seq<u8>)
    requires
        sep_prefix_len(p, 47) > 0,
    ensures
        p == parent_of(p) + seq![47u8] + file_name_of(p),
{
    lemma_sep_prefix_len_bounds(p, 47);
    lemma_sep_prefix_len_sep(p, 47);
    assert(p =~= parent_of(p) + seq![47u8] + file_name_of(p));
}

/// Index of the first byte after the last occurrence of `sep`, executable form.
pub fn suffix_start(p: &Vec<u8>, sep: u8) -> (r: usize)
    ensures
        r == sep_prefix_len(p@, sep),
{
    let mut i: usize = p.len();
    while i > 0
        invariant
            i <= p.len(),
            forall|j: int| i <= j < p@.len() ==> p@[j] != sep,
        decreases i,
    {
        if p[i - 1] == sep {
            proof {
                lemma_sep_prefix_len_take(p@, sep, i as int);
                assert(p@.take(i as int).last() == sep);
            }
            return i;
        }
        i = i - 1;
    }
    proof {
        lemma_sep_prefix_len_take(p@, sep, 0);
        assert(p@.take(0) =~= Seq::<u8>::empty());
    }
    0
}

/// The file name: the suffix of `p` after its last slash.
pub open spec fn file_name_of(p: Seq<u8>) -> Seq<u8> {
    p.subrange(sep_prefix_len(p, 47), p.len() as int)
}

/// The enclosing directory: what precedes the last slash; empty when `p`
/// has no slash.
pub open spec fn parent_of(p: Seq<u8>) -> Seq<u8> {
    if sep_prefix_len(p, 47) > 0 {
        p.take(sep_prefix_len(p, 47) - 1)
    } else {
        Seq::empty()
    }
}

/// Copies `v[s..]` into a fresh vector.
pub fn tail_from(v: &Vec<u8>, s: usize) -> (r: Vec<u8>)
    requires
        s <= v.len(),
    ensures
        r@ == v@.subrange(s as int, v@.len() as int),
{
    let mut out: Vec<u8> = Vec::new();
    let mut i: usize = s;
    while i < v.len()
        invariant
            s <= i <= v.len(),
            out@ == v@.subrange(s as int, i as int),
        decreases v.len() - i,
    {
        out.push(v[i]);
        proof {
            assert(v@.subrange(s as int, i + 1 as int) =~= v@.subrange(s as int, i as int).push(
                v@[i as int],
            ));
        }
        i = i + 1;
    }
    out
}

/// The file name, executable form.
pub fn file_name(p: &Vec<u8>) -> (r: Vec<u8>)
    ensures
        r@ == file_name_of(p@),
{
    proof {
        lemma_sep_prefix_len_bounds(p@, 47);
    }
    let s = suffix_start(p, 47);
    tail_from(p, s)
}

/// The enclosing directory, executable form.
pub fn parent_dir(p: &Vec<u8>) -> (r: Vec<u8>)
    ensures
        r@ == parent_of(p@),
{
    proof {
        lemma_sep_prefix_len_bounds(p@, 47);
    }
    let s = suffix_start(p, 47);
    let mut out: Vec<u8> = Vec::new();
    if s == 0 {
        return out;
    }
    let mut i: usize = 0;
    while i < s - 1
        invariant
            s >= 1,
            s <= p.len(),
            i <= s - 1,
            out@ == p@.take(i as int),
        decreases s - i,
    {
        out.push(p[i]);
        proof {
            assert(p@.take(i + 1 as int) =~= p@.take(i as int).push(p@[i as int]));
        }
        i = i + 1;
    }
    out
}

/// The lower-cased extension of `p`: what follows the last dot of the file
/// name. A name without a dot, or whose only dot starts it, has none.
pub open spec fn extension_of(p: Seq<u8>) -> Option<Seq<u8>> {
    let name = file_name_of(p);
    let d = sep_prefix_len(name, 46);
    if d >= 2 {
        Some(lower_bytes(name.subrange(d, name.len() as int)))
    } else {
        None
    }
}

/// The lower-cased extension, executable form.
pub fn extension(p: &Vec<u8>) -> (r: Option<Vec<u8>>)
    ensures
        r is Some <==> extension_of(p@) is Some,
        r matches Some(v) ==> extension_of(p@) == Some(v@),
{
    let name = file_name(p);
    proof {
        lemma_sep_prefix_len_bounds(name@, 46);
    }
    let d = suffix_start(&name, 46);
    if d >= 2 {
        let raw = tail_from(&name, d);
        Some(ascii_lowercase(&raw))
    } else {
        None
    }
}

/// The spelling `jpg`.
pub open spec fn jpg_ext() -> Seq<u8> {
    seq![106u8, 112u8, 103u8]
}

/// The spelling `jpeg`.
pub open spec fn jpeg_ext() -> Seq<u8> {
    seq![106u8, 112u8, 101u8, 103u8]
}

/// The spelling `png`.
pub open spec fn png_ext() -> Seq<u8> {
    seq![112u8, 110u8, 103u8]
}

/// The spelling `avif`.
pub open spec fn avif_ext() -> Seq<u8> {
    seq![97u8, 118u8, 105u8, 102u8]
}

/// What a path's extension says about the file.
#[derive(Clone, Copy, PartialEq, Eq, Debug, Structural)]
pub enum ImageKind {
    /// Extension `jpg` or `jpeg`: already compliant.
    Jpeg,
    /// Extension `png`: to be normalized.
    Png,
    /// Extension `avif`: to be normalized.
    Avif,
    /// Any other or no extension: not an image, ignored.
    NotImage,
}

/// Classification of a path by its lower-cased extension.
pub open spec fn classify_spec(p: Seq<u8>) -> ImageKind {
    match extension_of(p) {
        Some(e) => if e == jpg_ext() || e == jpeg_ext() {
            ImageKind::Jpeg
        } else if e == png_ext() {
            ImageKind::Png
        } else if e == avif_ext() {
            ImageKind::Avif
        } else {
            ImageKind::NotImage
        },
        None => ImageKind::NotImage,
    }
}

/// An eligible image: extension among `jpg`, `jpeg`, `png`, `avif`.
pub open spec fn is_image_name(p: Seq<u8>) -> bool {
    classify_spec(p) != ImageKind::NotImage
}

/// A file the normalizer must convert: extension `png` or `avif`.
pub open spec fn needs_normalization(p: Seq<u8>) -> bool {
    classify_spec(p) == ImageKind::Png || classify_spec(p) == ImageKind::Avif
}

/// A file the grouper may bundle: extension `jpg` or `jpeg`.
pub open spec fn is_jpeg_name(p: Seq<u8>) -> bool {
    classify_spec(p) == ImageKind::Jpeg
}

/// Classification, executable form.
pub fn classify(p: &Vec<u8>) -> (r: ImageKind)
    ensures
        r == classify_spec(p@),
{
    match extension(p) {
        None => ImageKind::NotImage,
        Some(e) => {
            proof {
                if e@.len() == 3 && e@[0] == 106 && e@[1] == 112 && e@[2] == 103 {
                    assert(e@ =~= jpg_ext());
                }
                if e@.len() == 4 && e@[0] == 106 && e@[1] == 112 && e@[2] == 101 && e@[3] == 103 {
                    assert(e@ =~= jpeg_ext());
                }
                if e@.len() == 3 && e@[0] == 112 && e@[1] == 110 && e@[2] == 103 {
                    assert(e@ =~= png_ext());
                }
                if e@.len() == 4 && e@[0] == 97 && e@[1] == 118 && e@[2] == 105 && e@[3] == 102 {
                    assert(e@ =~= avif_ext());
                }
            }
            if e.len() == 3 && e[0] == 106 && e[1] == 112 && e[2] == 103 {
                ImageKind::Jpeg
            } else if e.len() == 4 && e[0] == 106 && e[1] == 112 && e[2] == 101 && e[3] == 103 {
                ImageKind::Jpeg
            } else if e.len() == 3 && e[0] == 112 && e[1] == 110 && e[2] == 103 {
                ImageKind::Png
            } else if e.len() == 4 && e[0] == 97 && e[1] == 118 && e[2] == 105 && e[3] == 102 {
                ImageKind::Avif
            } else {
                ImageKind::NotImage
            }
        },
    }
}

/// `p` with its extension replaced by `jpg`: where the converted image is
/// written.
pub open spec fn jpg_target(p: Seq<u8>) -> Seq<u8>
    recommends
        extension_of(p) is Some,
{
    let name = file_name_of(p);
    let keep = p.len() - (name.len() - sep_prefix_len(name, 46));
    p.take(keep as int) + jpg_ext()
}

/// The converted image's path, executable form.
pub fn jpg_target_path(p: &Vec<u8>) -> (r: Vec<u8>)
    requires
        extension_of(p@) is Some,
    ensures
        r@ == jpg_target(p@),
{
    proof {
        lemma_sep_prefix_len_bounds(p@, 47);
    }
    let s = suffix_start(p, 47);
    let name = file_name(p);
    proof {
        lemma_sep_prefix_len_bounds(name@, 46);
    }
    let d = suffix_start(&name, 46);
    let keep = p.len() - (name.len() - d);
    let mut out: Vec<u8> = Vec::new();
    let mut i: usize = 0;
    while i < keep
        invariant
            keep <= p.len(),
            i <= keep,
            out@ == p@.take(i as int),
        decreases keep - i,
    {
        out.push(p[i]);
        proof {
            assert(p@.take(i + 1 as int) =~= p@.take(i as int).push(p@[i as int]));
        }
        i = i + 1;
    }
    out.push(106);
    out.push(112);
    out.push(103);
    proof {
        assert(out@ =~= p@.take(keep as int) + jpg_ext());
    }
    out
}

/// `dir` with `.pdf` appended: where the directory's bundle is written.
pub open spec fn pdf_target(dir: Seq<u8>) -> Seq<u8> {
    dir + seq![46u8, 112u8, 100u8, 102u8]
}

/// The bundle's path, executable form.
pub fn pdf_target_path(dir: &Vec<u8>) -> (r: Vec<u8>)
    ensures
        r@ == pdf_target(dir@),
{
    let mut out: Vec<u8> = Vec::new();
    let mut i: usize = 0;
    while i < dir.len()
        invariant
            i <= dir.len(),
            out@ == dir@.take(i as int),
        decreases dir.len() - i,
    {
        out.push(dir[i]);
        proof {
            assert(dir@.take(i + 1 as int) =~= dir@.take(i as int).push(dir@[i as int]));
        }
        i = i + 1;
    }
    out.push(46);
    out.push(112);
    out.push(100);
    out.push(102);
    proof {
        assert(dir@.take(dir@.len() as int) =~= dir@);
        assert(out@ =~= pdf_target(dir@));
    }
    out
}

} // verus!
