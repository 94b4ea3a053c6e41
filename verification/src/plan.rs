//! Planning: which files the normalizer converts, and which directories
//! get a bundle with which images in which order.
//!
//! Both planners are total functions of the scanned tree, stated exactly
//! over the views: the conversion plan is the filtered file list, and the
//! group plan is, for each selected directory, the lexicographically
//! sorted list of its direct `jpg`/`jpeg` children.

use crate::entries::{ConversionJob, DirEnt, DirEntView, DirectoryGroup, GroupView};
use crate::entries::{dir_views, group_views};
use crate::order::{lemma_lex_le_common_prefix, lex_le, lex_leq, path_views, sort_paths};
use crate::order::{lemma_lex_total_ordering, lemma_sorted_unique};
use crate::paths::{classify, classify_spec, extension_of, file_name_of, is_jpeg_name};
use crate::paths::{lemma_path_reconstruction, sep_prefix_len};
use crate::paths::{ImageKind, jpg_target, jpg_target_path, needs_normalization};
use crate::paths::{parent_dir, parent_of, pdf_target, pdf_target_path, tail_from};
use vstd::prelude::*;

verus! {

/// Byte-string equality, executable form.
pub fn bytes_eq(a: &Vec<u8>, b: &Vec<u8>) -> (r: bool)
    ensures
        r == (a@ == b@),
{
    if a.len() != b.len() {
        return false;
    }
    let mut i: usize = 0;
    while i < a.len()
        invariant
            a@.len() == b@.len(),
            i <= a.len(),
            forall|j: int| 0 <= j < i ==> a@[j] == b@[j],
        decreases a.len() - i,
    {
        if a[i] != b[i] {
            return false;
        }
        i = i + 1;
    }
    proof {
        assert(a@ =~= b@);
    }
    true
}

/// Filtering looks at the new last element alone.
proof fn lemma_filter_push<A>(s: Seq<A>, x: A, pred: spec_fn(A) -> bool)
    ensures
        s.push(x).filter(pred) == if pred(x) {
            s.filter(pred).push(x)
        } else {
            s.filter(pred)
        },
{
    reveal(Seq::filter);
    assert(s.push(x).drop_last() =~= s);
    assert(s.push(x).last() == x);
}

/// A sequence's filter seen as a multiset is the multiset's filter.
proof fn lemma_filter_to_multiset<A>(s: Seq<A>, pred: spec_fn(A) -> bool)
    ensures
        s.filter(pred).to_multiset() == s.to_multiset().filter(pred),
    decreases s.len(),
{
    broadcast use vstd::seq_lib::group_to_multiset_ensures;
    broadcast use vstd::multiset::group_multiset_axioms;

    if s.len() == 0 {
        assert(s.filter(pred) =~= s);
        assert(s.to_multiset().filter(pred) =~= s.to_multiset());
    } else {
        let d = s.drop_last();
        let x = s.last();
        lemma_filter_to_multiset(d, pred);
        lemma_filter_push(d, x, pred);
        assert(s =~= d.push(x));
        assert(d.push(x).to_multiset() == d.to_multiset().insert(x));
        if pred(x) {
            assert(s.filter(pred).to_multiset() == d.filter(pred).to_multiset().insert(x));
            assert(s.to_multiset().filter(pred) =~= d.to_multiset().filter(pred).insert(x));
        } else {
            assert(s.to_multiset().filter(pred) =~= d.to_multiset().filter(pred));
        }
    }
}

/// The files the normalizer must convert.
pub open spec fn norm_pred() -> spec_fn(Seq<u8>) -> bool {
    |p: Seq<u8>| needs_normalization(p)
}

/// The sources to convert, in the order the scan yielded them.
pub open spec fn conversion_sources(files: Seq<Seq<u8>>) -> Seq<Seq<u8>> {
    files.filter(norm_pred())
}

/// Plans the normalization phase: one job per `png`/`avif` file, each
/// targeting the source's path with a `jpg` extension.
pub fn plan_conversions(files: &Vec<Vec<u8>>) -> (r: Vec<ConversionJob>)
    ensures
        r@.map_values(|j: ConversionJob| j.source@) == conversion_sources(path_views(files@)),
        forall|i: int|
            0 <= i < r@.len() ==> (#[trigger] r@[i]).target@ == jpg_target(r@[i].source@),
        forall|i: int| 0 <= i < r@.len() ==> needs_normalization((#[trigger] r@[i]).source@),
{
    let mut out: Vec<ConversionJob> = Vec::new();
    let mut i: usize = 0;
    while i < files.len()
        invariant
            i <= files.len(),
            out@.map_values(|j: ConversionJob| j.source@) == conversion_sources(
                path_views(files@.take(i as int)),
            ),
            forall|k: int|
                0 <= k < out@.len() ==> (#[trigger] out@[k]).target@ == jpg_target(
                    out@[k].source@,
                ),
            forall|k: int| 0 <= k < out@.len() ==> needs_normalization((#[trigger] out@[k]).source@),
        decreases files.len() - i,
    {
        let ghost prev = path_views(files@.take(i as int));
        let p = &files[i];
        proof {
            assert(path_views(files@.take(i + 1 as int)) =~= prev.push(p@));
            lemma_filter_push(prev, p@, norm_pred());
        }
        let kind = classify(p);
        if kind == ImageKind::Png || kind == ImageKind::Avif {
            proof {
                assert(needs_normalization(p@));
                assert(extension_of(p@) is Some) by {
                    assert(classify_spec(p@) != ImageKind::NotImage);
                }
            }
            let ghost prev_out = out@;
            let src = tail_from(p, 0);
            proof {
                assert(src@ =~= p@);
            }
            let tgt = jpg_target_path(p);
            out.push(ConversionJob { source: src, target: tgt });
            proof {
                assert(out@.map_values(|j: ConversionJob| j.source@) =~= prev_out.map_values(
                    |j: ConversionJob| j.source@,
                ).push(p@));
            }
        } else {
            proof {
                assert(!needs_normalization(p@));
            }
        }
        i = i + 1;
    }
    proof {
        assert(files@.take(files@.len() as int) =~= files@);
    }
    out
}

/// A direct `jpg`/`jpeg` child of `dir`.
pub open spec fn child_pred(dir: Seq<u8>) -> spec_fn(Seq<u8>) -> bool {
    |p: Seq<u8>| parent_of(p) == dir && is_jpeg_name(p)
}

/// The bundle candidates of `dir`: its direct `jpg`/`jpeg` children, in
/// scan order.
pub open spec fn jpeg_children(files: Seq<Seq<u8>>, dir: Seq<u8>) -> Seq<Seq<u8>> {
    files.filter(child_pred(dir))
}

/// The pages of `dir`'s bundle: its candidates in lexicographic order.
pub open spec fn group_images_spec(files: Seq<Seq<u8>>, dir: Seq<u8>) -> Seq<Seq<u8>> {
    jpeg_children(files, dir).sort_by(lex_leq())
}

/// Whether `d` gets a bundle: it has at least one candidate, and either
/// overwriting was asked for or no bundle exists yet.
pub open spec fn dir_selected(d: DirEntView, files: Seq<Seq<u8>>, overwrite: bool) -> bool {
    jpeg_children(files, d.path).len() > 0 && (overwrite || !d.pdf_exists)
}

/// The selection, as a predicate value.
pub open spec fn selected_pred(files: Seq<Seq<u8>>, overwrite: bool) -> spec_fn(DirEntView) -> bool {
    |d: DirEntView| dir_selected(d, files, overwrite)
}

/// The bundle a selected directory gets.
pub open spec fn group_of_dir(files: Seq<Seq<u8>>, d: DirEntView) -> GroupView {
    GroupView { dir: d.path, output: pdf_target(d.path), images: group_images_spec(files, d.path) }
}

/// The bundle construction, as a function value.
pub open spec fn group_fn(files: Seq<Seq<u8>>) -> spec_fn(DirEntView) -> GroupView {
    |d: DirEntView| group_of_dir(files, d)
}

/// The whole assembly plan: one bundle per selected directory, in the
/// order the directories were scanned.
pub open spec fn plan_groups_spec(
    dirs: Seq<DirEntView>,
    files: Seq<Seq<u8>>,
    overwrite: bool,
) -> Seq<GroupView> {
    dirs.filter(selected_pred(files, overwrite)).map_values(group_fn(files))
}

/// Plans the assembly phase over a post-normalization scan.
pub fn plan_groups(dirs: &Vec<DirEnt>, files: &Vec<Vec<u8>>, overwrite: bool) -> (r: Vec<
    DirectoryGroup,
>)
    ensures
        group_views(r@) == plan_groups_spec(dir_views(dirs@), path_views(files@), overwrite),
{
    let ghost pv = path_views(files@);
    let mut out: Vec<DirectoryGroup> = Vec::new();
    let mut di: usize = 0;
    while di < dirs.len()
        invariant
            di <= dirs.len(),
            group_views(out@) == plan_groups_spec(dir_views(dirs@.take(di as int)), pv, overwrite),
            pv == path_views(files@),
        decreases dirs.len() - di,
    {
        let ghost prev_dirs = dir_views(dirs@.take(di as int));
        let d = &dirs[di];
        proof {
            assert(dir_views(dirs@.take(di + 1 as int)) =~= prev_dirs.push(d@));
            lemma_filter_push(prev_dirs, d@, selected_pred(pv, overwrite));
        }
        let mut kids: Vec<Vec<u8>> = Vec::new();
        let mut fi: usize = 0;
        while fi < files.len()
            invariant
                fi <= files.len(),
                path_views(kids@) == path_views(files@.take(fi as int)).filter(child_pred(d@.path)),
            decreases files.len() - fi,
        {
            let ghost prev_files = path_views(files@.take(fi as int));
            let p = &files[fi];
            proof {
                assert(path_views(files@.take(fi + 1 as int)) =~= prev_files.push(p@));
                lemma_filter_push(prev_files, p@, child_pred(d@.path));
            }
            let par = parent_dir(p);
            let ghost prev_kids = path_views(kids@);
            if bytes_eq(&par, &d.path) && classify(p) == ImageKind::Jpeg {
                let kid = tail_from(p, 0);
                proof {
                    assert(kid@ =~= p@);
                }
                kids.push(kid);
                proof {
                    assert(path_views(kids@) =~= prev_kids.push(p@));
                }
            } else {
                proof {
                    assert(!(child_pred(d@.path)(p@)));
                }
            }
            fi = fi + 1;
        }
        proof {
            assert(files@.take(files@.len() as int) =~= files@);
            assert(path_views(kids@) == jpeg_children(pv, d@.path));
            assert(kids@.len() == path_views(kids@).len());
        }
        let selected = kids.len() > 0 && (overwrite || !d.pdf_exists);
        proof {
            assert(selected == dir_selected(d@, pv, overwrite));
        }
        if selected {
            let ghost prev_out = out@;
            let images = sort_paths(kids);
            let dir_copy = tail_from(&d.path, 0);
            let output = pdf_target_path(&d.path);
            proof {
                assert(dir_copy@ =~= d@.path);
            }
            out.push(DirectoryGroup { dir: dir_copy, output, images });
            proof {
                assert(group_views(out@) =~= group_views(prev_out).push(
                    group_of_dir(pv, d@),
                )) by {
                    assert(out@[out@.len() - 1]@ == group_of_dir(pv, d@));
                }
                assert(prev_dirs.push(d@).filter(selected_pred(pv, overwrite)).map_values(
                    group_fn(pv),
                ) =~= prev_dirs.filter(selected_pred(pv, overwrite)).map_values(
                    group_fn(pv),
                ).push(group_of_dir(pv, d@)));
            }
        } else {
            proof {
                assert(!(selected_pred(pv, overwrite)(d@)));
            }
        }
        di = di + 1;
    }
    proof {
        assert(dirs@.take(dirs@.len() as int) =~= dirs@);
    }
    out
}

/// Page order is canonical: scans that found the same files — in whatever
/// order normalization and traversal made them available — give every
/// directory the same image list.
pub proof fn lemma_page_order_arrival_independent(
    files1: Seq<Seq<u8>>,
    files2: Seq<Seq<u8>>,
    dir: Seq<u8>,
)
    requires
        files1.to_multiset() == files2.to_multiset(),
    ensures
        group_images_spec(files1, dir) == group_images_spec(files2, dir),
{
    lemma_filter_to_multiset(files1, child_pred(dir));
    lemma_filter_to_multiset(files2, child_pred(dir));
    lemma_lex_total_ordering();
    jpeg_children(files1, dir).lemma_sort_by_ensures(lex_leq());
    jpeg_children(files2, dir).lemma_sort_by_ensures(lex_leq());
    lemma_sorted_unique(group_images_spec(files1, dir), group_images_spec(files2, dir));
}

/// Within one directory, path order is file-name order, so a bundle's
/// pages stand sorted by file name.
pub proof fn lemma_pages_sorted_by_file_name(files: Seq<Seq<u8>>, dir: Seq<u8>, i: int, j: int)
    requires
        dir.len() > 0,
        0 <= i < j < group_images_spec(files, dir).len(),
    ensures
        lex_le(
            file_name_of(group_images_spec(files, dir)[i]),
            file_name_of(group_images_spec(files, dir)[j]),
        ),
{
    broadcast use vstd::seq_lib::group_filter_ensures;

    lemma_lex_total_ordering();
    let kids = jpeg_children(files, dir);
    kids.lemma_sort_by_ensures(lex_leq());
    let g = group_images_spec(files, dir);
    assert(lex_leq()(g[i], g[j]));
    assert forall|k: int| 0 <= k < g.len() implies parent_of(#[trigger] g[k]) == dir by {
        assert(g.contains(g[k]));
        assert(kids.contains(g[k]));
        let m = choose|m: int| 0 <= m < kids.len() && kids[m] == g[k];
        assert(child_pred(dir)(kids[m]));
    }
    assert(sep_prefix_len(g[i], 47) > 0 && sep_prefix_len(g[j], 47) > 0) by {
        if sep_prefix_len(g[i], 47) <= 0 || sep_prefix_len(g[j], 47) <= 0 {
            assert(dir =~= Seq::<u8>::empty());
        }
    }
    lemma_path_reconstruction(g[i]);
    lemma_path_reconstruction(g[j]);
    lemma_lex_le_common_prefix(dir + seq![47u8], file_name_of(g[i]), file_name_of(g[j]));
    assert(g[i] =~= (dir + seq![47u8]) + file_name_of(g[i]));
    assert(g[j] =~= (dir + seq![47u8]) + file_name_of(g[j]));
}

/// A file that is not a `jpg`/`jpeg` — in particular one whose conversion
/// failed and whose source was therefore left untouched — appears in no
/// bundle.
pub proof fn lemma_non_jpeg_never_bundled(files: Seq<Seq<u8>>, dir: Seq<u8>, p: Seq<u8>)
    requires
        !is_jpeg_name(p),
    ensures
        !group_images_spec(files, dir).contains(p),
{
    broadcast use vstd::seq_lib::group_filter_ensures;

    lemma_lex_total_ordering();
    let kids = jpeg_children(files, dir);
    kids.lemma_sort_by_ensures(lex_leq());
    assert(!kids.contains(p)) by {
        if kids.contains(p) {
            let i = choose|i: int| 0 <= i < kids.len() && kids[i] == p;
            assert(child_pred(dir)(kids[i]));
        }
    }
}

/// No empty artifacts: every planned bundle has at least one page.
pub proof fn lemma_no_empty_bundles(dirs: Seq<DirEntView>, files: Seq<Seq<u8>>, overwrite: bool)
    ensures
        forall|i: int|
            0 <= i < plan_groups_spec(dirs, files, overwrite).len() ==> (
            #[trigger] plan_groups_spec(dirs, files, overwrite)[i]).images.len() > 0,
{
    broadcast use vstd::seq_lib::group_filter_ensures;
    broadcast use vstd::seq_lib::group_to_multiset_ensures;

    let plan = plan_groups_spec(dirs, files, overwrite);
    let picked = dirs.filter(selected_pred(files, overwrite));
    lemma_lex_total_ordering();
    assert forall|i: int| 0 <= i < plan.len() implies (#[trigger] plan[i]).images.len() > 0 by {
        assert(selected_pred(files, overwrite)(picked[i]));
        let kids = jpeg_children(files, picked[i].path);
        kids.lemma_sort_by_ensures(lex_leq());
        assert(kids.sort_by(lex_leq()).to_multiset().len() == kids.sort_by(lex_leq()).len());
        assert(kids.to_multiset().len() == kids.len());
    }
}

/// Re-running on an unchanged tree without overwrite plans nothing: every
/// directory's bundle already exists, so no file is touched again.
pub proof fn lemma_rerun_plans_nothing(dirs: Seq<DirEntView>, files: Seq<Seq<u8>>)
    requires
        forall|i: int| 0 <= i < dirs.len() ==> (#[trigger] dirs[i]).pdf_exists,
    ensures
        plan_groups_spec(dirs, files, false).len() == 0,
{
    broadcast use vstd::seq_lib::group_filter_ensures;

    let picked = dirs.filter(selected_pred(files, false));
    if picked.len() > 0 {
        assert(selected_pred(files, false)(picked[0]));
        assert(picked.contains(picked[0]));
        dirs.lemma_filter_contains_rev(selected_pred(files, false), picked[0]);
        assert(dirs.contains(picked[0]));
        let j = choose|j: int| 0 <= j < dirs.len() && dirs[j] == picked[0];
        assert(dirs[j].pdf_exists);
        assert(false);
    }
}

} // verus!
