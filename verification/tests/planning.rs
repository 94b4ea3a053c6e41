use imgbundle::entries::DirEnt;
use imgbundle::plan::{plan_conversions, plan_groups};
use imgbundle::progress::Progress;
use imgbundle::roots::{plan_each_root, RootPlan, RootScan};

fn dir(path: &[u8], pdf_exists: bool) -> DirEnt {
    DirEnt { path: path.to_vec(), pdf_exists }
}

#[test]
fn conversions_cover_exactly_png_and_avif() {
    let files = vec![
        b"r/a.png".to_vec(),
        b"r/b.jpg".to_vec(),
        b"r/c.avif".to_vec(),
        b"r/d.txt".to_vec(),
    ];
    let jobs = plan_conversions(&files);
    assert_eq!(jobs.len(), 2);
    assert_eq!(jobs[0].source, b"r/a.png".to_vec());
    assert_eq!(jobs[0].target, b"r/a.jpg".to_vec());
    assert_eq!(jobs[1].source, b"r/c.avif".to_vec());
    assert_eq!(jobs[1].target, b"r/c.jpg".to_vec());
}

#[test]
fn page_order_is_lexicographic_whatever_the_scan_order() {
    let dirs = vec![dir(b"root", false)];
    // The three converted files arrive in completion order, not name order.
    let files = vec![
        b"root/c.jpg".to_vec(),
        b"root/a.jpg".to_vec(),
        b"root/b.jpg".to_vec(),
    ];
    let groups = plan_groups(&dirs, &files, false);
    assert_eq!(groups.len(), 1);
    assert_eq!(groups[0].dir, b"root".to_vec());
    assert_eq!(groups[0].output, b"root.pdf".to_vec());
    assert_eq!(
        groups[0].images,
        vec![b"root/a.jpg".to_vec(), b"root/b.jpg".to_vec(), b"root/c.jpg".to_vec()]
    );
}

#[test]
fn failed_conversion_is_left_out_of_the_bundle() {
    // c.avif failed to decode, so it kept its extension; only a and b
    // become pages.
    let dirs = vec![dir(b"root", false)];
    let files = vec![
        b"root/a.jpg".to_vec(),
        b"root/b.jpg".to_vec(),
        b"root/c.avif".to_vec(),
    ];
    let groups = plan_groups(&dirs, &files, false);
    assert_eq!(groups.len(), 1);
    assert_eq!(groups[0].images, vec![b"root/a.jpg".to_vec(), b"root/b.jpg".to_vec()]);
}

#[test]
fn directory_without_images_gets_no_bundle() {
    let dirs = vec![dir(b"root", false)];
    let files = vec![b"root/readme.txt".to_vec(), b"root/data.csv".to_vec()];
    let groups = plan_groups(&dirs, &files, false);
    assert_eq!(groups.len(), 0);
}

#[test]
fn nested_directories_keep_their_own_images() {
    let dirs = vec![dir(b"root", false), dir(b"root/sub", false)];
    let files = vec![b"root/a.jpg".to_vec(), b"root/sub/b.jpg".to_vec()];
    let groups = plan_groups(&dirs, &files, false);
    assert_eq!(groups.len(), 2);
    assert_eq!(groups[0].dir, b"root".to_vec());
    assert_eq!(groups[0].images, vec![b"root/a.jpg".to_vec()]);
    assert_eq!(groups[1].dir, b"root/sub".to_vec());
    assert_eq!(groups[1].images, vec![b"root/sub/b.jpg".to_vec()]);
}

#[test]
fn existing_bundle_is_skipped_unless_overwrite() {
    let files = vec![b"root/a.jpg".to_vec()];
    let kept = plan_groups(&vec![dir(b"root", true)], &files, false);
    assert_eq!(kept.len(), 0);
    let overwritten = plan_groups(&vec![dir(b"root", true)], &files, true);
    assert_eq!(overwritten.len(), 1);
}

#[test]
fn second_run_on_unchanged_tree_plans_nothing() {
    let files = vec![b"root/a.jpg".to_vec(), b"root/sub/b.jpg".to_vec()];
    // First run: no bundles exist yet.
    let first = plan_groups(&vec![dir(b"root", false), dir(b"root/sub", false)], &files, false);
    assert_eq!(first.len(), 2);
    // Second run: both bundles now exist; nothing is planned, so nothing
    // can be duplicated or overwritten.
    let second = plan_groups(&vec![dir(b"root", true), dir(b"root/sub", true)], &files, false);
    assert_eq!(second.len(), 0);
}

#[test]
fn a_failing_root_cannot_disturb_another() {
    let scans = vec![
        RootScan::Unreadable,
        RootScan::Tree {
            dirs: vec![dir(b"r2", false)],
            files: vec![b"r2/a.jpg".to_vec()],
        },
    ];
    let plans = plan_each_root(&scans, false);
    assert_eq!(plans.len(), 2);
    assert!(matches!(plans[0], RootPlan::Aborted));
    match &plans[1] {
        RootPlan::Bundles(groups) => {
            assert_eq!(groups.len(), 1);
            assert_eq!(groups[0].output, b"r2.pdf".to_vec());
            assert_eq!(groups[0].images, vec![b"r2/a.jpg".to_vec()]);
        }
        RootPlan::Aborted => panic!("healthy root was aborted"),
    }
}

#[test]
fn phase_barrier_opens_only_when_all_jobs_are_accounted() {
    let mut p = Progress::new(2);
    assert!(!p.phase_complete());
    p.record(true);
    assert!(!p.phase_complete());
    p.record(false);
    assert!(p.phase_complete());
    assert_eq!(p.converted, 1);
    assert_eq!(p.failed, 1);
}
