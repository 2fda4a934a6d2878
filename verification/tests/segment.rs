use rich_text::segment::{segment_runs, Run};

#[test]
fn runs_partition_and_classify() {
    let highlights = vec![(2usize, 6usize)];
    let code_ranges = vec![(4usize, 8usize)];
    let runs = segment_runs(10, &highlights, &code_ranges);
    assert_eq!(
        runs,
        vec![
            Run { start: 0, end: 2, highlight: None, code: false },
            Run { start: 2, end: 4, highlight: Some(0), code: false },
            Run { start: 4, end: 6, highlight: Some(0), code: true },
            Run { start: 6, end: 8, highlight: None, code: true },
            Run { start: 8, end: 10, highlight: None, code: false },
        ]
    );
    // the partition covers [0, 10) exactly once
    let total: usize = runs.iter().map(|r| r.end - r.start).sum();
    assert_eq!(total, 10);
    for w in runs.windows(2) {
        assert_eq!(w[0].end, w[1].start);
    }
}

#[test]
fn no_ranges_makes_one_run() {
    let runs = segment_runs(7, &vec![], &vec![]);
    assert_eq!(runs, vec![Run { start: 0, end: 7, highlight: None, code: false }]);
}

#[test]
fn empty_text_makes_no_runs() {
    let runs = segment_runs(0, &vec![], &vec![]);
    assert!(runs.is_empty());
    let runs = segment_runs(0, &vec![(0, 0)], &vec![]);
    assert!(runs.is_empty());
}

#[test]
fn touching_ranges_share_a_breakpoint() {
    let highlights = vec![(0usize, 3usize), (3usize, 6usize)];
    let runs = segment_runs(6, &highlights, &vec![]);
    assert_eq!(
        runs,
        vec![
            Run { start: 0, end: 3, highlight: Some(0), code: false },
            Run { start: 3, end: 6, highlight: Some(1), code: false },
        ]
    );
}

#[test]
fn run_inside_one_highlight_and_no_code_keeps_only_that_highlight() {
    let highlights = vec![(1usize, 9usize)];
    let code_ranges = vec![(3usize, 5usize)];
    let runs = segment_runs(10, &highlights, &code_ranges);
    let middle = runs.iter().find(|r| r.start == 1 && r.end == 3).unwrap();
    assert_eq!(middle.highlight, Some(0));
    assert!(!middle.code);
}
