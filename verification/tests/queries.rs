use linkstream_core::Link;
use linkstream_core::LinkStream;
use linkstream_core::LinkStreamData;

fn names(n: usize) -> Vec<String> {
    let mut v = Vec::new();
    for i in 0..n {
        v.push(format!("n{}", i));
    }
    v
}

fn stream(node_count: usize, links: Vec<Link>, min_time: u64, max_time: u64) -> LinkStream {
    let data = LinkStreamData {
        node_count,
        node_names: names(node_count),
        links,
        min_time,
        max_time,
    };
    assert!(data.validate().is_ok());
    LinkStream::new(String::from("test"), data)
}

fn three_node_stream() -> LinkStream {
    stream(
        3,
        vec![
            Link { n1: 0, n2: 1, start: 0, end: 10 },
            Link { n1: 1, n2: 2, start: 5, end: 15 },
        ],
        0,
        20,
    )
}

#[test]
fn full_window_matrix() {
    let s = three_node_stream();
    let m = s.interaction_matrix(0..20);
    assert_eq!(m, vec![vec![0, 10, 0], vec![10, 0, 10], vec![0, 10, 0]]);
}

#[test]
fn late_window_excludes_ended_link() {
    let s = three_node_stream();
    let m = s.interaction_matrix(11..20);
    assert_eq!(m, vec![vec![0, 0, 0], vec![0, 0, 10], vec![0, 10, 0]]);
}

#[test]
fn touching_endpoint_is_included() {
    let s = stream(2, vec![Link { n1: 0, n2: 1, start: 10, end: 20 }], 0, 40);
    assert_eq!(s.interaction_score_during(20..30), 10);
    let during = s.links_during(20..30);
    assert_eq!(during.len(), 1);
    assert_eq!(during[0], Link { n1: 0, n2: 1, start: 10, end: 20 });
}

#[test]
fn window_past_endpoint_is_excluded() {
    let s = stream(2, vec![Link { n1: 0, n2: 1, start: 10, end: 20 }], 0, 40);
    assert_eq!(s.interaction_score_during(21..30), 0);
    assert_eq!(s.links_during(21..30).len(), 0);
}

#[test]
fn window_touching_start_is_included() {
    let s = stream(2, vec![Link { n1: 0, n2: 1, start: 10, end: 20 }], 0, 40);
    assert_eq!(s.interaction_score_during(0..10), 10);
    assert_eq!(s.interaction_score_during(0..9), 0);
}

#[test]
fn matrix_is_symmetric() {
    let s = stream(
        4,
        vec![
            Link { n1: 0, n2: 3, start: 2, end: 9 },
            Link { n1: 2, n2: 1, start: 4, end: 11 },
            Link { n1: 3, n2: 0, start: 5, end: 6 },
            Link { n1: 1, n2: 3, start: 0, end: 30 },
        ],
        0,
        30,
    );
    let m = s.interaction_matrix(3..12);
    for i in 0..4 {
        for j in 0..4 {
            assert_eq!(m[i][j], m[j][i]);
        }
    }
}

#[test]
fn score_counts_all_links() {
    let s = three_node_stream();
    assert_eq!(s.interaction_score_during(0..20), 20);
}

#[test]
fn score_is_monotone_in_the_window() {
    let s = three_node_stream();
    let inner = s.interaction_score_during(6..9);
    let mid = s.interaction_score_during(5..12);
    let outer = s.interaction_score_during(0..20);
    assert!(inner <= mid);
    assert!(mid <= outer);
}

#[test]
fn adjacent_windows_add_up() {
    // No link overlaps both [0, 9] and [10, 19].
    let s = stream(
        2,
        vec![
            Link { n1: 0, n2: 1, start: 0, end: 5 },
            Link { n1: 0, n2: 1, start: 12, end: 15 },
        ],
        0,
        20,
    );
    let whole = s.interaction_matrix(0..19);
    let first = s.interaction_matrix(0..9);
    let second = s.interaction_matrix(10..19);
    for i in 0..2 {
        for j in 0..2 {
            assert_eq!(whole[i][j], first[i][j] + second[i][j]);
        }
    }
    assert_eq!(
        s.interaction_score_during(0..19),
        s.interaction_score_during(0..9) + s.interaction_score_during(10..19)
    );
}

#[test]
fn repeated_pairs_sum_their_durations() {
    let s = stream(
        2,
        vec![
            Link { n1: 0, n2: 1, start: 0, end: 4 },
            Link { n1: 1, n2: 0, start: 6, end: 13 },
        ],
        0,
        20,
    );
    let m = s.interaction_matrix(0..20);
    assert_eq!(m[0][1], 11);
    assert_eq!(m[1][0], 11);
    assert_eq!(m[0][0], 0);
    assert_eq!(m[1][1], 0);
}

#[test]
fn self_link_does_not_crash() {
    let s = stream(2, vec![Link { n1: 1, n2: 1, start: 0, end: 5 }], 0, 10);
    let m = s.interaction_matrix(0..10);
    // A self-link accumulates into its diagonal cell from both orientations.
    assert_eq!(m[1][1], 10);
    assert_eq!(m[0][0], 0);
    assert_eq!(m[0][1], 0);
    assert_eq!(s.interaction_score_during(0..10), 5);
}

#[test]
fn empty_link_list_yields_zero_aggregates() {
    let s = stream(3, Vec::new(), 0, 10);
    let m = s.interaction_matrix(0..10);
    assert_eq!(m, vec![vec![0, 0, 0]; 3]);
    assert_eq!(s.interaction_score_during(0..10), 0);
    assert_eq!(s.links_during(0..10).len(), 0);
}

#[test]
fn window_outside_time_bounds_is_empty_not_an_error() {
    let s = three_node_stream();
    assert_eq!(s.interaction_score_during(30..40), 0);
    let m = s.interaction_matrix(30..40);
    assert_eq!(m, vec![vec![0, 0, 0]; 3]);
}

#[test]
fn getters_report_the_dataset() {
    let s = three_node_stream();
    assert_eq!(s.node_count(), 3);
    assert_eq!(s.name(), "test");
    let names: Vec<String> = s.node_names().clone();
    assert_eq!(names, vec!["n0", "n1", "n2"]);
    let w = s.time_window();
    assert_eq!(w.start, 0);
    assert_eq!(w.end, 20);
}

#[test]
fn links_during_returns_each_overlapping_link_once() {
    let s = three_node_stream();
    let mut during = s.links_during(0..4);
    during.sort_by_key(|l| (l.n1, l.n2, l.start, l.end));
    assert_eq!(during, vec![Link { n1: 0, n2: 1, start: 0, end: 10 }]);
    let mut all = s.links_during(5..10);
    all.sort_by_key(|l| (l.n1, l.n2, l.start, l.end));
    assert_eq!(
        all,
        vec![
            Link { n1: 0, n2: 1, start: 0, end: 10 },
            Link { n1: 1, n2: 2, start: 5, end: 15 },
        ]
    );
}
