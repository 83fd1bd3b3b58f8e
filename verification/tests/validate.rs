use linkstream_core::DatasetError;
use linkstream_core::Link;
use linkstream_core::LinkStreamData;

fn base() -> LinkStreamData {
    LinkStreamData {
        node_count: 2,
        node_names: vec![String::from("a"), String::from("b")],
        links: vec![Link { n1: 0, n2: 1, start: 2, end: 8 }],
        min_time: 0,
        max_time: 10,
    }
}

#[test]
fn valid_dataset_passes() {
    assert_eq!(base().validate(), Ok(()));
}

#[test]
fn name_count_mismatch_is_rejected() {
    let mut d = base();
    d.node_names.pop();
    assert_eq!(d.validate(), Err(DatasetError::NameCountMismatch));
}

#[test]
fn inverted_time_bounds_are_rejected() {
    let mut d = base();
    d.min_time = 11;
    assert_eq!(d.validate(), Err(DatasetError::InvalidTimeBounds));
}

#[test]
fn max_time_at_the_top_of_u64_is_rejected() {
    let mut d = base();
    d.max_time = u64::MAX;
    assert_eq!(d.validate(), Err(DatasetError::InvalidTimeBounds));
}

#[test]
fn link_with_node_out_of_range_is_rejected() {
    let mut d = base();
    d.links.push(Link { n1: 0, n2: 2, start: 1, end: 3 });
    assert_eq!(d.validate(), Err(DatasetError::InvalidLink));
}

#[test]
fn link_with_inverted_interval_is_rejected() {
    let mut d = base();
    d.links.push(Link { n1: 0, n2: 1, start: 7, end: 3 });
    assert_eq!(d.validate(), Err(DatasetError::InvalidLink));
}

#[test]
fn link_outside_time_bounds_is_rejected() {
    let mut d = base();
    d.links.push(Link { n1: 0, n2: 1, start: 5, end: 11 });
    assert_eq!(d.validate(), Err(DatasetError::InvalidLink));
}

#[test]
fn oversized_total_activity_is_rejected() {
    let d = LinkStreamData {
        node_count: 2,
        node_names: vec![String::from("a"), String::from("b")],
        links: vec![Link { n1: 0, n2: 1, start: 0, end: u64::MAX - 1 }],
        min_time: 0,
        max_time: u64::MAX - 1,
    };
    assert_eq!(d.validate(), Err(DatasetError::ActivityOverflow));
}

#[test]
fn name_check_comes_before_link_check() {
    let mut d = base();
    d.node_names.pop();
    d.links.push(Link { n1: 5, n2: 9, start: 1, end: 2 });
    assert_eq!(d.validate(), Err(DatasetError::NameCountMismatch));
}
