use local_ham_dashboard::satellite::{earliest_passes, tle_records};

#[test]
fn records_in_threes() {
    let body = "  ISS (ZARYA)  \r\n1 25544U line one\r\n2 25544 line two\r\nAO-07\n1 07530U\n2 07530\nDANGLING\n1 only";
    let r = tle_records(body);
    assert_eq!(r.len(), 2);
    assert_eq!(r[0].name, "ISS (ZARYA)");
    assert_eq!(r[0].line1, "1 25544U line one");
    assert_eq!(r[0].line2, "2 25544 line two");
    assert_eq!(r[1].name, "AO-07");
    assert_eq!(r[1].line1, "1 07530U");
    assert_eq!(r[1].line2, "2 07530");
}

#[test]
fn records_of_short_feeds() {
    assert!(tle_records("").is_empty());
    assert!(tle_records("NAME\n1 x").is_empty());
    assert_eq!(tle_records("N\n1\n2\n").len(), 1);
}

#[test]
fn earliest_five_in_time_order() {
    let keys = vec![(50, 0), (10, 0), (30, 5), (30, 1), (70, 0), (20, 0), (10, 0)];
    assert_eq!(earliest_passes(&keys), vec![1, 6, 5, 3, 2]);
}

#[test]
fn fewer_than_five_passes() {
    assert_eq!(earliest_passes(&vec![(3, 0), (1, 0)]), vec![1, 0]);
    assert!(earliest_passes(&Vec::new()).is_empty());
}

#[test]
fn ties_keep_found_order() {
    let keys = vec![(5, 0); 7];
    assert_eq!(earliest_passes(&keys), vec![0, 1, 2, 3, 4]);
}

#[test]
fn agrees_with_stable_sort() {
    let keys: Vec<(i64, u32)> = (0..40).map(|i| (((i * 37) % 11) as i64 - 5, ((i * 7) % 3) as u32)).collect();
    let mut idx: Vec<usize> = (0..keys.len()).collect();
    idx.sort_by_key(|&i| keys[i]);
    idx.truncate(5);
    assert_eq!(earliest_passes(&keys), idx);
}
