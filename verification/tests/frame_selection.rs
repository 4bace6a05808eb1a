use trajsel::{FrameSelection, Range};

#[test]
fn zero_selection() {
    let list_empty = FrameSelection::FrameList(Default::default());
    let list_zero = FrameSelection::framelist_from_iter(&[0]);
    let range_empty = FrameSelection::Range(Range::new(None, Some(0), None));

    for idx in 0..1000 {
        assert!(list_empty.is_included(idx).is_none());
        if idx > 0 {
            assert!(list_zero.is_included(idx).is_none());
        }
        assert!(range_empty.is_included(idx).is_none());
    }
}

#[test]
fn first_n() {
    let n = 100;
    let step: u64 = 17;

    let list = FrameSelection::framelist_from_iter(&(0..n).collect::<Vec<usize>>());
    let until = FrameSelection::Range(Range::new(None, Some(n as u64), None));
    let from_n = FrameSelection::Range(Range::new(Some(n as u64), None, None));
    let until_stepped = FrameSelection::Range(Range::new(None, Some(n as u64), Some(step)));
    let from_n_stepped = FrameSelection::Range(Range::new(Some(n as u64), None, Some(step)));
    let all = FrameSelection::All;

    for idx in 0..2 * n {
        if idx < n {
            assert_eq!(list.is_included(idx), Some(true));
            assert_eq!(until.is_included(idx), Some(true));
            assert_eq!(until_stepped.is_included(idx), Some(idx as u64 % step == 0),);
        } else {
            assert!(list.is_included(idx).is_none());
            assert!(until.is_included(idx).is_none());
            assert!(until_stepped.is_included(idx).is_none());
        }
        let from_n_included = idx >= n;
        assert_eq!(from_n.is_included(idx), Some(from_n_included));
        assert_eq!(
            from_n_stepped.is_included(idx),
            Some(from_n_included && (idx as u64 - n as u64) % step == 0),
        );
        assert_eq!(all.is_included(idx), Some(true));
    }
}

/// This test serves to replicate a degenerate case of stride arithmetic close
/// to the exclusive bound.
#[test]
fn range_clamped_step() {
    let end = 50;
    let s = FrameSelection::Range(Range::new(Some(25), Some(end), Some(3)));
    assert_eq!(s.until(), Some(end as usize));

    let included = [25, 28, 31, 34, 37, 40, 43, 46, 49];
    for i in 0..60 {
        let expected = if i < end {
            Some(included.contains(&i))
        } else {
            None
        };
        assert_eq!(s.is_included(i as usize), expected);
    }
}

#[test]
fn until() {
    let n = 100;
    let step: u64 = 17;

    let list = FrameSelection::framelist_from_iter(&(0..n).collect::<Vec<usize>>());
    let until = FrameSelection::Range(Range::new(None, Some(n as u64), None));
    let from_n = FrameSelection::Range(Range::new(Some(n as u64), None, None));
    let until_stepped = FrameSelection::Range(Range::new(None, Some(n as u64), Some(step)));
    let from_n_stepped = FrameSelection::Range(Range::new(Some(n as u64), None, Some(step)));
    let from_until_stepped =
        FrameSelection::Range(Range::new(Some(n as u64 / 3), Some(n as u64), Some(step)));
    let all = FrameSelection::All;

    assert_eq!(list.until(), Some(n));
    assert_eq!(until.until(), Some(n + 1));
    assert!(from_n.until().is_none());
    assert_eq!(until_stepped.until(), Some(86));
    assert!(from_n_stepped.until().is_none());
    assert_eq!(from_until_stepped.until(), Some(85));
    assert!(all.until().is_none());
}

#[test]
fn framelist_dedup_and_order() {
    let s = FrameSelection::framelist_from_iter(&[5, 1, 5, 3, 1]);
    assert_eq!(s.is_included(0), Some(false));
    assert_eq!(s.is_included(1), Some(true));
    assert_eq!(s.is_included(2), Some(false));
    assert_eq!(s.is_included(3), Some(true));
    assert_eq!(s.is_included(4), Some(false));
    assert_eq!(s.is_included(5), Some(true));
    assert_eq!(s.is_included(6), None);
    assert_eq!(s.is_included(100), None);
    assert_eq!(s.until(), Some(6));
}

#[test]
fn range_degenerate_start_after_end() {
    let r = Range::new(Some(10), Some(5), None);
    for idx in 0..5 {
        assert_eq!(r.is_included(idx), Some(false));
    }
    for idx in 5..20 {
        assert_eq!(r.is_included(idx), None);
    }
    assert_eq!(r.last(), Some(5));
    let s = FrameSelection::Range(r);
    assert_eq!(s.until(), Some(6));
}

#[test]
fn frame_defaults_include_all() {
    let s = FrameSelection::default();
    assert_eq!(s.is_included(0), Some(true));
    assert_eq!(s.is_included(987_654_321), Some(true));
    assert!(s.until().is_none());

    let r = Range::default();
    assert_eq!(r.start, 0);
    assert_eq!(r.end, None);
    assert_eq!(r.step, 1);
    assert_eq!(r.is_included(0), Some(true));
    assert_eq!(r.is_included(u64::MAX), Some(true));
    assert!(r.last().is_none());
}
