use draw_guess::draw_data::DrawData;

#[test]
fn test_slice() {
    // 0, 2  => 2
    // 2, 2 => 0
    // 3, 2 => 0
    // 2, 4 => 2
    let mut dd = DrawData::default();
    dd.draw("test".into(), 1);
    dd.draw("test".into(), 1);
    assert_eq!(dd.slice(0).len(), 2);
    assert_eq!(dd.slice(2).len(), 0);
    assert_eq!(dd.slice(3).len(), 0);
    dd.draw("test".into(), 1);
    dd.draw("test".into(), 1);
    assert_eq!(dd.slice(2).len(), 2);
}

#[test]
fn slice_counts_tail_and_undo() {
    let mut dd = DrawData::new();
    let n = 5usize;
    for i in 0..n {
        dd.draw(format!("stroke{}", i), i as i64);
    }
    for i in 0..=n {
        assert_eq!(dd.slice(i).len(), n - i);
    }
    assert_eq!(dd.slice(n + 1).len(), 0);
    assert_eq!(dd.slice(100).len(), 0);
    dd.undo();
    assert_eq!(dd.len(), n - 1);
    assert_eq!(dd.slice(0).len(), n - 1);
    assert_eq!(dd.slice(0)[0].data, "stroke0");
    assert_eq!(dd.slice(3)[0].data, "stroke3");
}

#[test]
fn undo_on_empty_is_a_noop_and_clear_empties() {
    let mut dd = DrawData::new();
    dd.undo();
    assert_eq!(dd.len(), 0);
    dd.draw("a".into(), 1);
    dd.draw("b".into(), 2);
    dd.clear();
    assert_eq!(dd.len(), 0);
    assert_eq!(dd.slice(0).len(), 0);
}
