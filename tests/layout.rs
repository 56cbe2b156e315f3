use linalg::layout::layout;

fn texts(items: &[&str]) -> Vec<String> {
    items.iter().map(|s| s.to_string()).collect()
}

#[test]
fn layout_three_rows() {
    let cells = texts(&["1", "4", "7", "2", "50", "8", "3", "6", "-9"]);
    assert_eq!(layout(&cells, 3, 3), "⎡ 1   2   3 ⎤\n⎢ 4  50   6 ⎢\n⎣ 7   8  -9 ⎦");
}

#[test]
fn layout_single_row_and_empty() {
    assert_eq!(layout(&texts(&["10", "2"]), 2, 1), "⎡ 10  2 ⎤");
    assert_eq!(layout(&texts(&[]), 0, 0), "");
    assert_eq!(layout(&texts(&["1", "22"]), 1, 2), "⎡  1 ⎤\n⎣ 22 ⎦");
}
