use order_in_yaml_frontmatter::page::{OrderError, PageList, SourceFile, SwapDirection};

fn file(name: &str, text: &str) -> SourceFile {
    SourceFile {
        path: format!("content/{}", name),
        file_name: name.to_string(),
        directory: "content".to_string(),
        text: text.to_string(),
    }
}

fn with_order(name: &str, order: Option<i64>) -> SourceFile {
    let text = match order {
        Some(v) => format!("---\ntitle: {}\norder: {}\n---\nbody of {}\n", name, v, name),
        None => format!("---\ntitle: {}\n---\nbody of {}\n", name, name),
    };
    file(name, &text)
}

fn names(list: &PageList) -> Vec<String> {
    (0..list.len()).map(|i| list.get(i).unwrap().file_name().clone()).collect()
}

fn values(list: &PageList) -> Vec<Option<i64>> {
    (0..list.len()).map(|i| list.get(i).unwrap().value()).collect()
}

fn three_documents() -> PageList {
    let files = vec![
        with_order("doc_a", None),
        with_order("doc_c", Some(1)),
        with_order("doc_b", Some(0)),
    ];
    PageList::try_new("order", &files).unwrap()
}

#[test]
fn loading_sorts_and_renumbers() {
    let list = three_documents();
    assert_eq!(names(&list), vec!["doc_b", "doc_c", "doc_a"]);
    assert_eq!(values(&list), vec![Some(0), Some(1), None]);
}

#[test]
fn toggle_includes_document_after_last_ordered() {
    let mut list = three_documents();
    assert_eq!(list.toggle_value(2), Ok(()));
    assert_eq!(names(&list), vec!["doc_b", "doc_c", "doc_a"]);
    assert_eq!(values(&list), vec![Some(0), Some(1), Some(2)]);
}

#[test]
fn swap_trades_places_and_keeps_values_in_place() {
    let mut list = three_documents();
    list.toggle_value(2).unwrap();
    assert_eq!(list.swap_with_value(0, SwapDirection::Next), Ok(()));
    assert_eq!(names(&list), vec!["doc_c", "doc_b", "doc_a"]);
    assert_eq!(values(&list), vec![Some(0), Some(1), Some(2)]);
}

#[test]
fn toggle_of_last_ordered_leaves_the_others() {
    let mut list = three_documents();
    list.toggle_value(2).unwrap();
    assert_eq!(list.toggle_value(2), Ok(()));
    assert_eq!(values(&list), vec![Some(0), Some(1), None]);
    assert_eq!(names(&list), vec!["doc_b", "doc_c", "doc_a"]);
}

#[test]
fn toggle_out_closes_the_gap() {
    let mut list = three_documents();
    list.toggle_value(2).unwrap();
    assert_eq!(list.toggle_value(0), Ok(()));
    assert_eq!(values(&list), vec![None, Some(0), Some(1)]);
}

#[test]
fn toggle_in_without_ordered_predecessor_gives_zero() {
    let files = vec![with_order("a", None), with_order("b", None)];
    let mut list = PageList::try_new("order", &files).unwrap();
    assert_eq!(list.toggle_value(1), Ok(()));
    assert_eq!(values(&list), vec![None, Some(0)]);
    assert_eq!(list.toggle_value(0), Ok(()));
    assert_eq!(values(&list), vec![Some(0), Some(1)]);
}

#[test]
fn toggle_in_makes_room_among_later_documents() {
    let files = vec![
        with_order("a", Some(0)),
        with_order("b", Some(1)),
        with_order("c", Some(2)),
    ];
    let mut list = PageList::try_new("order", &files).unwrap();
    list.toggle_value(1).unwrap();
    assert_eq!(values(&list), vec![Some(0), None, Some(1)]);
    list.toggle_value(1).unwrap();
    assert_eq!(values(&list), vec![Some(0), Some(1), Some(2)]);
}

#[test]
fn toggle_twice_restores_every_value() {
    for idx in 0..4 {
        let files = vec![
            with_order("a", Some(5)),
            with_order("b", None),
            with_order("c", Some(7)),
            with_order("d", None),
        ];
        let mut list = PageList::try_new("order", &files).unwrap();
        list.swap_with_value(1, SwapDirection::Next).unwrap();
        let before = (names(&list), values(&list));
        list.toggle_value(idx).unwrap();
        assert_ne!(values(&list), before.1);
        list.toggle_value(idx).unwrap();
        assert_eq!((names(&list), values(&list)), before);
    }
}

#[test]
fn swap_next_then_prev_restores_the_list() {
    for idx in 0..3 {
        let files = vec![
            with_order("a", Some(1)),
            with_order("b", Some(0)),
            with_order("c", None),
            with_order("d", None),
        ];
        let mut list = PageList::try_new("order", &files).unwrap();
        let before = (names(&list), values(&list));
        list.swap_with_value(idx, SwapDirection::Next).unwrap();
        assert_ne!(names(&list), before.0);
        list.swap_with_value(idx + 1, SwapDirection::Prev).unwrap();
        assert_eq!((names(&list), values(&list)), before);
    }
}

#[test]
fn swap_with_unordered_neighbour_moves_the_value_along() {
    let mut list = three_documents();
    assert_eq!(list.swap_with_value(2, SwapDirection::Prev), Ok(()));
    assert_eq!(names(&list), vec!["doc_b", "doc_a", "doc_c"]);
    assert_eq!(values(&list), vec![Some(0), None, Some(1)]);
}

#[test]
fn swap_prev_of_two_ordered_documents() {
    let mut list = three_documents();
    assert_eq!(list.swap_with_value(1, SwapDirection::Prev), Ok(()));
    assert_eq!(names(&list), vec!["doc_c", "doc_b", "doc_a"]);
    assert_eq!(values(&list), vec![Some(0), Some(1), None]);
}

#[test]
fn values_stay_dense_and_ascending_under_edits() {
    let files: Vec<SourceFile> = (0..6)
        .map(|i| with_order(&format!("p{}", i), if i % 2 == 0 { Some(10 - i) } else { None }))
        .collect();
    let mut list = PageList::try_new("order", &files).unwrap();
    let edits: [(usize, u8); 14] = [
        (1, 0), (0, 1), (3, 0), (4, 2), (5, 0), (2, 1), (0, 0),
        (1, 2), (2, 0), (5, 2), (3, 1), (4, 0), (0, 1), (2, 2),
    ];
    for (idx, what) in edits {
        match what {
            0 => list.toggle_value(idx).unwrap(),
            1 => list.swap_with_value(idx, SwapDirection::Next).unwrap(),
            _ => list.swap_with_value(idx, SwapDirection::Prev).unwrap(),
        }
        let ordered: Vec<i64> = values(&list).into_iter().flatten().collect();
        let expected: Vec<i64> = (0..ordered.len() as i64).collect();
        assert_eq!(ordered, expected);
    }
}

#[test]
fn sort_is_stable_for_equal_and_missing_values() {
    let files = vec![
        with_order("n1", None),
        with_order("x", Some(3)),
        with_order("y", Some(3)),
        with_order("n2", None),
        with_order("z", Some(-2)),
        with_order("w", Some(3)),
    ];
    let list = PageList::try_new("order", &files).unwrap();
    assert_eq!(names(&list), vec!["z", "x", "y", "w", "n1", "n2"]);
    assert_eq!(
        values(&list),
        vec![Some(0), Some(1), Some(2), Some(3), None, None]
    );
    let stored: Vec<Option<i64>> =
        (0..list.len()).map(|i| list.get(i).unwrap().value_old()).collect();
    assert_eq!(
        stored,
        vec![Some(-2), Some(3), Some(3), Some(3), None, None]
    );
}

#[test]
fn toggle_out_of_range_is_refused() {
    let mut list = three_documents();
    assert_eq!(list.toggle_value(3), Err(OrderError::IndexOutOfRange(3)));
    assert_eq!(values(&list), vec![Some(0), Some(1), None]);
}

#[test]
fn toggle_on_empty_list_is_refused() {
    let mut list = PageList::try_new("order", &Vec::new()).unwrap();
    assert_eq!(list.len(), 0);
    assert_eq!(list.toggle_value(0), Err(OrderError::IndexOutOfRange(0)));
}

#[test]
fn swap_out_of_range_is_refused() {
    let mut list = three_documents();
    assert_eq!(
        list.swap_with_value(3, SwapDirection::Prev),
        Err(OrderError::IndexOutOfRange(3))
    );
    assert_eq!(names(&list), vec!["doc_b", "doc_c", "doc_a"]);
}

#[test]
fn swap_without_neighbour_is_refused() {
    let mut list = three_documents();
    assert_eq!(
        list.swap_with_value(0, SwapDirection::Prev),
        Err(OrderError::NoSuchNeighbor(SwapDirection::Prev))
    );
    assert_eq!(
        list.swap_with_value(2, SwapDirection::Next),
        Err(OrderError::NoSuchNeighbor(SwapDirection::Next))
    );
    assert_eq!(names(&list), vec!["doc_b", "doc_c", "doc_a"]);
    assert_eq!(values(&list), vec![Some(0), Some(1), None]);
}

#[test]
fn get_is_bounds_checked() {
    let list = three_documents();
    assert!(list.get(2).is_some());
    assert!(list.get(3).is_none());
    assert_eq!(list.key(), "order");
}
