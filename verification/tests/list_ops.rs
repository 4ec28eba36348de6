use linked_list::list::LinkedList;

#[test]
fn append_string_to_empty_list() {
    let mut list = LinkedList::new_empty();
    list.append("Hello".to_string());
    list.append(",".to_string());
    list.append("LinkedList!".to_string());
    assert_eq!(list.length, 3);
    assert_eq!(list.pop(), Some("Hello".to_string()));
}

#[test]
fn append_int32_to_empty_list() {
    let mut list = LinkedList::new_empty();
    list.append(1);
    list.append(-2);
    list.append(333);
    assert_eq!(list.length, 3);
    assert_eq!(list.pop(), Some(1));
}

#[test]
fn pop_on_fresh_list_is_absent() {
    let mut list: LinkedList<i32> = LinkedList::new_empty();
    assert_eq!(list.pop(), None);
    assert_eq!(list.length, 0);
    assert_eq!(list.pop(), None);
    assert_eq!(list.length, 0);
}

#[test]
fn appends_then_pops_are_fifo() {
    let mut list = LinkedList::new_empty();
    let vals: Vec<u64> = vec![10, 20, 30, 40, 50];
    for v in &vals {
        list.append(*v);
    }
    assert_eq!(list.length, vals.len() as u64);
    for (i, v) in vals.iter().enumerate() {
        assert_eq!(list.pop(), Some(*v));
        assert_eq!(list.length, (vals.len() - i - 1) as u64);
    }
    assert_eq!(list.pop(), None);
}

#[test]
fn pop_int_sequence_to_empty() {
    let mut list = LinkedList::new_empty();
    list.append(1);
    list.append(-2);
    list.append(333);
    assert_eq!(list.length, 3);
    assert_eq!(list.pop(), Some(1));
    assert_eq!(list.length, 2);
    assert_eq!(list.pop(), Some(-2));
    assert_eq!(list.pop(), Some(333));
    assert_eq!(list.pop(), None);
    assert_eq!(list.length, 0);
}

#[test]
fn pop_string_sequence_to_empty() {
    let mut list = LinkedList::new_empty();
    list.append("Hello".to_string());
    list.append(",".to_string());
    list.append("LinkedList!".to_string());
    assert_eq!(list.length, 3);
    assert_eq!(list.pop(), Some("Hello".to_string()));
    assert_eq!(list.length, 2);
    assert_eq!(list.pop(), Some(",".to_string()));
    assert_eq!(list.pop(), Some("LinkedList!".to_string()));
    assert_eq!(list.pop(), None);
    assert_eq!(list.length, 0);
}

#[test]
fn drained_list_behaves_like_fresh() {
    let mut drained = LinkedList::new_empty();
    drained.append(7);
    drained.append(8);
    assert_eq!(drained.pop(), Some(7));
    assert_eq!(drained.pop(), Some(8));
    assert_eq!(drained.length, 0);

    let mut fresh = LinkedList::new_empty();

    drained.append(9);
    fresh.append(9);
    assert_eq!(drained.length, 1);
    assert_eq!(fresh.length, 1);
    assert_eq!(drained.pop(), Some(9));
    assert_eq!(fresh.pop(), Some(9));
    assert_eq!(drained.pop(), None);
    assert_eq!(fresh.pop(), None);
}

#[test]
fn interleaved_front_is_earliest_unpopped() {
    let mut list = LinkedList::new_empty();
    list.append(1);
    list.append(2);
    assert_eq!(list.pop(), Some(1));
    list.append(3);
    assert_eq!(list.pop(), Some(2));
    list.append(4);
    list.append(5);
    assert_eq!(list.pop(), Some(3));
    assert_eq!(list.pop(), Some(4));
    assert_eq!(list.pop(), Some(5));
    assert_eq!(list.pop(), None);
    assert_eq!(list.length, 0);
}

#[test]
fn same_operations_agree_across_value_types() {
    let script: Vec<(bool, usize)> = vec![
        (true, 0),
        (true, 1),
        (false, 0),
        (true, 2),
        (false, 1),
        (false, 2),
        (false, 0),
    ];
    let words = ["alpha", "beta", "gamma"];

    let mut ints: LinkedList<i64> = LinkedList::new_empty();
    let mut texts: LinkedList<String> = LinkedList::new_empty();
    let mut popped_ints: Vec<Option<i64>> = Vec::new();
    let mut popped_texts: Vec<Option<String>> = Vec::new();

    for (is_append, k) in &script {
        if *is_append {
            ints.append(*k as i64);
            texts.append(words[*k].to_string());
        } else {
            popped_ints.push(ints.pop());
            popped_texts.push(texts.pop());
        }
        assert_eq!(ints.length, texts.length);
    }

    let expect_ints: Vec<Option<i64>> = vec![Some(0), Some(1), Some(2), None];
    let expect_texts: Vec<Option<String>> = vec![
        Some("alpha".to_string()),
        Some("beta".to_string()),
        Some("gamma".to_string()),
        None,
    ];
    assert_eq!(popped_ints, expect_ints);
    assert_eq!(popped_texts, expect_texts);
}
