use matcher::Item;

fn chars(text: &str) -> Vec<char> {
    text.chars().collect()
}

#[test]
fn an_item_keeps_what_it_was_made_of() {
    let item = Item::new(7, chars("hello world"), vec![(0, 5), (6, 11)]).unwrap();
    assert_eq!(item.get_index(), 7);
    assert_eq!(item.get_lower_chars(), &chars("hello world")[..]);
    assert_eq!(item.get_matching_ranges(), &[(0, 5), (6, 11)][..]);
}

#[test]
fn an_item_needs_a_field() {
    assert!(Item::new(0, chars("hello"), vec![]).is_none());
}

#[test]
fn a_field_must_lie_inside_the_text() {
    assert!(Item::new(0, chars("hello"), vec![(0, 6)]).is_none());
    assert!(Item::new(0, chars("hello"), vec![(6, 6)]).is_none());
    assert!(Item::new(0, chars("hello"), vec![(0, 2), (3, 9)]).is_none());
    assert!(Item::new(0, chars("hello"), vec![(0, 5)]).is_some());
    assert!(Item::new(0, chars("hello"), vec![(5, 5)]).is_some());
}

#[test]
fn a_field_must_not_end_before_it_starts() {
    assert!(Item::new(0, chars("hello"), vec![(3, 2)]).is_none());
    assert!(Item::new(0, chars("hello"), vec![(0, 1), (4, 3)]).is_none());
}

#[test]
fn fields_must_not_overlap() {
    assert!(Item::new(0, chars("hello world"), vec![(0, 5), (4, 8)]).is_none());
    assert!(Item::new(0, chars("hello world"), vec![(4, 8), (0, 5)]).is_none());
    assert!(Item::new(0, chars("hello world"), vec![(0, 11), (3, 4)]).is_none());
    assert!(Item::new(0, chars("hello world"), vec![(0, 5), (6, 8), (7, 11)]).is_none());
    assert!(Item::new(0, chars("hello world"), vec![(2, 4), (2, 4)]).is_none());
}

#[test]
fn fields_may_touch_and_come_in_any_order() {
    assert!(Item::new(0, chars("hello world"), vec![(0, 5), (5, 11)]).is_some());
    assert!(Item::new(0, chars("hello world"), vec![(6, 11), (0, 5)]).is_some());
}

#[test]
fn an_empty_field_overlaps_nothing() {
    assert!(Item::new(0, chars("hello world"), vec![(0, 11), (3, 3)]).is_some());
    assert!(Item::new(0, chars("hello world"), vec![(3, 3), (3, 3)]).is_some());
    assert!(Item::new(0, chars(""), vec![(0, 0)]).is_some());
}

#[test]
fn the_index_must_fit_in_a_rank() {
    assert!(Item::new(i64::MAX as usize, chars("a"), vec![(0, 1)]).is_some());
    if usize::BITS >= 64 {
        assert!(Item::new(i64::MAX as usize + 1, chars("a"), vec![(0, 1)]).is_none());
        assert!(Item::new(usize::MAX, chars("a"), vec![(0, 1)]).is_none());
        assert!(Item::from_text(usize::MAX, "a").is_none());
    }
}

#[test]
fn an_item_from_text_is_one_field_in_lower_case() {
    let item = Item::from_text(3, "Hello World").unwrap();
    assert_eq!(item.get_index(), 3);
    assert_eq!(item.get_lower_chars(), &chars("hello world")[..]);
    assert_eq!(item.get_matching_ranges(), &[(0, 11)][..]);
}

#[test]
fn an_item_from_empty_text_has_an_empty_field() {
    let item = Item::from_text(0, "").unwrap();
    assert_eq!(item.get_lower_chars().len(), 0);
    assert_eq!(item.get_matching_ranges(), &[(0, 0)][..]);
}

#[test]
fn an_item_from_text_counts_characters_not_bytes() {
    let item = Item::from_text(0, "\u{c4}\u{d6}\u{dc}").unwrap();
    assert_eq!(item.get_lower_chars(), &chars("\u{e4}\u{f6}\u{fc}")[..]);
    assert_eq!(item.get_matching_ranges(), &[(0, 3)][..]);
}

#[test]
fn a_copy_of_an_item_is_the_same_item() {
    let item = Item::new(7, chars("hello world"), vec![(6, 11), (0, 5)]).unwrap();
    let copy = item.clone();
    assert_eq!(copy.get_index(), item.get_index());
    assert_eq!(copy.get_lower_chars(), item.get_lower_chars());
    assert_eq!(copy.get_matching_ranges(), item.get_matching_ranges());
    assert_eq!(copy.get_matching_ranges(), &[(6, 11), (0, 5)][..]);
}
