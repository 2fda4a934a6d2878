use rich_text::utils::list_item_prefix;

#[test]
fn test_list_item_prefix() {
    assert_eq!(list_item_prefix(0, true, 0), "1. ");
    assert_eq!(list_item_prefix(1, true, 0), "2. ");
    assert_eq!(list_item_prefix(2, true, 0), "3. ");
    assert_eq!(list_item_prefix(10, true, 0), "11. ");
    assert_eq!(list_item_prefix(0, true, 1), "A. ");
    assert_eq!(list_item_prefix(1, true, 1), "B. ");
    assert_eq!(list_item_prefix(2, true, 1), "C. ");
    assert_eq!(list_item_prefix(0, true, 2), "a. ");
    assert_eq!(list_item_prefix(1, true, 2), "b. ");
    assert_eq!(list_item_prefix(6, true, 2), "g. ");
    assert_eq!(list_item_prefix(0, true, 1), "A. ");
    assert_eq!(list_item_prefix(0, true, 2), "a. ");
    assert_eq!(list_item_prefix(0, false, 0), "▪ ");
    assert_eq!(list_item_prefix(0, false, 1), "• ");
    assert_eq!(list_item_prefix(0, false, 2), "◦ ");
    assert_eq!(list_item_prefix(0, false, 3), "‣ ");
    assert_eq!(list_item_prefix(0, false, 4), "⁃ ");
}

#[test]
fn deep_lists_and_letter_wraparound() {
    assert_eq!(list_item_prefix(25, true, 1), "Z. ");
    assert_eq!(list_item_prefix(26, true, 1), "A. ");
    assert_eq!(list_item_prefix(27, true, 2), "b. ");
    assert_eq!(list_item_prefix(99, true, 0), "100. ");
    assert_eq!(list_item_prefix(0, false, 9), "⁃ ");
}
