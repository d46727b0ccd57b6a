use vimyc::suggest::{edit_distance, suggest};

#[test]
fn edit_distance_counts_single_character_edits() {
    assert_eq!(edit_distance("kitten", "sitting"), 3);
    assert_eq!(edit_distance("", "abc"), 3);
    assert_eq!(edit_distance("same", "same"), 0);
    assert_eq!(edit_distance("war-facotry", "war-factory"), 2);
}

#[test]
fn a_close_name_is_suggested() {
    let candidates = vec!["war-factory", "barracks", "radar"];
    assert_eq!(suggest("war-facotry", &candidates), " (did you mean `war-factory`?)");
    assert_eq!(suggest("zzzzzzzz", &candidates), "");
}

#[test]
fn edit_distance_is_zero_on_equal_strings_and_symmetric() {
    for (a, b) in [("war-facotry", "war-factory"), ("kitten", "sitting"), ("", "radar"), ("abc", "")] {
        assert_eq!(edit_distance(a, a), 0);
        assert_eq!(edit_distance(a, b), edit_distance(b, a));
    }
    assert_eq!(edit_distance("radar", ""), 5);
    assert_eq!(edit_distance("", "radar"), 5);
}
