use exercises::count_distinct::new_count_distinct;

#[test]
fn counts_distinct_items() {
    assert_eq!(new_count_distinct("a,b,c"), 3);
    assert_eq!(new_count_distinct("a,b,a,c,b"), 3);
    assert_eq!(new_count_distinct("a,a,a"), 1);
    assert_eq!(new_count_distinct("apple,pear,apple,plum,Apple"), 4);
    assert_eq!(new_count_distinct("1,2,3,4,5,6,7,8,9,10,1,01"), 11);
}

#[test]
fn an_empty_list_holds_one_empty_item() {
    assert_eq!(new_count_distinct(""), 1);
    assert_eq!(new_count_distinct(","), 1);
    assert_eq!(new_count_distinct(",,,"), 1);
    assert_eq!(new_count_distinct("a,,b,"), 3);
    assert_eq!(new_count_distinct(",a"), 2);
}

#[test]
fn items_are_compared_character_by_character() {
    assert_eq!(new_count_distinct("a, a,a "), 3);
    assert_eq!(new_count_distinct("é,e,é"), 2);
    assert_eq!(new_count_distinct("ab,a,b,ab"), 3);
}

#[test]
fn counts_as_a_hash_set_does() {
    let samples = ["x", "x,y", "q,,q,,", "1,2,3,1,2,3", "a,b;c,a,b;c", ",,a,,"];
    for sample in samples {
        let expected: std::collections::HashSet<&str> = sample.split(',').collect();
        assert_eq!(new_count_distinct(sample), expected.len());
    }
}
