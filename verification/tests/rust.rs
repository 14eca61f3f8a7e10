use serde_with::duplicate_key_impls::{DuplicateEntry, UniqueMapReader, UniqueSetReader};
use serde_with::rust::{
    maps_duplicate_key_is_error, maps_first_key_wins, sets_duplicate_value_is_error,
    sets_first_value_wins, StringWithSeparator,
};
use serde_with::{CommaSeparator, SpaceSeparator};
use std::collections::{BTreeMap, BTreeSet, HashMap, HashSet};

fn strings(v: &[&str]) -> Vec<String> {
    v.iter().map(|s| s.to_string()).collect()
}

fn is_equal_comma(values: Vec<String>, expected: &str) {
    let s = StringWithSeparator::<CommaSeparator>::serialize(&values);
    assert_eq!(s, expected);
    assert_eq!(StringWithSeparator::<CommaSeparator>::deserialize(&s), values);
}

#[test]
fn string_collection() {
    is_equal_comma(vec![], "");
    is_equal_comma(strings(&["A", "B", "c", "D"]), "A,B,c,D");
    is_equal_comma(strings(&["", "", ""]), ",,");
    is_equal_comma(strings(&["AVeryLongString"]), "AVeryLongString");
}

#[test]
fn string_with_separator_tags() {
    let tags = StringWithSeparator::<SpaceSeparator>::deserialize("#hello #world");
    assert_eq!(tags, strings(&["#hello", "#world"]));
    let more = StringWithSeparator::<CommaSeparator>::deserialize("foo,bar,bar");
    assert_eq!(more, strings(&["foo", "bar", "bar"]));
    let set: BTreeSet<String> = more.into_iter().collect();
    assert_eq!(set.len(), 2);
    assert_eq!(
        StringWithSeparator::<SpaceSeparator>::serialize(&strings(&["1", "2", "3"])),
        "1 2 3"
    );
    assert_eq!(StringWithSeparator::<CommaSeparator>::serialize(&vec![]), "");
}

#[test]
fn string_with_separator_single_empty_value() {
    // A single empty value is written as the empty string, which reads back
    // as no values at all.
    let s = StringWithSeparator::<CommaSeparator>::serialize(&strings(&[""]));
    assert_eq!(s, "");
    assert_eq!(StringWithSeparator::<CommaSeparator>::deserialize(&s), Vec::<String>::new());
    // Empty pieces between separators are kept.
    assert_eq!(
        StringWithSeparator::<CommaSeparator>::deserialize(",a,"),
        strings(&["", "a", ""])
    );
}

#[test]
fn prohibit_duplicate_value_hashset() {
    let ok: HashSet<usize> = sets_duplicate_value_is_error::deserialize(vec![1, 2, 3, 4]).unwrap();
    assert_eq!(ok, [1, 2, 3, 4].iter().cloned().collect());
    let err = sets_duplicate_value_is_error::deserialize::<HashSet<usize>, usize>(vec![1, 2, 3, 4, 1]);
    assert_eq!(err.unwrap_err(), DuplicateEntry { index: 4 });
}

#[test]
fn prohibit_duplicate_value_btreeset() {
    let ok: BTreeSet<usize> = sets_duplicate_value_is_error::deserialize(vec![1, 2, 3, 4]).unwrap();
    assert_eq!(ok.into_iter().collect::<Vec<_>>(), vec![1, 2, 3, 4]);
    let err = sets_duplicate_value_is_error::deserialize::<BTreeSet<usize>, usize>(vec![1, 2, 3, 4, 1]);
    assert_eq!(err.unwrap_err(), DuplicateEntry { index: 4 });
}

#[test]
fn prohibit_duplicate_key_hashmap() {
    let ok: HashMap<usize, usize> =
        maps_duplicate_key_is_error::deserialize(vec![(1, 1), (2, 2), (3, 3)]).unwrap();
    assert_eq!(ok, vec![(1, 1), (2, 2), (3, 3)].into_iter().collect());
    let same_values: HashMap<usize, usize> =
        maps_duplicate_key_is_error::deserialize(vec![(1, 1), (2, 1), (3, 1)]).unwrap();
    assert_eq!(same_values.len(), 3);
    let err = maps_duplicate_key_is_error::deserialize::<HashMap<usize, usize>, usize, usize>(vec![
        (1, 1),
        (2, 2),
        (1, 3),
    ]);
    assert_eq!(err.unwrap_err(), DuplicateEntry { index: 2 });
}

#[test]
fn prohibit_duplicate_key_btreemap() {
    let ok: BTreeMap<usize, usize> =
        maps_duplicate_key_is_error::deserialize(vec![(1, 1), (2, 2), (3, 3)]).unwrap();
    assert_eq!(ok.into_iter().collect::<Vec<_>>(), vec![(1, 1), (2, 2), (3, 3)]);
    let err = maps_duplicate_key_is_error::deserialize::<BTreeMap<usize, usize>, usize, usize>(vec![
        (1, 1),
        (2, 2),
        (1, 3),
    ]);
    assert_eq!(err.unwrap_err(), DuplicateEntry { index: 2 });
}

#[test]
fn duplicate_key_first_wins_hashmap() {
    let map: HashMap<usize, usize> =
        maps_first_key_wins::deserialize(vec![(1, 1), (2, 2), (3, 3)]);
    assert_eq!(map, vec![(1, 1), (2, 2), (3, 3)].into_iter().collect());
    let map: HashMap<usize, usize> = maps_first_key_wins::deserialize(vec![(1, 1), (2, 2), (1, 3)]);
    assert_eq!(map, vec![(1, 1), (2, 2)].into_iter().collect());
}

#[test]
fn duplicate_key_first_wins_btreemap() {
    let map: BTreeMap<usize, usize> =
        maps_first_key_wins::deserialize(vec![(1, 1), (2, 1), (3, 1)]);
    assert_eq!(map.into_iter().collect::<Vec<_>>(), vec![(1, 1), (2, 1), (3, 1)]);
    let map: BTreeMap<usize, usize> = maps_first_key_wins::deserialize(vec![(1, 1), (2, 2), (1, 3)]);
    assert_eq!(map.into_iter().collect::<Vec<_>>(), vec![(1, 1), (2, 2)]);
}

#[test]
fn duplicate_value_first_wins_sets() {
    let set: HashSet<usize> = sets_first_value_wins::deserialize(vec![3, 1, 3, 2, 1]);
    assert_eq!(set, [1, 2, 3].iter().cloned().collect());
    let set: BTreeSet<usize> = sets_first_value_wins::deserialize(vec![3, 1, 3, 2, 1]);
    assert_eq!(set.into_iter().collect::<Vec<_>>(), vec![1, 2, 3]);
}

#[test]
fn readers_stop_at_the_first_duplicate() {
    let mut set: UniqueSetReader<HashSet<u32>, u32> = UniqueSetReader::new(Some(3));
    assert_eq!(set.insert_next(1), Ok(()));
    assert_eq!(set.insert_next(2), Ok(()));
    assert_eq!(set.len(), 2);
    assert_eq!(set.insert_next(1), Err(DuplicateEntry { index: 2 }));

    let mut set: UniqueSetReader<BTreeSet<u32>, u32> = UniqueSetReader::new(None);
    assert_eq!(set.insert_next(3), Ok(()));
    assert_eq!(set.insert_next(4), Ok(()));
    assert_eq!(set.finish(), [3, 4].iter().cloned().collect());

    let mut map: UniqueMapReader<BTreeMap<u32, &str>, u32, &str> = UniqueMapReader::new(None);
    assert_eq!(map.insert_next(1, "a"), Ok(()));
    assert_eq!(map.insert_next(2, "b"), Ok(()));
    assert_eq!(map.insert_next(1, "c"), Err(DuplicateEntry { index: 2 }));

    let mut map: UniqueMapReader<HashMap<u32, &str>, u32, &str> = UniqueMapReader::new(Some(2));
    assert_eq!(map.insert_next(5, "x"), Ok(()));
    let m = map.finish();
    assert_eq!(m.get(&5), Some(&"x"));
}
