use entity_alloc::array::{deserialize, serialize, InvalidLength};

#[test]
fn serialize_gives_the_elements_in_order() {
    let data = [10u8, 20, 30, 40];
    assert_eq!(serialize(&data), vec![&10u8, &20, &30, &40]);
    let words = [String::from("a"), String::from("b")];
    let elements = serialize(&words);
    assert_eq!(elements.len(), 2);
    assert_eq!(elements[0], "a");
    assert_eq!(elements[1], "b");
}

#[test]
fn serialize_of_an_empty_array_is_empty() {
    let data: [u32; 0] = [];
    assert!(serialize(&data).is_empty());
}

#[test]
fn serialize_takes_large_arrays() {
    let data = [7u16; 100];
    let elements = serialize(&data);
    assert_eq!(elements.len(), 100);
    assert!(elements.iter().all(|e| **e == 7));
}

#[test]
fn deserialize_builds_the_array() {
    let array: Result<[u8; 3], InvalidLength> = deserialize(vec![1, 2, 3]);
    assert_eq!(array, Ok([1, 2, 3]));
    let words: Result<[String; 2], InvalidLength> =
        deserialize(vec![String::from("x"), String::from("y")]);
    assert_eq!(words, Ok([String::from("x"), String::from("y")]));
    let none: Result<[u8; 0], InvalidLength> = deserialize(Vec::new());
    assert_eq!(none, Ok([]));
}

#[test]
fn deserialize_takes_the_first_elements() {
    let array: Result<[u8; 2], InvalidLength> = deserialize(vec![9, 8, 7, 6]);
    assert_eq!(array, Ok([9, 8]));
}

#[test]
fn deserialize_of_too_few_elements_fails() {
    let array: Result<[u8; 4], InvalidLength> = deserialize(vec![1, 2, 3]);
    assert_eq!(array, Err(InvalidLength { len: 4 }));
    let empty: Result<[u32; 1], InvalidLength> = deserialize(Vec::new());
    assert_eq!(empty, Err(InvalidLength { len: 1 }));
}

#[test]
fn deserialize_inverts_serialize() {
    let data = [3u64, 1, 4, 1, 5, 9, 2, 6];
    let elements: Vec<u64> = serialize(&data).into_iter().copied().collect();
    let back: Result<[u64; 8], InvalidLength> = deserialize(elements);
    assert_eq!(back, Ok(data));
}
