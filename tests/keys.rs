use collab::keys::{
    doc_name_from_key, key_in_range, key_lt, make_doc_end_key, make_doc_id_key, make_doc_start_key,
    make_doc_state_key, make_doc_update_key, make_state_vector_key, read_be_u64,
};

#[test]
fn key_layout() {
    assert_eq!(make_doc_id_key(1, b"ab"), vec![0, 0, 0, 0, 0, 0, 0, 0, 0, 1, b'a', b'b']);
    assert_eq!(make_doc_state_key(2), vec![0, 1, 0, 0, 0, 0, 0, 0, 0, 2, 0]);
    assert_eq!(make_state_vector_key(2), vec![0, 1, 0, 0, 0, 0, 0, 0, 0, 2, 1]);
    assert_eq!(make_doc_update_key(2, 258), vec![0, 1, 0, 0, 0, 0, 0, 0, 0, 2, 2, 0, 0, 1, 2]);
    assert_eq!(doc_name_from_key(&make_doc_id_key(-1, b"obj")), b"obj".to_vec());
    assert_eq!(read_be_u64(&[1, 2, 3, 4, 5, 6, 7, 8]), 0x0102030405060708);
}

#[test]
fn update_keys_sort_by_clock_inside_doc_range() {
    let start = make_doc_start_key(3);
    let end = make_doc_end_key(3);
    let mut prev = make_doc_update_key(3, 0);
    for c in [1u32, 255, 256, 65_536, 16_777_216, u32::MAX - 1] {
        let k = make_doc_update_key(3, c);
        assert!(key_lt(&prev, &k));
        assert!(key_in_range(&k, &start, &end));
        prev = k;
    }
    assert!(!key_in_range(&end, &start, &end));
    assert!(!key_in_range(&make_doc_update_key(4, 0), &start, &end));
    assert!(!key_in_range(&make_doc_state_key(3), &start, &end));
}
