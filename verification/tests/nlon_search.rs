use spherepack::nlon_inference::{
    infer_nlon_from_wshags, infer_nlon_from_wshsec, infer_nlon_from_wshses,
    infer_nlon_from_wshsgc, infer_nlon_from_wvhses, infer_nlon_from_wvhsgc,
    infer_nlon_from_wvhsgs, infer_nlon_from_wvhsgs_synthesis,
};

#[test]
fn regular_scalar_tables_give_back_nlon() {
    assert_eq!(infer_nlon_from_wshsec(8, 158), Some(16));
    assert_eq!(infer_nlon_from_wshsec(5, 71), Some(8));
    assert_eq!(infer_nlon_from_wshsec(3, 34), Some(4));
    assert_eq!(infer_nlon_from_wshsec(8, 157), Some(15));
    assert_eq!(infer_nlon_from_wshses(8, 175), Some(16));
    assert_eq!(infer_nlon_from_wshses(10, 310), Some(20));
    assert_eq!(infer_nlon_from_wshses(3, 31), Some(4));
}

#[test]
fn unknown_table_lengths_are_not_recognised() {
    assert_eq!(infer_nlon_from_wshsec(8, 10), None);
    assert_eq!(infer_nlon_from_wshses(8, 0), None);
    assert_eq!(infer_nlon_from_wshsec(0, 3), None);
    // a table longer than every candidate's
    assert_eq!(infer_nlon_from_wshsec(3, 1000), None);
}

#[test]
fn gaussian_scalar_tables_give_back_nlon() {
    assert_eq!(infer_nlon_from_wshags(8, 331), Some((16, 8, 4, 187)));
    assert_eq!(infer_nlon_from_wshags(5, 133), Some((8, 5, 3, 88)));
    assert_eq!(infer_nlon_from_wshsgc(8, 187), Some((16, 8, 4)));
    assert_eq!(infer_nlon_from_wshsgc(10, 280), Some((20, 10, 5)));
    assert_eq!(infer_nlon_from_wshsgc(8, 5), None);
}

#[test]
fn vector_tables_give_back_nlon() {
    assert_eq!(infer_nlon_from_wvhsgc(8, 285), Some(16));
    assert_eq!(infer_nlon_from_wvhsgc(5, 113), Some(8));
    assert_eq!(infer_nlon_from_wvhsgc(8, 335), None);
    assert_eq!(infer_nlon_from_wvhsgs(8, 335), Some(16));
    assert_eq!(infer_nlon_from_wvhsgs(5, 117), Some(8));
    assert_eq!(infer_nlon_from_wvhsgs(5, 107), None);
    assert_eq!(infer_nlon_from_wvhsgs_synthesis(8, 335), Some(32));
    assert_eq!(infer_nlon_from_wvhsgs_synthesis(5, 107), Some(8));
    assert_eq!(infer_nlon_from_wvhses(5, 117), Some(12));
    assert_eq!(infer_nlon_from_wvhses(8, 319), Some(16));
    assert_eq!(infer_nlon_from_wvhses(8, 285), None);
}

#[test]
fn a_huge_grid_has_no_table() {
    assert_eq!(infer_nlon_from_wshsec(1 << 40, usize::MAX), None);
    assert_eq!(infer_nlon_from_wvhses(1 << 40, 12345), None);
}
