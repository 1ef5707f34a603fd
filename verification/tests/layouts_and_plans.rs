use spherepack::fft::{
    hrfftb_auto_should_fallback, hrfftb_route, hrfftf_can_use_kernel, hrfftf_route, idx3, idx4,
    pack_rows_to_col_major, rfft_backward_plan, rfft_factors, rfft_forward_plan, transpose_flat,
    unpack_col_major_to_rows, FftError, FftRoute, HrfftbMode, HrfftfMode,
};
use spherepack::fields::{
    check_shallow, collect_logical, expand_rows, leading_block, output_rows_for_isym, output_rows_for_ityp, truncate_coeffs,
};
use spherepack::geo2math::{
    geo2maths_impl, geo_index, math2geos_impl, math_index, validate_ig, LayoutError,
};
use spherepack::legin::{legin_degrees, legin_layout, rotate_slots, LeginLayout};
use spherepack::parallel::{mp1_ranges, mp1_ranges_with};
use spherepack::shapes::{
    check_ierror, validate_rank2_shape, validate_scalar_shape, validate_spec_shape,
    validate_vector_shapes, ShapeError,
};
use spherepack::spectral::{
    check_laplacian, check_packed_stack, check_smoothing, check_specintrp, check_vrtdiv_stacks,
    infer_ntrunc, nm_index, nmdim_for_truncation, ntrunc_from_nmdim, packed_degrees,
    spectral_to_planes, SpectralError,
};
use spherepack::stacks::{extract_field, interleave_fields};

#[test]
fn fft_length_factorisation() {
    assert_eq!(rfft_factors(8), vec![2, 4]);
    assert_eq!(rfft_factors(12), vec![4, 3]);
    assert_eq!(rfft_factors(30), vec![2, 3, 5]);
    assert_eq!(rfft_factors(16), vec![4, 4]);
    assert_eq!(rfft_factors(7), vec![7]);
    assert_eq!(rfft_factors(1), Vec::<usize>::new());
}

#[test]
fn fft_pass_plans() {
    let (stages, copy_back) = rfft_backward_plan(12, &vec![4, 3]);
    assert_eq!(stages.len(), 2);
    assert_eq!((stages[0].ip, stages[0].l1, stages[0].ido, stages[0].iw, stages[0].na), (4, 1, 3, 1, 0));
    assert_eq!((stages[1].ip, stages[1].l1, stages[1].ido, stages[1].iw, stages[1].na), (3, 4, 1, 10, 1));
    assert!(!copy_back);
    let (stages, copy_back) = rfft_backward_plan(7, &vec![7]);
    assert_eq!((stages[0].ip, stages[0].l1, stages[0].ido, stages[0].iw, stages[0].na), (7, 1, 1, 1, 0));
    assert!(copy_back);
    let (stages, _) = rfft_forward_plan(12, &vec![4, 3]);
    assert_eq!(stages.len(), 2);
    assert_eq!(stages[0].ip, 3);
    assert_eq!(stages[1].ip, 4);
}

#[test]
fn fft_routes() {
    assert!(!hrfftb_auto_should_fallback(12, 2));
    assert_eq!(hrfftb_route(3, 1, 0, 0, HrfftbMode::Auto, 0), Ok(FftRoute::Unchanged));
    assert_eq!(hrfftb_route(3, 8, 24, 23, HrfftbMode::Auto, 2), Ok(FftRoute::Kernel));
    assert_eq!(hrfftb_route(3, 8, 24, 23, HrfftbMode::ReferenceOnly, 2), Ok(FftRoute::Reference));
    assert_eq!(hrfftb_route(3, 8, 23, 23, HrfftbMode::Auto, 2), Err(FftError::LengthMismatch));
    assert_eq!(hrfftb_route(3, 8, 24, 22, HrfftbMode::KernelOnly, 2), Err(FftError::WorkspaceTooShort));
    assert!(hrfftf_can_use_kernel(8, 23, &vec![2, 4]));
    assert!(!hrfftf_can_use_kernel(8, 22, &vec![2, 4]));
    assert!(!hrfftf_can_use_kernel(8, 23, &vec![]));
    assert!(!hrfftf_can_use_kernel(8, 23, &vec![2, 1]));
    assert_eq!(hrfftf_route(2, 8, 16, 23, HrfftfMode::Auto, &vec![2, 4]), Ok(FftRoute::Kernel));
    assert_eq!(hrfftf_route(2, 8, 16, 23, HrfftfMode::Auto, &vec![0]), Ok(FftRoute::Reference));
    assert_eq!(hrfftf_route(2, 8, 16, 23, HrfftfMode::KernelOnly, &vec![0]), Ok(FftRoute::Kernel));
}

#[test]
fn fft_index_helpers_and_layouts() {
    assert_eq!(idx3(1, 1, 1, 4, 5), 0);
    assert_eq!(idx3(2, 3, 2, 4, 5), 1 + 4 * (2 + 5));
    assert_eq!(idx4(2, 1, 1, 2, 4, 5, 6), 1 + 4 * (5 * 6));
    let r = vec![1, 2, 3, 4, 5, 6];
    let rows = unpack_col_major_to_rows(2, 3, &r);
    assert_eq!(rows, vec![1, 3, 5, 2, 4, 6]);
    assert_eq!(pack_rows_to_col_major(2, 3, &rows), r);
    assert_eq!(transpose_flat(3, 2, &r), vec![1, 4, 2, 5, 3, 6]);
}

#[test]
fn packed_spectral_layout() {
    assert_eq!(nmdim_for_truncation(2), 6);
    assert_eq!(ntrunc_from_nmdim(6), 2);
    assert_eq!(ntrunc_from_nmdim(5), 1);
    assert_eq!(ntrunc_from_nmdim(0), 0);
    assert_eq!(ntrunc_from_nmdim(nmdim_for_truncation(42)), 42);
    assert_eq!(infer_ntrunc(0), Err(SpectralError::InvalidDimension));
    assert_eq!(infer_ntrunc(10), Ok(3));
    assert_eq!(nm_index(2, 1, 1), 1);
    assert_eq!(nm_index(2, 2, 2), 4);
    assert_eq!(nm_index(2, 3, 3), 6);
    assert_eq!(packed_degrees(6), vec![1, 2, 3, 2, 3, 3]);
    assert_eq!(packed_degrees(7), vec![1, 2, 3, 2, 3, 3, 0]);
    let data = vec![1, 2, 3, 4, 5, 6];
    assert_eq!(spectral_to_planes(&data, 0, 3, 6, 1, 1), Ok(vec![1, 2, 3, 0, 4, 5, 0, 0, 6]));
    assert_eq!(spectral_to_planes(&data, 0, 3, 6, 1, 2), Ok(vec![0, 2, 3, 0, 4, 5, 0, 0, 6]));
    assert_eq!(spectral_to_planes(&data, 0, 3, 6, 2, 1), Err(SpectralError::SizeMismatch));
}

#[test]
fn packed_spectral_checks() {
    assert_eq!(check_laplacian(true, 12, 6, 2), Err(SpectralError::ZeroRadius));
    assert_eq!(check_laplacian(false, 11, 6, 2), Err(SpectralError::SizeMismatch));
    assert_eq!(check_laplacian(false, 12, 6, 2), Ok(2));
    assert_eq!(check_packed_stack(10, 10, 1), Ok(3));
    assert_eq!(check_vrtdiv_stacks(12, 11, 6, 2), Err(SpectralError::SizeMismatch));
    assert_eq!(check_vrtdiv_stacks(12, 12, 6, 2), Ok(2));
    assert_eq!(check_smoothing(6, 3, 6, 1), Ok(2));
    assert_eq!(check_smoothing(6, 2, 6, 1), Err(SpectralError::SmoothingTooShort));
    assert_eq!(check_specintrp(-1, 0, 0), Err(SpectralError::NegativeTruncation));
    assert_eq!(check_specintrp(2, 6, 6), Ok(3));
    assert_eq!(check_specintrp(2, 6, 5), Err(SpectralError::SizeMismatch));
}

#[test]
fn geophysical_and_mathematical_layouts() {
    assert_eq!(validate_ig(0), Ok(()));
    assert_eq!(validate_ig(2), Err(LayoutError::InvalidIg));
    assert_eq!(geo_index(3, 1, 2), 5);
    assert_eq!(math_index(2, 2, 1), 5);
    // two longitudes of three latitudes, south to north
    let sg = vec![10, 11, 12, 20, 21, 22];
    let sm = geo2maths_impl(0, &sg, 2, 3).unwrap();
    assert_eq!(sm, vec![12, 22, 11, 21, 10, 20]);
    assert_eq!(math2geos_impl(0, &sm, 3, 2).unwrap(), sg);
    let sm1 = geo2maths_impl(1, &sg, 2, 3).unwrap();
    assert_eq!(sm1, vec![10, 20, 11, 21, 12, 22]);
    assert_eq!(math2geos_impl(1, &sm1, 3, 2).unwrap(), sg);
    assert_eq!(geo2maths_impl(3, &sg, 2, 3), Err(LayoutError::InvalidIg));
    assert_eq!(geo2maths_impl(0, &sg, 2, 4), Err(LayoutError::SizeMismatch));
}

#[test]
fn order_blocks_for_threads() {
    assert_eq!(mp1_ranges_with(2, 9, 3), vec![(2, 4), (5, 7), (8, 9)]);
    assert_eq!(mp1_ranges_with(1, 1, 4), vec![(1, 1)]);
    assert_eq!(mp1_ranges_with(5, 4, 2), vec![]);
    assert_eq!(mp1_ranges_with(1, 10, 0), vec![(1, 10)]);
    assert_eq!(mp1_ranges_with(3, 12, 4), vec![(3, 5), (6, 8), (9, 11), (12, 12)]);
    let blocks = mp1_ranges(2, 40);
    assert_eq!(blocks[0].0, 2);
    assert_eq!(blocks[blocks.len() - 1].1, 40);
    for w in blocks.windows(2) {
        assert_eq!(w[1].0, w[0].1 + 1);
    }
    assert!(mp1_ranges(3, 2).is_empty());
}

#[test]
fn array_shapes() {
    assert_eq!(validate_scalar_shape(&[4, 8], 4, 8), Ok((32, 1, true)));
    assert_eq!(validate_scalar_shape(&[4, 8, 3], 4, 8), Ok((96, 3, false)));
    assert_eq!(validate_scalar_shape(&[4], 4, 8), Err(ShapeError::Rank));
    assert_eq!(validate_scalar_shape(&[4, 7], 4, 8), Err(ShapeError::Dims));
    assert_eq!(validate_vector_shapes(&[4, 8], &[4, 8, 1], 4, 8), Err(ShapeError::ComponentsDiffer));
    assert_eq!(validate_vector_shapes(&[4, 8, 2], &[4, 8, 2], 4, 8), Ok((64, 2, false)));
    assert_eq!(validate_spec_shape(&[10]), Ok((10, 1, true)));
    assert_eq!(validate_spec_shape(&[10, 3]), Ok((10, 3, false)));
    assert_eq!(validate_spec_shape(&[10, 3, 1]), Err(ShapeError::Rank));
    assert_eq!(validate_rank2_shape(&[3, 4], 3, 4), Ok(()));
    assert_eq!(validate_rank2_shape(&[3, 4, 1], 3, 4), Err(ShapeError::Dims));
    assert_eq!(check_ierror(0), Ok(()));
    assert_eq!(check_ierror(7), Err(7));
}

#[test]
fn spectral_truncation_clears_high_degrees() {
    let mut a: Vec<i32> = (1..=9).collect();
    let mut b: Vec<i32> = (11..=19).collect();
    truncate_coeffs(3, 0, &mut a, &mut b, 0);
    // row = order - 1, column = degree - 1; degrees above 1 are cleared
    // where the order does not exceed the degree
    assert_eq!(a, vec![1, 0, 0, 4, 0, 0, 7, 8, 0]);
    assert_eq!(b, vec![11, 0, 0, 14, 0, 0, 17, 18, 0]);
    let mut c: Vec<i32> = (1..=9).collect();
    let mut d: Vec<i32> = (1..=9).collect();
    truncate_coeffs(3, 2, &mut c, &mut d, 0);
    assert_eq!(c, (1..=9).collect::<Vec<i32>>());
    // mmode = nlat - 1 clears nothing and reads nothing
    let mut e: Vec<i32> = vec![5];
    let mut f: Vec<i32> = Vec::new();
    truncate_coeffs(3, 2, &mut e, &mut f, 0);
    assert_eq!(e, vec![5]);
    assert!(f.is_empty());
}

#[test]
fn hemisphere_results_are_padded() {
    assert_eq!(output_rows_for_isym(5, 0), 5);
    assert_eq!(output_rows_for_isym(5, 1), 3);
    assert_eq!(output_rows_for_ityp(5, 2), 5);
    assert_eq!(output_rows_for_ityp(5, 3), 3);
    let data = vec![1, 2, 3, 4, 5, 6];
    assert_eq!(expand_rows(data.clone(), 0, 3, 2, 1, 3), data);
    assert_eq!(expand_rows(data.clone(), 0, 3, 2, 1, 2), vec![1, 2, 3, 4, 0, 0]);
}

#[test]
fn shallow_water_checks() {
    assert_eq!(check_shallow(2, 8, true, 0), Err(1));
    assert_eq!(check_shallow(9, 3, true, 0), Err(2));
    assert_eq!(check_shallow(9, 18, false, 0), Err(3));
    assert_eq!(check_shallow(9, 18, true, 9), Err(4));
    assert_eq!(check_shallow(9, 18, true, 8), Ok(()));
}

#[test]
fn interleaved_stacks() {
    let stack = vec![1, 10, 2, 20, 3, 30];
    let f0 = extract_field(&stack, 3, 2, 0);
    let f1 = extract_field(&stack, 3, 2, 1);
    assert_eq!(f0, vec![1, 2, 3]);
    assert_eq!(f1, vec![10, 20, 30]);
    assert_eq!(interleave_fields(&vec![f0, f1], 3), stack);
}

#[test]
fn legendre_table_bookkeeping() {
    assert_eq!(
        legin_layout(8, 8),
        LeginLayout { i1: 8, i2: 40, i3: 72, i4: 100, i5: 128, labc: 28 }
    );
    assert_eq!(legin_degrees(0, 3), (4, 1));
    assert_eq!(legin_degrees(1, 3), (5, 2));
    assert_eq!(legin_degrees(2, 3), (4, 2));
    let mut slots = (0, 1, 2);
    assert_eq!(rotate_slots(&mut slots), 0);
    assert_eq!(slots, (2, 0, 1));
    rotate_slots(&mut slots);
    rotate_slots(&mut slots);
    assert_eq!(slots, (0, 1, 2));
}

#[test]
fn logical_coefficients_are_collected() {
    let data: Vec<i32> = (0..6).collect();
    assert_eq!(leading_block(&data, 2, 3, 2), vec![0, 1, 3, 4]);
    assert_eq!(leading_block(&data, 3, 2, 0), Vec::<i32>::new());
    assert_eq!(collect_logical(&data, &[2, 3]), vec![0, 1, 3, 4]);
    let data: Vec<i32> = (0..12).collect();
    assert_eq!(collect_logical(&data, &[2, 3, 2]), vec![0, 1, 2, 3, 6, 7, 8, 9]);
    let square: Vec<i32> = (0..8).collect();
    assert_eq!(collect_logical(&square, &[2, 2, 2]), square);
    assert_eq!(collect_logical(&data, &[12]), Vec::<i32>::new());
    assert_eq!(collect_logical(&Vec::<i32>::new(), &[3, 1, 0]), Vec::<i32>::new());
}
