use spherepack::advec::{calc_shagc_sizes, calc_vhsgc_sizes, idx};
use spherepack::fields::{shallow_sizes, ShallowSizes};
use spherepack::gaussian_stored_scalar::{
    idx_pmn, idx_rect, idx_tri, scalar_l, scalar_labc, scalar_late, scalar_pmn_count,
};
use spherepack::gaussian_stored_vector::{
    check_vector_gaussian_init, dpbar_index, gauss_imid, gauss_lmn, indx, labc_init_one_block, labc_synth_one_block,
    mmax_init, mmax_synth, vin_idx,
};
use spherepack::grid::GridType;
use spherepack::workspace::{
    gradient_lwork, init_work_len, isfvp_lwork, low_level_lwork, scalar_saved_len, sfvp_lwork,
    shift_lsav, shift_lwork, vector_laplacian_lwork, vector_reconstruction_lwork,
    vector_saved_len,
};

#[test]
fn grid_type_names() {
    assert_eq!(GridType::Regular.as_str(), "regular");
    assert_eq!(GridType::Gaussian.as_str(), "gaussian");
}

#[test]
fn gaussian_scalar_table_counts() {
    assert_eq!(scalar_l(8, 16), 8);
    assert_eq!(scalar_l(8, 6), 4);
    assert_eq!(scalar_late(8), 4);
    assert_eq!(scalar_late(9), 5);
    assert_eq!(scalar_labc(8, 8), 28);
    assert_eq!(scalar_labc(8, 4), 18);
    assert_eq!(scalar_labc(0, 0), 0);
    assert_eq!(scalar_pmn_count(8, 8), 36);
    assert_eq!(scalar_pmn_count(8, 4), 26);
}

#[test]
fn gaussian_scalar_positions() {
    assert_eq!(idx_tri(2, 2), 0);
    assert_eq!(idx_tri(2, 3), 1);
    assert_eq!(idx_tri(3, 3), 2);
    assert_eq!(idx_rect(4, 2, 5), 6);
    assert_eq!(idx_rect(4, 4, 4), 5);
    assert_eq!(idx_pmn(8, 1, 2), 9);
    assert_eq!(idx_pmn(8, 0, 1), 1);
}

#[test]
fn gaussian_vector_positions() {
    assert_eq!(indx(0, 0, 5), 1);
    assert_eq!(indx(1, 1, 5), 6);
    assert_eq!(indx(2, 3, 5), 11);
    assert_eq!(gauss_imid(9), 5);
    assert_eq!(gauss_lmn(8), 36);
    assert_eq!(dpbar_index(4, 8, 1, 2, 1), 41);
    assert_eq!(vin_idx(4, 8, 3, 2, 1), 39);
    assert_eq!(mmax_init(8, 16), 8);
    assert_eq!(mmax_init(20, 16), 9);
    assert_eq!(mmax_synth(20, 16), 8);
    assert_eq!(labc_init_one_block(20, 16), 105);
    assert_eq!(labc_synth_one_block(20, 16), 93);
}

#[test]
fn workspace_lengths() {
    assert_eq!(shift_lsav(18, 9), 104);
    assert_eq!(shift_lwork(18, 9), 360);
    assert_eq!(shift_lwork(19, 9), 874);
    assert_eq!(gradient_lwork(9, 18, 2), 1566);
    assert_eq!(vector_laplacian_lwork(9, 18, 2), 1575);
    assert_eq!(vector_reconstruction_lwork(9, 18, 2), 1575);
    assert_eq!(sfvp_lwork(9, 18, 2), 819);
    assert_eq!(isfvp_lwork(9, 18, 2), 1575);
    assert_eq!(isfvp_lwork(17, 32, 3), 7667);
    assert_eq!(scalar_saved_len(9, 18), 258);
    assert_eq!(vector_saved_len(9, 18), 483);
    assert_eq!(init_work_len(9, 18), 309);
    assert_eq!(low_level_lwork(9, 18), 828);
}

#[test]
fn advection_driver_sizes() {
    assert_eq!(idx(16, 2, 3), 35);
    assert_eq!(calc_shagc_sizes(9, 18), (240, 117));
    assert_eq!(calc_shagc_sizes(17, 32), (778, 357));
    assert_eq!(calc_vhsgc_sizes(9, 18), (381, 181));
    assert_eq!(calc_vhsgc_sizes(8, 16), (285, 145));
}

#[test]
fn shallow_water_sizes() {
    let s: ShallowSizes = shallow_sizes(9, 18);
    assert_eq!(s.lscalar, 258);
    assert_eq!(s.lvector, 483);
    assert_eq!(s.lwork_init, 309);
    assert_eq!(s.ldwork_scalar, 10);
    assert_eq!(s.ldwork_vector, 20);
    assert_eq!(s.lwork, 828);
}

#[test]
fn recurrence_positions_fill_the_table() {
    for nlat in 2..=9usize {
        for l in 2..=nlat {
            let labc = scalar_labc(nlat, l);
            let mut seen = vec![false; labc];
            for n in 2..=nlat {
                for m in 2..=n.min(l) {
                    let p = if n >= l { idx_rect(l, m, n) } else { idx_tri(m, n) };
                    assert!(p < labc);
                    assert!(!seen[p]);
                    seen[p] = true;
                }
            }
            assert!(seen.iter().all(|b| *b));
        }
    }
}

#[test]
fn vector_blocks_fill_the_table() {
    for nlat in 1..=9usize {
        let lmn = gauss_lmn(nlat);
        let mut next = 1;
        for m in 0..nlat {
            for n in m..nlat {
                assert_eq!(indx(m, n, nlat), next);
                next += 1;
            }
        }
        assert_eq!(next, lmn + 1);
        for n in 0..nlat {
            assert_eq!(indx(0, n, nlat), n + 1);
        }
    }
}

#[test]
fn vector_gaussian_init_refusals() {
    assert_eq!(check_vector_gaussian_init(2, 8), Err(1));
    assert_eq!(check_vector_gaussian_init(2, 0), Err(1));
    assert_eq!(check_vector_gaussian_init(3, 0), Err(2));
    assert_eq!(check_vector_gaussian_init(3, 1), Ok(()));
}
