use spherepack::checks::{
    check_computed_gaussian_init, check_shaec, check_shaeci, check_shaes, check_shagc,
    check_shags, check_shagsi, check_shsec, check_shses, check_shsgc, check_shsgs, check_slapes,
    check_slapgc, check_stored_regular_init, check_helmsph, GaussianPlan, HelmholtzWorkspace, RegularPlan, Refusal, TableLayout,
};
use spherepack::vector_checks::{
    check_dives, check_gradec, check_gradgc, check_gradgs, check_idivec, check_idvtes,
    check_idvtgs, check_igrades, check_isfvpec, check_isfvpes, check_islapes, check_ivlapec,
    check_ivlapgs, check_ivrtes, check_sfvpec, isym_to_ityp, ityp_from_isym, VectorPlan,
};

fn regular(fft_offset: usize) -> RegularPlan {
    RegularPlan { nlon: 16, mmax: 8, imid: 4, mdo: 8, imm1: 4, fft_offset }
}

fn gaussian() -> GaussianPlan {
    GaussianPlan { nlon: 16, l: 8, late: 4, fft_offset: 156 }
}

fn vector(ityp: usize) -> VectorPlan {
    VectorPlan { nlon: 16, mmax: 8, imid: 4, ityp }
}

#[test]
fn synthesis_with_computed_tables_on_a_regular_grid() {
    assert_eq!(check_shsec(8, 2, 0, 128, 128, 158, 384), Ok(regular(127)));
    assert_eq!(check_shsec(8, 2, 0, 128, 128, 158, 383), Err(Refusal::Code(10)));
    assert_eq!(check_shsec(8, 2, 1, 128, 128, 158, 256), Ok(regular(127)));
    assert_eq!(check_shsec(2, 2, 0, 128, 128, 158, 384), Err(Refusal::Code(1)));
    assert_eq!(check_shsec(8, 2, 0, 128, 128, 10, 384), Err(Refusal::NlonNotInferred));
    assert_eq!(check_shsec(8, 0, 0, 128, 128, 158, 384), Err(Refusal::Code(4)));
    assert_eq!(check_shsec(8, 2, 0, 128, 127, 158, 384), Err(Refusal::SizeMismatch));
    assert_eq!(check_shsec(8, 2, 0, 127, 127, 158, 384), Err(Refusal::SizeMismatch));
}

#[test]
fn synthesis_with_stored_tables_on_a_regular_grid() {
    assert_eq!(check_shses(8, 1, 64, 64, 175, 256), Ok(regular(144)));
    assert_eq!(check_shses(8, 1, 64, 64, 175, 255), Err(Refusal::Code(10)));
    assert_eq!(check_shses(8, 1, 64, 64, 15, 256), Err(Refusal::Code(2)));
    assert_eq!(check_shses(8, 1, 64, 64, 176, 256), Err(Refusal::Code(10)));
    assert_eq!(check_shses(8, 1, 64, 64, 16, 256), Err(Refusal::NlonNotInferred));
}

#[test]
fn analysis_on_a_regular_grid() {
    assert_eq!(check_shaec(8, 16, 1, 128, 158, 256), Ok(regular(127)));
    assert_eq!(check_shaec(8, 16, 1, 128, 157, 256), Err(Refusal::Code(9)));
    assert_eq!(check_shaec(8, 16, 1, 128, 158, 255), Err(Refusal::Code(10)));
    assert_eq!(check_shaec(8, 3, 1, 128, 158, 256), Err(Refusal::Code(2)));
    assert_eq!(check_shaec(8, 16, 1, 127, 158, 256), Err(Refusal::SizeMismatch));
    assert_eq!(check_shaes(8, 16, 1, 128, 175, 256), Ok(regular(144)));
    assert_eq!(check_shaes(8, 16, 1, 128, 174, 256), Err(Refusal::Code(9)));
    assert_eq!(check_shaes(8, 16, 0, 128, 175, 256), Err(Refusal::Code(4)));
}

#[test]
fn transforms_on_a_gaussian_grid() {
    assert_eq!(check_shsgc(8, 1, 64, 64, 187, 256), Ok(gaussian()));
    assert_eq!(check_shsgc(8, 1, 64, 64, 187, 255), Err(Refusal::Code(10)));
    assert_eq!(check_shsgs(8, 1, 64, 64, 331, 256), Ok(gaussian()));
    assert_eq!(check_shsgs(8, 1, 64, 64, 100, 256), Err(Refusal::NlonNotInferred));
    assert_eq!(check_shagc(8, 16, 1, 128, 187, 256), Ok(gaussian()));
    assert_eq!(check_shagc(8, 16, 1, 128, 186, 256), Err(Refusal::Code(9)));
    assert_eq!(check_shags(8, 16, 1, 128, 331, 256), Ok(gaussian()));
    assert_eq!(check_shags(8, 16, 1, 128, 330, 256), Err(Refusal::Code(9)));
    assert_eq!(check_shags(8, 16, 1, 128, 331, 255), Err(Refusal::Code(10)));
}

#[test]
fn table_initialisations() {
    assert_eq!(check_shaeci(8, 16, 158, 9), Ok(TableLayout { len: 158, fft_offset: 127 }));
    assert_eq!(check_shaeci(8, 16, 157, 9), Err(3));
    assert_eq!(check_shaeci(8, 16, 158, 8), Err(4));
    assert_eq!(check_shaeci(2, 16, 158, 9), Err(1));
    assert_eq!(check_shaeci(8, 3, 158, 9), Err(2));
    assert_eq!(check_shaeci(8, 16, -1, 9), Err(3));
    assert_eq!(
        check_stored_regular_init(8, 16, 175, 223, 9),
        Ok(TableLayout { len: 175, fft_offset: 144 })
    );
    assert_eq!(check_stored_regular_init(8, 16, 174, 223, 9), Err(3));
    assert_eq!(check_stored_regular_init(8, 16, 175, 222, 9), Err(4));
    assert_eq!(check_stored_regular_init(8, 16, 175, 223, 8), Err(5));
    assert_eq!(check_computed_gaussian_init(8, 16, 187, 96), Ok(()));
    assert_eq!(check_computed_gaussian_init(8, 16, 186, 96), Err(3));
    assert_eq!(check_computed_gaussian_init(8, 16, 187, 95), Err(4));
    assert_eq!(check_shagsi(8, 16, 331, 322, 96), Ok(()));
    assert_eq!(check_shagsi(8, 16, 330, 322, 96), Err(3));
    assert_eq!(check_shagsi(8, 16, 331, 321, 96), Err(4));
    assert_eq!(check_shagsi(8, 16, 331, 322, 95), Err(5));
}

#[test]
fn scalar_laplacians() {
    assert_eq!(check_slapes(16, 8, 0, 1, 64, 64, 175, 392), Ok(regular(144)));
    assert_eq!(check_slapes(16, 8, 3, 1, 64, 64, 175, 392), Err(Refusal::Code(3)));
    assert_eq!(check_slapes(16, 8, 0, 1, 64, 64, 175, 391), Err(Refusal::Code(10)));
    assert_eq!(check_slapgc(16, 8, 0, 1, 64, 64, 187, 584), Ok(gaussian()));
    assert_eq!(check_slapgc(16, 8, 0, 1, 64, 64, 186, 584), Err(Refusal::Code(9)));
    assert_eq!(check_slapgc(16, 8, 0, 1, 64, 64, 187, 583), Err(Refusal::Code(10)));
}

#[test]
fn symmetry_flags_select_tables() {
    assert_eq!(ityp_from_isym(0, 1, 4), Some(1));
    assert_eq!(ityp_from_isym(1, 1, 4), Some(4));
    assert_eq!(ityp_from_isym(2, 1, 4), Some(7));
    assert_eq!(ityp_from_isym(2, 2, 5), Some(8));
    assert_eq!(ityp_from_isym(3, 0, 3), None);
    assert_eq!(isym_to_ityp(2), 6);
}

#[test]
fn gradient_and_divergence() {
    assert_eq!(check_gradgc(8, 1, 1, 64, 64, 285), Ok(vector(4)));
    assert_eq!(check_gradgc(8, 1, 3, 64, 64, 285), Err(Refusal::InvalidIsym));
    assert_eq!(check_gradgc(8, 1, 1, 64, 64, 335), Err(Refusal::NlonNotInferred));
    assert_eq!(check_gradgs(8, 1, 0, 64, 64, 335, 520), Ok(vector(1)));
    assert_eq!(check_gradgs(8, 1, 0, 64, 64, 335, 519), Err(Refusal::Code(10)));
    assert_eq!(check_gradec(8, 16, 1, 0, 64, 64, 584), Ok(vector(1)));
    assert_eq!(check_gradec(8, 16, 1, 0, 64, 64, 583), Err(Refusal::Code(10)));
    assert_eq!(check_gradec(8, 16, 1, 5, 64, 64, 584), Err(Refusal::InvalidIsym));
    assert_eq!(check_igrades(8, 1, 64, 64, 175), Ok(vector(0)));
    assert_eq!(check_igrades(8, 1, 64, 63, 175), Err(Refusal::SizeMismatch));
    assert_eq!(check_dives(16, 8, 0, 1, 64, 64, 175, 392), Ok(regular(144)));
    assert_eq!(check_dives(16, 8, 0, 1, 64, 64, 175, 391), Err(Refusal::Code(10)));
    assert_eq!(check_dives(16, 8, 3, 1, 64, 64, 175, 392), Err(Refusal::Code(3)));
}

#[test]
fn inverse_vector_routines() {
    assert_eq!(check_idivec(16, 8, 1, 0, 64, 64, 285, 456), Ok(vector(1)));
    assert_eq!(check_idivec(16, 8, 1, 0, 64, 64, 284, 456), Err(Refusal::Code(9)));
    assert_eq!(check_idivec(16, 8, 1, 0, 64, 64, 285, 455), Err(Refusal::Code(10)));
    assert_eq!(check_idvtes(16, 8, 1, 0, 64, 64, 64, 64, 319, 584), Ok(vector(0)));
    assert_eq!(check_idvtes(16, 8, 1, 0, 64, 64, 64, 64, 318, 584), Err(Refusal::Code(9)));
    assert_eq!(check_idvtes(16, 8, 1, 0, 64, 64, 64, 63, 319, 584), Err(Refusal::SizeMismatch));
    assert_eq!(check_idvtgs(8, 1, 0, 64, 64, 64, 64, 319, 648), Ok(vector(0)));
    assert_eq!(check_idvtgs(8, 1, 0, 64, 64, 64, 64, 319, 647), Err(Refusal::Code(10)));
    assert_eq!(check_ivrtes(8, 1, 0, 64, 64, 319, 456), Ok(vector(2)));
    assert_eq!(check_ivrtes(8, 1, 0, 64, 64, 319, 455), Err(Refusal::Code(10)));
    assert_eq!(check_isfvpec(16, 8, 1, 2, 64, 64, 64, 64, 285, 584), Ok(vector(6)));
    assert_eq!(check_isfvpec(16, 8, 1, 2, 64, 64, 64, 64, 284, 584), Err(Refusal::Code(9)));
    assert_eq!(check_isfvpes(16, 8, 1, 1, 64, 64, 64, 64, 319, 312), Ok(vector(3)));
    assert_eq!(check_isfvpes(16, 8, 1, 1, 64, 64, 64, 64, 319, 311), Err(Refusal::Code(10)));
    assert_eq!(check_ivlapec(16, 8, 1, 0, 64, 64, 64, 64, 285, 712), Ok(vector(0)));
    assert_eq!(check_ivlapec(16, 8, 1, 9, 64, 64, 64, 64, 285, 712), Err(Refusal::Code(3)));
    assert_eq!(check_ivlapec(0, 8, 1, 0, 64, 64, 64, 64, 285, 712), Err(Refusal::Code(2)));
    assert_eq!(check_ivlapgs(16, 8, 1, 3, 64, 64, 64, 64, 319, 456), Ok(vector(3)));
    assert_eq!(check_ivlapgs(16, 8, 1, 3, 64, 64, 64, 64, 318, 456), Err(Refusal::Code(9)));
}

#[test]
fn stream_function_and_helmholtz() {
    assert_eq!(check_sfvpec(16, 8, 1, 0, 64, 64, 64, 64, 158, 392), Ok(regular(127)));
    assert_eq!(check_sfvpec(16, 8, 1, 0, 64, 64, 64, 64, 158, 391), Err(Refusal::Code(10)));
    assert_eq!(check_islapes(16, 8, 0, 1, 1, 64, 64, 175, 392), Ok(regular(144)));
    assert_eq!(check_islapes(16, 8, 0, 1, 2, 64, 64, 175, 392), Err(Refusal::SizeMismatch));
}

#[test]
fn helmholtz_demonstration_workspace() {
    assert_eq!(check_helmsph(2, 16), Err(1));
    assert_eq!(check_helmsph(5, 3), Err(2));
    assert_eq!(
        check_helmsph(3, 4),
        Ok(HelmholtzWorkspace { lsave: 34, lwork: 81, ldwork: 4 })
    );
    // nlat = 8, nlon = 16: imid = 4, mmax = 8,
    // lsave = 2*8*4 + 3*6*7/2 + 16 + 15 = 64 + 63 + 31 = 158,
    // lwork = 8 * (32 + 27 + 16 + 1) = 608.
    assert_eq!(
        check_helmsph(8, 16),
        Ok(HelmholtzWorkspace { lsave: 158, lwork: 608, ldwork: 9 })
    );
}
