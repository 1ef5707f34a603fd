use spherepack::backend::{TransformBackend, UnknownBackend};
use spherepack::geodesic::{geodesic_dims, geodesic_index};

#[test]
fn backend_names_select_the_thread_pool() {
    for name in [
        "parallel",
        "rayon",
        "threaded",
        "serial",
        "series",
        "single",
        "single_thread",
        "nogil",
        "no_gil",
        "python_free",
    ] {
        assert_eq!(TransformBackend::parse(name), Ok(TransformBackend::Rayon));
    }
}

#[test]
fn backend_names_select_latitudes() {
    for name in ["latpar", "lat", "latitude", "latitude_parallel"] {
        assert_eq!(TransformBackend::parse(name), Ok(TransformBackend::LatPar));
    }
}

#[test]
fn backend_names_ignore_ascii_case() {
    assert_eq!(TransformBackend::parse("RAYON"), Ok(TransformBackend::Rayon));
    assert_eq!(TransformBackend::parse("NoGil"), Ok(TransformBackend::Rayon));
    assert_eq!(TransformBackend::parse("LatPar"), Ok(TransformBackend::LatPar));
    assert_eq!(
        TransformBackend::parse("Latitude_Parallel"),
        Ok(TransformBackend::LatPar)
    );
}

#[test]
fn backend_unknown_names_are_refused() {
    assert_eq!(TransformBackend::parse(""), Err(UnknownBackend));
    assert_eq!(TransformBackend::parse("bogus"), Err(UnknownBackend));
    assert_eq!(TransformBackend::parse("rayon "), Err(UnknownBackend));
    assert_eq!(TransformBackend::parse("la"), Err(UnknownBackend));
    assert_eq!(TransformBackend::parse("latitudes"), Err(UnknownBackend));
}

#[test]
fn geodesic_dimensions() {
    assert_eq!(geodesic_dims(1), (1, 1, 5));
    assert_eq!(geodesic_dims(3), (5, 3, 75));
    assert_eq!(geodesic_dims(0), (1, 1, 5));
    assert_eq!(geodesic_dims(-4), (1, 1, 5));
}

#[test]
fn geodesic_positions_cover_the_arrays_once() {
    let (idp, jdp, size) = geodesic_dims(3);
    let mut seen = vec![false; size];
    for i in 1..=idp {
        for j in 1..=jdp {
            for k in 1..=5 {
                let p = geodesic_index(i, j, k, jdp);
                assert!(p < size);
                assert!(!seen[p]);
                seen[p] = true;
            }
        }
    }
    assert!(seen.iter().all(|b| *b));
    assert_eq!(geodesic_index(1, 1, 1, 3), 0);
    assert_eq!(geodesic_index(2, 3, 4, 3), 28);
}
