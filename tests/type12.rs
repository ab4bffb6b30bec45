use anise::errors::{AniseError, IntegrityErrorKind};
use anise::type12::{HermiteSetType12, UniformEvaluation};
use anise::window::Search;

fn bits(v: &[f64]) -> Vec<u64> {
    v.iter().map(|x| x.to_bits()).collect()
}

/// Four records at 100 s + k * 60 s, window stored as 1 (two samples).
fn buffer() -> Vec<f64> {
    let mut v = Vec::new();
    for k in 0..4 {
        let x = k as f64;
        v.extend_from_slice(&[x, 2.0 * x, 3.0 * x, 1.0, 2.0, 3.0]);
    }
    v.extend_from_slice(&[100.0, 60.0, 1.0, 4.0]);
    v
}

#[test]
fn construction_reads_trailing_metadata() {
    let buf = bits(&buffer());
    let seg = HermiteSetType12::from_slice_f64(&buf).unwrap();
    assert_eq!(seg.first_state_epoch, 100.0f64.to_bits());
    assert_eq!(seg.step_size, 60.0f64.to_bits());
    assert_eq!(seg.window_size, 1);
    assert_eq!(seg.num_records, 4);
    assert_eq!(seg.record_data.len(), 24);
}

#[test]
fn construction_errors() {
    assert_eq!(
        HermiteSetType12::from_slice_f64(&bits(&[1.0, 2.0, 3.0, 4.0])).err(),
        Some(AniseError::MalformedData(5))
    );
    let mut raw = buffer();
    raw[24] = f64::NAN;
    assert_eq!(
        HermiteSetType12::from_slice_f64(&bits(&raw)).err(),
        Some(AniseError::IntegrityError(IntegrityErrorKind::SubNormal))
    );
    let mut raw = buffer();
    raw[25] = f64::INFINITY;
    assert_eq!(
        HermiteSetType12::from_slice_f64(&bits(&raw)).err(),
        Some(AniseError::IntegrityError(IntegrityErrorKind::SubNormal))
    );
    let mut raw = buffer();
    raw[27] = 0.0;
    assert_eq!(
        HermiteSetType12::from_slice_f64(&bits(&raw)).err(),
        Some(AniseError::MalformedData(10))
    );
}

#[test]
fn records_and_their_bounds() {
    let buf = bits(&buffer());
    let seg = HermiteSetType12::from_slice_f64(&buf).unwrap();
    let r = seg.nth_record(2).unwrap();
    assert_eq!(r.x_km, 2.0f64.to_bits());
    assert_eq!(r.y_km, 4.0f64.to_bits());
    assert_eq!(r.vz_km_s, 3.0f64.to_bits());
    assert_eq!(seg.nth_record(4), Err(AniseError::MalformedData(30)));
}

#[test]
fn integrity_of_record_data() {
    let buf = bits(&buffer());
    let seg = HermiteSetType12::from_slice_f64(&buf).unwrap();
    assert_eq!(seg.check_integrity(), Ok(()));
    let mut raw = buffer();
    raw[7] = f64::NAN;
    let buf = bits(&raw);
    let seg = HermiteSetType12::from_slice_f64(&buf).unwrap();
    assert_eq!(
        seg.check_integrity(),
        Err(AniseError::IntegrityError(IntegrityErrorKind::SubNormal))
    );
}

#[test]
fn uniform_evaluation() {
    let buf = bits(&buffer());
    let seg = HermiteSetType12::from_slice_f64(&buf).unwrap();
    let t = 190.0f64.to_bits();
    match seg.evaluate(t, Search::Found(1)).unwrap() {
        UniformEvaluation::Exact(r) => assert_eq!(r, seg.nth_record(1).unwrap()),
        UniformEvaluation::Interpolate(_) => panic!("exact epoch"),
    }
    match seg.evaluate(t, Search::Between(2)).unwrap() {
        UniformEvaluation::Interpolate(w) => {
            assert_eq!(w.first, 1);
            assert_eq!(w.states.len(), 2);
            assert_eq!(w.states[1], seg.nth_record(2).unwrap());
        }
        UniformEvaluation::Exact(_) => panic!("between epochs"),
    }
    assert_eq!(
        seg.evaluate(t, Search::Between(0)).err(),
        Some(AniseError::MissingInterpolationData(t))
    );
    assert_eq!(
        seg.evaluate(t, Search::Found(4)).err(),
        Some(AniseError::MissingInterpolationData(t))
    );
    assert_eq!(
        seg.evaluate(t, Search::Unordered).err(),
        Some(AniseError::IntegrityError(IntegrityErrorKind::SubNormal))
    );
}

#[test]
fn uniform_window_wider_than_data() {
    let mut raw = buffer();
    raw[26] = 4.0;
    let buf = bits(&raw);
    let seg = HermiteSetType12::from_slice_f64(&buf).unwrap();
    assert_eq!(
        seg.evaluate(0, Search::Between(1)).err(),
        Some(AniseError::TooManySamples(5))
    );
}
