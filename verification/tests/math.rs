#[test]
fn test_smoke_sin() {
    let x = std::f64::consts::PI / 2.0;
    assert!((x.sin() - 1.0).abs() < 1e-10);
}
