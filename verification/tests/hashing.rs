use vlam::utils::{pcg, pcg3d, pcg_host};
use vlam::vector::Vec3;

#[test]
fn pcg_known_values() {
    assert_eq!(pcg(0), 129708002);
    assert_eq!(pcg(1), 2831084092);
    assert_eq!(pcg(2), 2055130248);
    assert_eq!(pcg(12345), 4099845390);
    assert_eq!(pcg(u32::MAX), 3861530882);
}

#[test]
fn pcg_host_agrees_with_pcg() {
    for v in [0u32, 1, 2, 7, 12345, 0x8000_0000, u32::MAX] {
        assert_eq!(pcg_host(v), pcg(v));
    }
    assert_eq!(pcg_host(12345), 4099845390);
}

#[test]
fn pcg3d_known_values() {
    assert_eq!(
        pcg3d(Vec3::new(0, 0, 0)),
        Vec3::new(2611992518, 2833812075, 1058359340)
    );
    assert_eq!(
        pcg3d(Vec3::new(1, 2, 3)),
        Vec3::new(4204755366, 1223881804, 1500469937)
    );
    assert_eq!(
        pcg3d(Vec3::splat(u32::MAX)),
        Vec3::new(2784268096, 2756918915, 1364953698)
    );
    assert_eq!(
        pcg3d(Vec3::new(10, 20, 35)),
        Vec3::new(2270111011, 3115494665, 3993758332)
    );
}
