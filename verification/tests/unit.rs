use cratetorrent::unit::Unit;

fn shown(unit: Unit, bytes: u64) -> f64 {
    bytes as f64 / unit.divisor() as f64
}

#[test]
fn should_convert_not_convert_bytes() {
    let unit = Unit::new(1011);
    match unit {
        Unit::Bytes(u) => {
            assert_eq!(u, 1011);
        }
        _ => {
            assert!(false, "unit should remain in bytes");
        }
    }
}

#[test]
fn should_convert_bytes_to_kib() {
    let unit = Unit::new(5_460);
    match unit {
        Unit::KiB(u) => {
            assert_eq!(shown(unit, u).trunc(), 5.0);
        }
        _ => {
            assert!(false, "unit should be in KiB");
        }
    }
}

#[test]
fn should_convert_bytes_to_mib() {
    let unit = Unit::new(32_123_962);
    match unit {
        Unit::MiB(u) => {
            assert_eq!(shown(unit, u).trunc(), 30.0);
        }
        _ => {
            assert!(false, "unit should be in MiB");
        }
    }
}

#[test]
fn should_convert_bytes_to_gib() {
    let unit = Unit::new(2_229_863_925);
    match unit {
        Unit::GiB(u) => {
            assert_eq!(shown(unit, u).trunc(), 2.0);
        }
        _ => {
            assert!(false, "unit should be in GiB");
        }
    }

    let unit = Unit::new(12_262_129_863_925);
    match unit {
        Unit::GiB(u) => {
            assert_eq!(shown(unit, u).trunc(), 11_419.0);
        }
        _ => {
            assert!(false, "unit should be in GiB");
        }
    }
}

#[test]
fn a_unit_is_used_from_more_than_one_of_it() {
    assert_eq!(Unit::new(0), Unit::Bytes(0));
    assert_eq!(Unit::new(1024), Unit::Bytes(1024));
    assert_eq!(Unit::new(1025), Unit::KiB(1025));
    assert_eq!(Unit::from(1024 * 1024), Unit::KiB(1024 * 1024));
    assert_eq!(Unit::from(1024 * 1024 + 1), Unit::MiB(1024 * 1024 + 1));
    assert_eq!(Unit::from(1 << 30), Unit::MiB(1 << 30));
    assert_eq!(Unit::from((1 << 30) + 1), Unit::GiB((1 << 30) + 1));
    assert_eq!(Unit::from(u64::MAX), Unit::GiB(u64::MAX));
}
