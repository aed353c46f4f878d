use goal_sync::version::{book_version_compatible, VersionError};

#[test]
fn book_versions() {
    assert_eq!(book_version_compatible("0.4.40", "0.4.37"), Ok(true));
    assert_eq!(book_version_compatible("0.5.0", "0.4.37"), Ok(false));
    assert_eq!(book_version_compatible("1.2.3", "^1"), Ok(true));
    assert_eq!(book_version_compatible("0.4", "0.4.37"), Err(VersionError::BadVersion));
    assert_eq!(book_version_compatible("0.4.40", ">>0.4"), Err(VersionError::BadRequirement));
}
