//! Certificate path conventions.

use localstacker::mkcert::{select_package_manager, MkcertProvider, PackageManager};

#[test]
fn test_get_cert_paths() {
    let provider = MkcertProvider::new();
    let (cert, key) = provider.get_cert_paths("example.com");
    assert_eq!(cert, "example.com.pem");
    assert_eq!(key, "example.com-key.pem");
}

#[test]
fn caroot_override_is_kept() {
    let provider = MkcertProvider::with_caroot(Some("/home/user/.local/share/mkcert".to_string()));
    let env = provider.get_env();
    assert_eq!(env.len(), 1);
    assert_eq!(env[0].0, "CAROOT");
    assert_eq!(env[0].1, "/home/user/.local/share/mkcert");

    let bare = MkcertProvider::new();
    assert!(bare.get_env().is_empty());
}

#[test]
fn package_manager_preference_order() {
    assert_eq!(select_package_manager(true, true, true).unwrap(), PackageManager::Apt);
    assert_eq!(select_package_manager(false, true, true).unwrap(), PackageManager::Yum);
    assert_eq!(select_package_manager(false, false, true).unwrap(), PackageManager::Brew);
    assert!(select_package_manager(false, false, false).is_err());
}
