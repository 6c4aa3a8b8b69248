use blastguard::search::structural::cargo_package_name;

#[test]
fn cargo_manifest_names_its_package() {
    let manifest = "[package]\nname = \"blastguard\"\nversion = \"0.1.0\"\n";
    assert_eq!(cargo_package_name(manifest), Some("blastguard".to_string()));
}

#[test]
fn cargo_manifest_without_package_names_none() {
    assert_eq!(cargo_package_name("[workspace]\nmembers = [\"a\"]\n"), None);
    assert_eq!(cargo_package_name("[package]\nversion = \"1.0.0\"\n"), None);
}

#[test]
fn malformed_cargo_manifest_names_none() {
    assert_eq!(cargo_package_name("[package\nname = "), None);
}
