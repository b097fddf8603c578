use yava::archive::{archive, extract};
use yava::names::{
    container_name, extension_bytes, has_container_suffix, modified_name, restored_name,
    stem_bytes,
};

#[test]
fn archived_document_restores_under_its_old_name() {
    let source_name: Vec<u8> = b"report.pdf".to_vec();
    let payload: Vec<u8> = b"%PDF-1.4 pretend document".to_vec();
    let ext = extension_bytes(&source_name);
    assert_eq!(ext, b"pdf".to_vec());
    let stored_as = container_name(&source_name);
    assert_eq!(stored_as, b"report.yava".to_vec());
    let (_, container) = archive(&payload, &ext).unwrap();
    let (header, back) = extract(&container).unwrap();
    assert_eq!(back, payload);
    let restored = restored_name(&stored_as, &header.extension);
    assert_eq!(restored, b"report.pdf".to_vec());
}

#[test]
fn source_names_map_to_container_names() {
    assert_eq!(container_name(&b"report.pdf".to_vec()), b"report.yava".to_vec());
    assert_eq!(container_name(&b"archive.tar".to_vec()), b"archive.yava".to_vec());
    assert_eq!(container_name(&b"noext".to_vec()), b"noext.yava".to_vec());
    assert_eq!(container_name(&b"two.dots.txt".to_vec()), b"two.dots.yava".to_vec());
}

#[test]
fn container_names_are_recognized_by_suffix() {
    assert!(has_container_suffix(&b"report.yava".to_vec()));
    assert!(has_container_suffix(&b".yava".to_vec()));
    assert!(!has_container_suffix(&b"report.pdf".to_vec()));
    assert!(!has_container_suffix(&b"yava".to_vec()));
    assert!(!has_container_suffix(&b"".to_vec()));
}

#[test]
fn extensions_are_read_from_the_last_dot() {
    assert_eq!(extension_bytes(&b"report.pdf".to_vec()), b"pdf".to_vec());
    assert_eq!(extension_bytes(&b"two.dots.txt".to_vec()), b"txt".to_vec());
    assert_eq!(extension_bytes(&b"noext".to_vec()), b"unknown".to_vec());
    assert_eq!(extension_bytes(&b".hidden".to_vec()), b"unknown".to_vec());
}

#[test]
fn stems_drop_only_the_last_extension() {
    assert_eq!(stem_bytes(&b"report.pdf".to_vec()), b"report".to_vec());
    assert_eq!(stem_bytes(&b"two.dots.txt".to_vec()), b"two.dots".to_vec());
    assert_eq!(stem_bytes(&b"noext".to_vec()), b"noext".to_vec());
    assert_eq!(stem_bytes(&b".hidden".to_vec()), b".hidden".to_vec());
}

#[test]
fn restored_and_modified_names_derive_from_the_stem() {
    assert_eq!(
        restored_name(&b"report.yava".to_vec(), &b"pdf".to_vec()),
        b"report.pdf".to_vec()
    );
    assert_eq!(
        modified_name(&b"report.yava".to_vec()),
        b"report_modified.yava".to_vec()
    );
}
