use notepadppp::platform::macos::MacOSIntegration;
use notepadppp::platform::FileAssociation;


#[test]
fn test_generate_plist() {
    let assocs = vec![
        FileAssociation {
            extension: "rs".to_string(),
            description: "Rust Source File".to_string(),
            icon_index: 3,
        },
    ];
    let plist = MacOSIntegration::generate_plist_document_types(&assocs);
    assert!(plist.contains("CFBundleDocumentTypes"));
    assert!(plist.contains("Rust Source File"));
    assert!(plist.contains("<string>rs</string>"));
    assert!(plist.contains("com.notepadppp.editor"));
}

