use notepadppp::platform::default_associations;
use notepadppp::platform::linux::{extension_to_mime, LinuxIntegration};
use notepadppp::platform::FileAssociation;


#[test]
fn test_generate_desktop_file() {
    let assocs = vec![
        FileAssociation {
            extension: "rs".to_string(),
            description: "Rust".to_string(),
            icon_index: 3,
        },
        FileAssociation {
            extension: "txt".to_string(),
            description: "Text".to_string(),
            icon_index: 1,
        },
    ];
    let desktop = LinuxIntegration::generate_desktop_file("/usr/bin/notepadppp", &assocs);
    assert!(desktop.contains("[Desktop Entry]"));
    assert!(desktop.contains("Name=Notepad+++"));
    assert!(desktop.contains("Exec=/usr/bin/notepadppp %F"));
    assert!(desktop.contains("text/x-rust"));
    assert!(desktop.contains("text/plain"));
    assert!(desktop.contains("Categories=TextEditor"));
}

#[test]
fn test_extension_to_mime_common() {
    assert_eq!(extension_to_mime("rs"), "text/x-rust");
    assert_eq!(extension_to_mime("py"), "text/x-python");
    assert_eq!(extension_to_mime("json"), "application/json");
    assert_eq!(extension_to_mime("html"), "text/html");
    assert_eq!(extension_to_mime("csv"), "text/csv");
    assert_eq!(extension_to_mime("md"), "text/markdown");
    assert_eq!(extension_to_mime("sh"), "application/x-shellscript");
}

#[test]
fn test_extension_to_mime_unknown() {
    assert_eq!(extension_to_mime("xyz"), "text/x-xyz");
}

#[test]
fn test_generate_mime_script() {
    let assocs = default_associations();
    let script = LinuxIntegration::generate_mime_registration_script(&assocs);
    assert!(script.contains("#!/bin/bash"));
    assert!(script.contains("xdg-desktop-menu install"));
    assert!(script.contains("xdg-mime default"));
}

