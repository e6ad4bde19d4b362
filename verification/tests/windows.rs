use notepadppp::platform::windows::WindowsIntegration;
use notepadppp::platform::{
    default_associations, default_context_menu_entries, ContextMenuEntry, ContextMenuScope,
    FileAssociation,
};


#[test]
fn test_generate_reg_file_contains_progid() {
    let reg = WindowsIntegration::generate_reg_file(
        r"C:\Program Files\Notepad+++\notepadppp.exe",
        &[],
        &[],
    );
    assert!(reg.contains("Windows Registry Editor Version 5.00"));
    assert!(reg.contains("NotepadPPP.File"));
    assert!(reg.contains("shell\\open\\command"));
}

#[test]
fn test_generate_reg_file_contains_associations() {
    let assocs = vec![FileAssociation {
        extension: "rs".to_string(),
        description: "Rust Source File".to_string(),
        icon_index: 3,
    }];
    let reg = WindowsIntegration::generate_reg_file(
        r"C:\notepadppp.exe",
        &assocs,
        &[],
    );
    assert!(reg.contains(".rs"));
    assert!(reg.contains("OpenWithProgids"));
}

#[test]
fn test_generate_reg_file_contains_context_menu_all_files() {
    let entries = vec![ContextMenuEntry {
        id: "NotepadPPP.Open".to_string(),
        label: "Open with Notepad+++".to_string(),
        scope: ContextMenuScope::AllFiles,
    }];
    let reg = WindowsIntegration::generate_reg_file(
        r"C:\notepadppp.exe",
        &[],
        &entries,
    );
    assert!(reg.contains(r"*\shell\NotepadPPP.Open"));
    assert!(reg.contains("Open with Notepad+++"));
}

#[test]
fn test_generate_reg_file_contains_directory_context_menu() {
    let entries = vec![ContextMenuEntry {
        id: "NotepadPPP.Folder".to_string(),
        label: "Open folder in Notepad+++".to_string(),
        scope: ContextMenuScope::Directories,
    }];
    let reg = WindowsIntegration::generate_reg_file(
        r"C:\notepadppp.exe",
        &[],
        &entries,
    );
    assert!(reg.contains(r"Directory\Background\shell\NotepadPPP.Folder"));
    assert!(reg.contains(r"Directory\shell\NotepadPPP.Folder"));
}

#[test]
fn test_generate_uninstall_reg() {
    let assocs = vec![FileAssociation {
        extension: "txt".to_string(),
        description: "Text".to_string(),
        icon_index: 1,
    }];
    let entries = vec![ContextMenuEntry {
        id: "NotepadPPP.Open".to_string(),
        label: "Open with Notepad+++".to_string(),
        scope: ContextMenuScope::AllFiles,
    }];
    let reg = WindowsIntegration::generate_uninstall_reg(&assocs, &entries);
    assert!(reg.contains("[-HKEY_CURRENT_USER\\Software\\Classes\\NotepadPPP.File]"));
    assert!(reg.contains("[-HKEY_CURRENT_USER\\Software\\Classes\\.txt]"));
    assert!(reg.contains("[-HKEY_CURRENT_USER\\Software\\Classes\\*\\shell\\NotepadPPP.Open]"));
}

#[test]
fn test_generate_powershell_register() {
    let assocs = vec![FileAssociation {
        extension: "rs".to_string(),
        description: "Rust".to_string(),
        icon_index: 3,
    }];
    let entries = default_context_menu_entries(r"C:\notepadppp.exe");
    let ps = WindowsIntegration::generate_powershell_register(
        r"C:\notepadppp.exe",
        &assocs,
        &entries,
    );
    assert!(ps.contains("New-Item"));
    assert!(ps.contains("NotepadPPP.File"));
    assert!(ps.contains("SHChangeNotify"));
    assert!(ps.contains("'rs'"));
}

#[test]
fn test_generate_powershell_unregister() {
    let assocs = vec![FileAssociation {
        extension: "txt".to_string(),
        description: "Text".to_string(),
        icon_index: 1,
    }];
    let entries = default_context_menu_entries("");
    let ps = WindowsIntegration::generate_powershell_unregister(&assocs, &entries);
    assert!(ps.contains("Remove-Item"));
    assert!(ps.contains("NotepadPPP.File"));
}

#[test]
fn test_default_associations_not_empty() {
    let assocs = default_associations();
    assert!(assocs.len() > 40);
    assert!(assocs.iter().any(|a| a.extension == "rs"));
    assert!(assocs.iter().any(|a| a.extension == "txt"));
    assert!(assocs.iter().any(|a| a.extension == "json"));
    assert!(assocs.iter().any(|a| a.extension == "py"));
}

#[test]
fn test_default_context_menu_entries() {
    let entries = default_context_menu_entries(r"C:\notepadppp.exe");
    assert_eq!(entries.len(), 2);
    assert!(entries.iter().any(|e| e.scope == ContextMenuScope::AllFiles));
    assert!(entries.iter().any(|e| e.scope == ContextMenuScope::Directories));
}

#[test]
fn test_reg_file_escapes_backslashes() {
    let reg = WindowsIntegration::generate_reg_file(
        r"C:\Program Files\Notepad+++\notepadppp.exe",
        &[],
        &[],
    );
    assert!(reg.contains("C:\\\\Program Files\\\\Notepad+++\\\\notepadppp.exe"));
}

#[test]
fn test_full_reg_file_with_defaults() {
    let assocs = default_associations();
    let entries = default_context_menu_entries(r"C:\notepadppp.exe");
    let reg = WindowsIntegration::generate_reg_file(r"C:\notepadppp.exe", &assocs, &entries);
    // Should contain entries for all extensions
    for assoc in &assocs {
        assert!(
            reg.contains(&format!(".{}", assoc.extension)),
            "Missing extension: {}",
            assoc.extension
        );
    }
}

