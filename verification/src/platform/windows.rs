//! Windows shell integration: `.reg` files and PowerShell scripts for file
//! associations and context-menu entries.
use vstd::prelude::*;
use crate::platform::{ContextMenuEntry, ContextMenuScope, FileAssociation};
use crate::text::{replace_char, replace_char_exec};

verus! {

pub struct WindowsIntegration;

/// The path with every backslash doubled, as `.reg` files and scripts quote it.
pub open spec fn escape_path(p: Seq<char>) -> Seq<char> {
    replace_char(p, '\\', "\\\\"@)
}

/// The `.reg` lines for one file association.
pub open spec fn reg_assoc(ext: Seq<char>) -> Seq<char> {
    "[HKEY_CURRENT_USER\\Software\\Classes\\."@ + (ext) + "]\r\n@=\"NotepadPPP.File\"\r\n\r\n[HKEY_CURRENT_USER\\Software\\Classes\\."@ + (ext) + "\\OpenWithProgids]\r\n\"NotepadPPP.File\"=\"\"\r\n\r\n"@
}

pub open spec fn reg_assocs(a: Seq<FileAssociation>) -> Seq<char>
    decreases a.len(),
{
    if a.len() == 0 {
        seq![]
    } else {
        reg_assocs(a.drop_last()) + reg_assoc(a.last().extension@)
    }
}

/// The `.reg` lines for a context-menu entry on one extension.
pub open spec fn reg_ext_entry(ext: Seq<char>, id: Seq<char>, label: Seq<char>, x: Seq<char>) -> Seq<char> {
    "[HKEY_CURRENT_USER\\Software\\Classes\\."@ + (ext) + "\\shell\\"@ + (id) + "]\r\n@=\""@ + (label) + "\"\r\n\"Icon\"=\""@ + (x) + ",0\"\r\n\r\n[HKEY_CURRENT_USER\\Software\\Classes\\."@ + (ext) + "\\shell\\"@ + (id) + "\\command]\r\n@=\"\\\""@ + (x) + "\\\" \\\"%1\\\"\"\r\n\r\n"@
}

pub open spec fn reg_ext_entries(exts: Seq<String>, id: Seq<char>, label: Seq<char>, x: Seq<char>) -> Seq<char>
    decreases exts.len(),
{
    if exts.len() == 0 {
        seq![]
    } else {
        reg_ext_entries(exts.drop_last(), id, label, x) + reg_ext_entry(exts.last()@, id, label, x)
    }
}

/// The `.reg` lines for one context-menu entry.
pub open spec fn reg_entry(e: ContextMenuEntry, x: Seq<char>) -> Seq<char> {
    let id = e.id@;
    let label = e.label@;
    match e.scope {
        ContextMenuScope::AllFiles => "[HKEY_CURRENT_USER\\Software\\Classes\\*\\shell\\"@ + (id) + "]\r\n@=\""@ + (label) + "\"\r\n\"Icon\"=\""@ + (x) + ",0\"\r\n\r\n[HKEY_CURRENT_USER\\Software\\Classes\\*\\shell\\"@ + (id) + "\\command]\r\n@=\"\\\""@ + (x) + "\\\" \\\"%1\\\"\"\r\n\r\n"@,
        ContextMenuScope::Directories => "[HKEY_CURRENT_USER\\Software\\Classes\\Directory\\Background\\shell\\"@ + (id) + "]\r\n@=\""@ + (label) + "\"\r\n\"Icon\"=\""@ + (x) + ",0\"\r\n\r\n[HKEY_CURRENT_USER\\Software\\Classes\\Directory\\Background\\shell\\"@ + (id) + "\\command]\r\n@=\"\\\""@ + (x) + "\\\" \\\"%V\\\"\"\r\n\r\n"@
            + "[HKEY_CURRENT_USER\\Software\\Classes\\Directory\\shell\\"@ + (id) + "]\r\n@=\""@ + (label) + "\"\r\n\"Icon\"=\""@ + (x) + ",0\"\r\n\r\n[HKEY_CURRENT_USER\\Software\\Classes\\Directory\\shell\\"@ + (id) + "\\command]\r\n@=\"\\\""@ + (x) + "\\\" \\\"%1\\\"\"\r\n\r\n"@,
        ContextMenuScope::Extensions(exts) => reg_ext_entries(exts@, id, label, x),
    }
}

pub open spec fn reg_entries(c: Seq<ContextMenuEntry>, x: Seq<char>) -> Seq<char>
    decreases c.len(),
{
    if c.len() == 0 {
        seq![]
    } else {
        reg_entries(c.drop_last(), x) + reg_entry(c.last(), x)
    }
}

/// The `.reg` file registering the ProgID, the associations and the context menu.
pub open spec fn reg_file(exe: Seq<char>, a: Seq<FileAssociation>, c: Seq<ContextMenuEntry>) -> Seq<char> {
    let x = escape_path(exe);
    "Windows Registry Editor Version 5.00\r\n\r\n"@ + "; === Notepad+++ ProgID ===\r\n"@ + "[HKEY_CURRENT_USER\\Software\\Classes\\NotepadPPP.File]\r\n"@ + "@=\"Notepad+++ File\"\r\n\r\n"@ + "[HKEY_CURRENT_USER\\Software\\Classes\\NotepadPPP.File\\DefaultIcon]\r\n@=\""@ + (x) + ",0\"\r\n\r\n"@ + "[HKEY_CURRENT_USER\\Software\\Classes\\NotepadPPP.File\\shell\\open\\command]\r\n@=\"\\\""@ + (x) + "\\\" \\\"%1\\\"\"\r\n\r\n"@ + "; === File Associations ===\r\n"@
        + reg_assocs(a) + "; === Context Menu Entries ===\r\n"@ + reg_entries(c, x)
}

pub open spec fn unreg_assocs(a: Seq<FileAssociation>) -> Seq<char>
    decreases a.len(),
{
    if a.len() == 0 {
        seq![]
    } else {
        unreg_assocs(a.drop_last()) + "[-HKEY_CURRENT_USER\\Software\\Classes\\."@ + (a.last().extension@) + "]\r\n\r\n"@
    }
}

pub open spec fn unreg_ext_entries(exts: Seq<String>, id: Seq<char>) -> Seq<char>
    decreases exts.len(),
{
    if exts.len() == 0 {
        seq![]
    } else {
        unreg_ext_entries(exts.drop_last(), id) + "[-HKEY_CURRENT_USER\\Software\\Classes\\."@ + (exts.last()@) + "\\shell\\"@ + (id) + "]\r\n\r\n"@
    }
}

pub open spec fn unreg_entry(e: ContextMenuEntry) -> Seq<char> {
    let id = e.id@;
    match e.scope {
        ContextMenuScope::AllFiles => "[-HKEY_CURRENT_USER\\Software\\Classes\\*\\shell\\"@ + (id) + "]\r\n\r\n"@,
        ContextMenuScope::Directories => "[-HKEY_CURRENT_USER\\Software\\Classes\\Directory\\Background\\shell\\"@ + (id) + "]\r\n[-HKEY_CURRENT_USER\\Software\\Classes\\Directory\\shell\\"@ + (id) + "]\r\n\r\n"@,
        ContextMenuScope::Extensions(exts) => unreg_ext_entries(exts@, id),
    }
}

pub open spec fn unreg_entries(c: Seq<ContextMenuEntry>) -> Seq<char>
    decreases c.len(),
{
    if c.len() == 0 {
        seq![]
    } else {
        unreg_entries(c.drop_last()) + unreg_entry(c.last())
    }
}

/// The `.reg` file removing the ProgID, the associations and the context menu.
pub open spec fn uninstall_reg(a: Seq<FileAssociation>, c: Seq<ContextMenuEntry>) -> Seq<char> {
    "Windows Registry Editor Version 5.00\r\n\r\n"@ + "; === Remove Notepad+++ ProgID ===\r\n"@ + "[-HKEY_CURRENT_USER\\Software\\Classes\\NotepadPPP.File]\r\n\r\n"@ + "; === Remove File Associations ===\r\n"@ + unreg_assocs(a) + "; === Remove Context Menu Entries ===\r\n"@ + unreg_entries(c)
}

/// The separator after the `i`-th of `n` extensions in the PowerShell list.
pub open spec fn list_comma(i: int, n: int) -> Seq<char> {
    if i < n - 1 {
        ","@
    } else {
        ""@
    }
}

pub open spec fn ps_ext_list(a: Seq<FileAssociation>, k: int) -> Seq<char>
    decreases k,
{
    if k <= 0 {
        seq![]
    } else {
        ps_ext_list(a, k - 1) + "    '"@ + (a[k - 1].extension@) + "'"@ + (list_comma(k - 1, a.len() as int)) + "\r\n"@
    }
}

pub open spec fn ps_entry(e: ContextMenuEntry) -> Seq<char> {
    let id = e.id@;
    let label = e.label@;
    match e.scope {
        ContextMenuScope::AllFiles => "New-Item -Path 'HKCU:\\Software\\Classes\\*\\shell\\"@ + (id) + "\\command' -Force | Out-Null\r\nSet-ItemProperty -Path 'HKCU:\\Software\\Classes\\*\\shell\\"@ + (id) + "' -Name '(Default)' -Value '"@ + (label) + "'\r\nSet-ItemProperty -Path 'HKCU:\\Software\\Classes\\*\\shell\\"@ + (id) + "' -Name 'Icon' -Value \"$exePath,0\"\r\nSet-ItemProperty -Path 'HKCU:\\Software\\Classes\\*\\shell\\"@ + (id) + "\\command' -Name '(Default)' -Value \"\"\"$exePath\"\" \"\"%1\"\"\"\r\n\r\n"@,
        ContextMenuScope::Directories => "New-Item -Path 'HKCU:\\Software\\Classes\\Directory\\Background\\shell\\"@ + (id) + "\\command' -Force | Out-Null\r\nSet-ItemProperty -Path 'HKCU:\\Software\\Classes\\Directory\\Background\\shell\\"@ + (id) + "' -Name '(Default)' -Value '"@ + (label) + "'\r\nSet-ItemProperty -Path 'HKCU:\\Software\\Classes\\Directory\\Background\\shell\\"@ + (id) + "' -Name 'Icon' -Value \"$exePath,0\"\r\nSet-ItemProperty -Path 'HKCU:\\Software\\Classes\\Directory\\Background\\shell\\"@ + (id) + "\\command' -Name '(Default)' -Value \"\"\"$exePath\"\" \"\"%V\"\"\"\r\n\r\nNew-Item -Path 'HKCU:\\Software\\Classes\\Directory\\shell\\"@ + (id) + "\\command' -Force | Out-Null\r\nSet-ItemProperty -Path 'HKCU:\\Software\\Classes\\Directory\\shell\\"@ + (id) + "' -Name '(Default)' -Value '"@ + (label) + "'\r\nSet-ItemProperty -Path 'HKCU:\\Software\\Classes\\Directory\\shell\\"@ + (id) + "' -Name 'Icon' -Value \"$exePath,0\"\r\nSet-ItemProperty -Path 'HKCU:\\Software\\Classes\\Directory\\shell\\"@ + (id) + "\\command' -Name '(Default)' -Value \"\"\"$exePath\"\" \"\"%1\"\"\"\r\n\r\n"@,
        ContextMenuScope::Extensions(_) => seq![],
    }
}

pub open spec fn ps_entries(c: Seq<ContextMenuEntry>) -> Seq<char>
    decreases c.len(),
{
    if c.len() == 0 {
        seq![]
    } else {
        ps_entries(c.drop_last()) + ps_entry(c.last())
    }
}

/// The PowerShell script registering the ProgID, the associations and the context menu.
pub open spec fn ps_register(exe: Seq<char>, a: Seq<FileAssociation>, c: Seq<ContextMenuEntry>) -> Seq<char> {
    "# Notepad+++ Shell Integration Registration\r\n"@ + "# Run this script in PowerShell to register file associations and context menu\r\n\r\n"@ + "$exePath = \""@ + (escape_path(exe)) + "\"\r\n\r\n"@
        + "# Create ProgID\r\n"@ + "New-Item -Path 'HKCU:\\Software\\Classes\\NotepadPPP.File' -Force | Out-Null\r\n"@ + "Set-ItemProperty -Path 'HKCU:\\Software\\Classes\\NotepadPPP.File' -Name '(Default)' -Value 'Notepad+++ File'\r\n"@ + "New-Item -Path 'HKCU:\\Software\\Classes\\NotepadPPP.File\\DefaultIcon' -Force | Out-Null\r\n"@ + "Set-ItemProperty -Path 'HKCU:\\Software\\Classes\\NotepadPPP.File\\DefaultIcon' -Name '(Default)' -Value \"$exePath,0\"\r\n"@ + "New-Item -Path 'HKCU:\\Software\\Classes\\NotepadPPP.File\\shell\\open\\command' -Force | Out-Null\r\n"@ + "Set-ItemProperty -Path 'HKCU:\\Software\\Classes\\NotepadPPP.File\\shell\\open\\command' -Name '(Default)' -Value \"\"\"$exePath\"\" \"\"%1\"\"\"\r\n\r\n"@ + "# Register file associations\r\n"@ + "$extensions = @(\r\n"@ + ps_ext_list(a, a.len() as int)
        + ")\r\n\r\n"@ + "foreach ($ext in $extensions) {\r\n"@ + "    New-Item -Path \"HKCU:\\Software\\Classes\\.$ext\" -Force | Out-Null\r\n"@ + "    New-Item -Path \"HKCU:\\Software\\Classes\\.$ext\\OpenWithProgids\" -Force | Out-Null\r\n"@ + "    New-ItemProperty -Path \"HKCU:\\Software\\Classes\\.$ext\\OpenWithProgids\" -Name 'NotepadPPP.File' -Value '' -PropertyType String -Force | Out-Null\r\n"@ + "}\r\n\r\n"@ + "# Register context menu entries\r\n"@ + ps_entries(c)
        + "# Notify shell of changes\r\n"@ + "$signature = @'\r\n"@ + "[DllImport(\"shell32.dll\", CharSet = CharSet.Auto, SetLastError = true)]\r\n"@ + "public static extern void SHChangeNotify(int wEventId, int uFlags, IntPtr dwItem1, IntPtr dwItem2);\r\n"@ + "'@\r\n"@ + "$shell = Add-Type -MemberDefinition $signature -Name 'ShellNotify' -Namespace 'Win32' -PassThru\r\n"@ + "$shell::SHChangeNotify(0x08000000, 0x0000, [IntPtr]::Zero, [IntPtr]::Zero)\r\n\r\n"@ + "Write-Host 'Notepad+++ shell integration registered successfully!' -ForegroundColor Green\r\n"@
}

pub open spec fn ps_unreg_assocs(a: Seq<FileAssociation>) -> Seq<char>
    decreases a.len(),
{
    if a.len() == 0 {
        seq![]
    } else {
        ps_unreg_assocs(a.drop_last()) + "Remove-ItemProperty -Path 'HKCU:\\Software\\Classes\\."@ + (a.last().extension@) + "\\OpenWithProgids' -Name 'NotepadPPP.File' -Force -ErrorAction SilentlyContinue\r\n"@
    }
}

pub open spec fn ps_unreg_entry(e: ContextMenuEntry) -> Seq<char> {
    let id = e.id@;
    match e.scope {
        ContextMenuScope::AllFiles => "Remove-Item -Path 'HKCU:\\Software\\Classes\\*\\shell\\"@ + (id) + "' -Recurse -Force -ErrorAction SilentlyContinue\r\n"@,
        ContextMenuScope::Directories => "Remove-Item -Path 'HKCU:\\Software\\Classes\\Directory\\Background\\shell\\"@ + (id) + "' -Recurse -Force -ErrorAction SilentlyContinue\r\nRemove-Item -Path 'HKCU:\\Software\\Classes\\Directory\\shell\\"@ + (id) + "' -Recurse -Force -ErrorAction SilentlyContinue\r\n"@,
        ContextMenuScope::Extensions(_) => seq![],
    }
}

pub open spec fn ps_unreg_entries(c: Seq<ContextMenuEntry>) -> Seq<char>
    decreases c.len(),
{
    if c.len() == 0 {
        seq![]
    } else {
        ps_unreg_entries(c.drop_last()) + ps_unreg_entry(c.last())
    }
}

/// The PowerShell script removing the ProgID, the associations and the context menu.
pub open spec fn ps_unregister(a: Seq<FileAssociation>, c: Seq<ContextMenuEntry>) -> Seq<char> {
    "# Notepad+++ Shell Integration Removal\r\n\r\n"@ + "# Remove ProgID\r\n"@ + "Remove-Item -Path 'HKCU:\\Software\\Classes\\NotepadPPP.File' -Recurse -Force -ErrorAction SilentlyContinue\r\n\r\n"@ + "# Remove file associations\r\n"@ + ps_unreg_assocs(a) + "\r\n"@ + "# Remove context menu entries\r\n"@ + ps_unreg_entries(c)
        + "\r\n# Notify shell of changes\r\n"@ + "$signature = @'\r\n"@ + "[DllImport(\"shell32.dll\", CharSet = CharSet.Auto, SetLastError = true)]\r\n"@ + "public static extern void SHChangeNotify(int wEventId, int uFlags, IntPtr dwItem1, IntPtr dwItem2);\r\n"@ + "'@\r\n"@ + "$shell = Add-Type -MemberDefinition $signature -Name 'ShellNotify' -Namespace 'Win32' -PassThru\r\n"@ + "$shell::SHChangeNotify(0x08000000, 0x0000, [IntPtr]::Zero, [IntPtr]::Zero)\r\n\r\n"@ + "Write-Host 'Notepad+++ shell integration removed.' -ForegroundColor Yellow\r\n"@
}

fn push_reg_ext_entries(out: &mut String, exts: &Vec<String>, id: &str, label: &str, x: &str)
    ensures
        final(out)@ == old(out)@ + reg_ext_entries(exts@, id@, label@, x@),
{
    let ghost head = out@;
    let mut i: usize = 0;
    while i < exts.len()
        invariant
            i <= exts@.len(),
            out@ == head + reg_ext_entries(exts@.take(i as int), id@, label@, x@),
        decreases exts.len() - i,
    {
        assert(exts@.take(i as int + 1).drop_last() == exts@.take(i as int));
            let ext = exts[i].as_str();
            out.append("[HKEY_CURRENT_USER\\Software\\Classes\\.");
            out.append(ext);
            out.append("\\shell\\");
            out.append(id);
            out.append("]\r\n@=\"");
            out.append(label);
            out.append("\"\r\n\"Icon\"=\"");
            out.append(x);
            out.append(",0\"\r\n\r\n[HKEY_CURRENT_USER\\Software\\Classes\\.");
            out.append(ext);
            out.append("\\shell\\");
            out.append(id);
            out.append("\\command]\r\n@=\"\\\"");
            out.append(x);
            out.append("\\\" \\\"%1\\\"\"\r\n\r\n");
        i += 1;
    }
    assert(exts@.take(exts@.len() as int) == exts@);
}

fn push_reg_entry(out: &mut String, e: &ContextMenuEntry, x: &str)
    ensures
        final(out)@ == old(out)@ + reg_entry(*e, x@),
{
    let id = e.id.as_str();
    let label = e.label.as_str();
    match &e.scope {
        ContextMenuScope::AllFiles => {
            out.append("[HKEY_CURRENT_USER\\Software\\Classes\\*\\shell\\");
            out.append(id);
            out.append("]\r\n@=\"");
            out.append(label);
            out.append("\"\r\n\"Icon\"=\"");
            out.append(x);
            out.append(",0\"\r\n\r\n[HKEY_CURRENT_USER\\Software\\Classes\\*\\shell\\");
            out.append(id);
            out.append("\\command]\r\n@=\"\\\"");
            out.append(x);
            out.append("\\\" \\\"%1\\\"\"\r\n\r\n");
        },
        ContextMenuScope::Directories => {
            out.append("[HKEY_CURRENT_USER\\Software\\Classes\\Directory\\Background\\shell\\");
            out.append(id);
            out.append("]\r\n@=\"");
            out.append(label);
            out.append("\"\r\n\"Icon\"=\"");
            out.append(x);
            out.append(",0\"\r\n\r\n[HKEY_CURRENT_USER\\Software\\Classes\\Directory\\Background\\shell\\");
            out.append(id);
            out.append("\\command]\r\n@=\"\\\"");
            out.append(x);
            out.append("\\\" \\\"%V\\\"\"\r\n\r\n");
            out.append("[HKEY_CURRENT_USER\\Software\\Classes\\Directory\\shell\\");
            out.append(id);
            out.append("]\r\n@=\"");
            out.append(label);
            out.append("\"\r\n\"Icon\"=\"");
            out.append(x);
            out.append(",0\"\r\n\r\n[HKEY_CURRENT_USER\\Software\\Classes\\Directory\\shell\\");
            out.append(id);
            out.append("\\command]\r\n@=\"\\\"");
            out.append(x);
            out.append("\\\" \\\"%1\\\"\"\r\n\r\n");
        },
        ContextMenuScope::Extensions(exts) => {
            push_reg_ext_entries(out, exts, id, label, x);
        },
    }
}

fn push_unreg_entry(out: &mut String, e: &ContextMenuEntry)
    ensures
        final(out)@ == old(out)@ + unreg_entry(*e),
{
    let id = e.id.as_str();
    match &e.scope {
        ContextMenuScope::AllFiles => {
            out.append("[-HKEY_CURRENT_USER\\Software\\Classes\\*\\shell\\");
            out.append(id);
            out.append("]\r\n\r\n");
        },
        ContextMenuScope::Directories => {
            out.append("[-HKEY_CURRENT_USER\\Software\\Classes\\Directory\\Background\\shell\\");
            out.append(id);
            out.append("]\r\n[-HKEY_CURRENT_USER\\Software\\Classes\\Directory\\shell\\");
            out.append(id);
            out.append("]\r\n\r\n");
        },
        ContextMenuScope::Extensions(exts) => {
            let ghost head = out@;
            let mut i: usize = 0;
            while i < exts.len()
                invariant
                    i <= exts@.len(),
                    out@ == head + unreg_ext_entries(exts@.take(i as int), id@),
                decreases exts.len() - i,
            {
                assert(exts@.take(i as int + 1).drop_last() == exts@.take(i as int));
                let ext = exts[i].as_str();
                out.append("[-HKEY_CURRENT_USER\\Software\\Classes\\.");
                out.append(ext);
                out.append("\\shell\\");
                out.append(id);
                out.append("]\r\n\r\n");
                i += 1;
            }
            assert(exts@.take(exts@.len() as int) == exts@);
        },
    }
}

fn push_ps_entry(out: &mut String, e: &ContextMenuEntry)
    ensures
        final(out)@ == old(out)@ + ps_entry(*e),
{
    let id = e.id.as_str();
    let label = e.label.as_str();
    match &e.scope {
        ContextMenuScope::AllFiles => {
            out.append("New-Item -Path 'HKCU:\\Software\\Classes\\*\\shell\\");
            out.append(id);
            out.append("\\command' -Force | Out-Null\r\nSet-ItemProperty -Path 'HKCU:\\Software\\Classes\\*\\shell\\");
            out.append(id);
            out.append("' -Name '(Default)' -Value '");
            out.append(label);
            out.append("'\r\nSet-ItemProperty -Path 'HKCU:\\Software\\Classes\\*\\shell\\");
            out.append(id);
            out.append("' -Name 'Icon' -Value \"$exePath,0\"\r\nSet-ItemProperty -Path 'HKCU:\\Software\\Classes\\*\\shell\\");
            out.append(id);
            out.append("\\command' -Name '(Default)' -Value \"\"\"$exePath\"\" \"\"%1\"\"\"\r\n\r\n");
        },
        ContextMenuScope::Directories => {
            out.append("New-Item -Path 'HKCU:\\Software\\Classes\\Directory\\Background\\shell\\");
            out.append(id);
            out.append("\\command' -Force | Out-Null\r\nSet-ItemProperty -Path 'HKCU:\\Software\\Classes\\Directory\\Background\\shell\\");
            out.append(id);
            out.append("' -Name '(Default)' -Value '");
            out.append(label);
            out.append("'\r\nSet-ItemProperty -Path 'HKCU:\\Software\\Classes\\Directory\\Background\\shell\\");
            out.append(id);
            out.append("' -Name 'Icon' -Value \"$exePath,0\"\r\nSet-ItemProperty -Path 'HKCU:\\Software\\Classes\\Directory\\Background\\shell\\");
            out.append(id);
            out.append("\\command' -Name '(Default)' -Value \"\"\"$exePath\"\" \"\"%V\"\"\"\r\n\r\nNew-Item -Path 'HKCU:\\Software\\Classes\\Directory\\shell\\");
            out.append(id);
            out.append("\\command' -Force | Out-Null\r\nSet-ItemProperty -Path 'HKCU:\\Software\\Classes\\Directory\\shell\\");
            out.append(id);
            out.append("' -Name '(Default)' -Value '");
            out.append(label);
            out.append("'\r\nSet-ItemProperty -Path 'HKCU:\\Software\\Classes\\Directory\\shell\\");
            out.append(id);
            out.append("' -Name 'Icon' -Value \"$exePath,0\"\r\nSet-ItemProperty -Path 'HKCU:\\Software\\Classes\\Directory\\shell\\");
            out.append(id);
            out.append("\\command' -Name '(Default)' -Value \"\"\"$exePath\"\" \"\"%1\"\"\"\r\n\r\n");
        },
        ContextMenuScope::Extensions(_) => {
            assert(old(out)@ + seq![] == old(out)@);
        },
    }
}

fn push_ps_unreg_entry(out: &mut String, e: &ContextMenuEntry)
    ensures
        final(out)@ == old(out)@ + ps_unreg_entry(*e),
{
    let id = e.id.as_str();
    match &e.scope {
        ContextMenuScope::AllFiles => {
            out.append("Remove-Item -Path 'HKCU:\\Software\\Classes\\*\\shell\\");
            out.append(id);
            out.append("' -Recurse -Force -ErrorAction SilentlyContinue\r\n");
        },
        ContextMenuScope::Directories => {
            out.append("Remove-Item -Path 'HKCU:\\Software\\Classes\\Directory\\Background\\shell\\");
            out.append(id);
            out.append("' -Recurse -Force -ErrorAction SilentlyContinue\r\nRemove-Item -Path 'HKCU:\\Software\\Classes\\Directory\\shell\\");
            out.append(id);
            out.append("' -Recurse -Force -ErrorAction SilentlyContinue\r\n");
        },
        ContextMenuScope::Extensions(_) => {
            assert(old(out)@ + seq![] == old(out)@);
        },
    }
}

impl WindowsIntegration {
    pub fn new() -> (res: Self) {
        WindowsIntegration
    }

    /// Generates the `.reg` file that registers the ProgID, the file
    /// associations and the context-menu entries.
    pub fn generate_reg_file(
        exe_path: &str,
        associations: &[FileAssociation],
        context_menu: &[ContextMenuEntry],
    ) -> (res: String)
        ensures
            res@ == reg_file(exe_path@, associations@, context_menu@),
    {
        let exe_escaped = replace_char_exec(exe_path, '\\', "\\\\");
        let x = exe_escaped.as_str();
        let mut reg = String::from_str("Windows Registry Editor Version 5.00\r\n\r\n");
        reg.append("; === Notepad+++ ProgID ===\r\n");
        reg.append("[HKEY_CURRENT_USER\\Software\\Classes\\NotepadPPP.File]\r\n");
        reg.append("@=\"Notepad+++ File\"\r\n\r\n");
        reg.append("[HKEY_CURRENT_USER\\Software\\Classes\\NotepadPPP.File\\DefaultIcon]\r\n@=\"");
        reg.append(x);
        reg.append(",0\"\r\n\r\n");
        reg.append("[HKEY_CURRENT_USER\\Software\\Classes\\NotepadPPP.File\\shell\\open\\command]\r\n@=\"\\\"");
        reg.append(x);
        reg.append("\\\" \\\"%1\\\"\"\r\n\r\n");
        reg.append("; === File Associations ===\r\n");
        let ghost head = reg@;
        let mut i: usize = 0;
        while i < associations.len()
            invariant
                i <= associations@.len(),
                reg@ == head + reg_assocs(associations@.take(i as int)),
            decreases associations.len() - i,
        {
            assert(associations@.take(i as int + 1).drop_last() == associations@.take(i as int));
            let ext = associations[i].extension.as_str();
            reg.append("[HKEY_CURRENT_USER\\Software\\Classes\\.");
            reg.append(ext);
            reg.append("]\r\n@=\"NotepadPPP.File\"\r\n\r\n[HKEY_CURRENT_USER\\Software\\Classes\\.");
            reg.append(ext);
            reg.append("\\OpenWithProgids]\r\n\"NotepadPPP.File\"=\"\"\r\n\r\n");
            i += 1;
        }
        assert(associations@.take(associations@.len() as int) == associations@);
        reg.append("; === Context Menu Entries ===\r\n");
        let ghost head2 = reg@;
        let mut j: usize = 0;
        while j < context_menu.len()
            invariant
                j <= context_menu@.len(),
                x@ == escape_path(exe_path@),
                reg@ == head2 + reg_entries(context_menu@.take(j as int), x@),
            decreases context_menu.len() - j,
        {
            assert(context_menu@.take(j as int + 1).drop_last() == context_menu@.take(j as int));
            push_reg_entry(&mut reg, &context_menu[j], x);
            j += 1;
        }
        assert(context_menu@.take(context_menu@.len() as int) == context_menu@);
        reg
    }

    /// Generates the `.reg` file that removes all shell integration.
    pub fn generate_uninstall_reg(
        associations: &[FileAssociation],
        context_menu: &[ContextMenuEntry],
    ) -> (res: String)
        ensures
            res@ == uninstall_reg(associations@, context_menu@),
    {
        let mut reg = String::from_str("Windows Registry Editor Version 5.00\r\n\r\n");
        reg.append("; === Remove Notepad+++ ProgID ===\r\n");
        reg.append("[-HKEY_CURRENT_USER\\Software\\Classes\\NotepadPPP.File]\r\n\r\n");
        reg.append("; === Remove File Associations ===\r\n");
        let ghost head = reg@;
        let mut i: usize = 0;
        while i < associations.len()
            invariant
                i <= associations@.len(),
                reg@ == head + unreg_assocs(associations@.take(i as int)),
            decreases associations.len() - i,
        {
            assert(associations@.take(i as int + 1).drop_last() == associations@.take(i as int));
            let ext = associations[i].extension.as_str();
            reg.append("[-HKEY_CURRENT_USER\\Software\\Classes\\.");
            reg.append(ext);
            reg.append("]\r\n\r\n");
            i += 1;
        }
        assert(associations@.take(associations@.len() as int) == associations@);
        reg.append("; === Remove Context Menu Entries ===\r\n");
        let ghost head2 = reg@;
        let mut j: usize = 0;
        while j < context_menu.len()
            invariant
                j <= context_menu@.len(),
                reg@ == head2 + unreg_entries(context_menu@.take(j as int)),
            decreases context_menu.len() - j,
        {
            assert(context_menu@.take(j as int + 1).drop_last() == context_menu@.take(j as int));
            push_unreg_entry(&mut reg, &context_menu[j]);
            j += 1;
        }
        assert(context_menu@.take(context_menu@.len() as int) == context_menu@);
        reg
    }

    /// Generates a PowerShell script registering the shell integration
    /// under HKCU (no administrator rights needed).
    pub fn generate_powershell_register(
        exe_path: &str,
        associations: &[FileAssociation],
        context_menu: &[ContextMenuEntry],
    ) -> (res: String)
        ensures
            res@ == ps_register(exe_path@, associations@, context_menu@),
    {
        let mut ps = String::new();
        assert(ps@ + "# Notepad+++ Shell Integration Registration\r\n"@ == "# Notepad+++ Shell Integration Registration\r\n"@);
        ps.append("# Notepad+++ Shell Integration Registration\r\n");
        ps.append("# Run this script in PowerShell to register file associations and context menu\r\n\r\n");
        let escaped = replace_char_exec(exe_path, '\\', "\\\\");
        ps.append("$exePath = \"");
        ps.append(escaped.as_str());
        ps.append("\"\r\n\r\n");
        ps.append("# Create ProgID\r\n");
        ps.append("New-Item -Path 'HKCU:\\Software\\Classes\\NotepadPPP.File' -Force | Out-Null\r\n");
        ps.append("Set-ItemProperty -Path 'HKCU:\\Software\\Classes\\NotepadPPP.File' -Name '(Default)' -Value 'Notepad+++ File'\r\n");
        ps.append("New-Item -Path 'HKCU:\\Software\\Classes\\NotepadPPP.File\\DefaultIcon' -Force | Out-Null\r\n");
        ps.append("Set-ItemProperty -Path 'HKCU:\\Software\\Classes\\NotepadPPP.File\\DefaultIcon' -Name '(Default)' -Value \"$exePath,0\"\r\n");
        ps.append("New-Item -Path 'HKCU:\\Software\\Classes\\NotepadPPP.File\\shell\\open\\command' -Force | Out-Null\r\n");
        ps.append("Set-ItemProperty -Path 'HKCU:\\Software\\Classes\\NotepadPPP.File\\shell\\open\\command' -Name '(Default)' -Value \"\"\"$exePath\"\" \"\"%1\"\"\"\r\n\r\n");
        ps.append("# Register file associations\r\n");
        ps.append("$extensions = @(\r\n");
        let ghost head = ps@;
        let n = associations.len();
        let mut i: usize = 0;
        while i < n
            invariant
                i <= n == associations@.len(),
                ps@ == head + ps_ext_list(associations@, i as int),
            decreases n - i,
        {
            let comma = if i < n - 1 { "," } else { "" };
            let ext = associations[i].extension.as_str();
            ps.append("    '");
            ps.append(ext);
            ps.append("'");
            ps.append(comma);
            ps.append("\r\n");
            i += 1;
        }
        ps.append(")\r\n\r\n");
        ps.append("foreach ($ext in $extensions) {\r\n");
        ps.append("    New-Item -Path \"HKCU:\\Software\\Classes\\.$ext\" -Force | Out-Null\r\n");
        ps.append("    New-Item -Path \"HKCU:\\Software\\Classes\\.$ext\\OpenWithProgids\" -Force | Out-Null\r\n");
        ps.append("    New-ItemProperty -Path \"HKCU:\\Software\\Classes\\.$ext\\OpenWithProgids\" -Name 'NotepadPPP.File' -Value '' -PropertyType String -Force | Out-Null\r\n");
        ps.append("}\r\n\r\n");
        ps.append("# Register context menu entries\r\n");
        let ghost head2 = ps@;
        let mut j: usize = 0;
        while j < context_menu.len()
            invariant
                j <= context_menu@.len(),
                ps@ == head2 + ps_entries(context_menu@.take(j as int)),
            decreases context_menu.len() - j,
        {
            assert(context_menu@.take(j as int + 1).drop_last() == context_menu@.take(j as int));
            push_ps_entry(&mut ps, &context_menu[j]);
            j += 1;
        }
        assert(context_menu@.take(context_menu@.len() as int) == context_menu@);
        ps.append("# Notify shell of changes\r\n");
        ps.append("$signature = @'\r\n");
        ps.append("[DllImport(\"shell32.dll\", CharSet = CharSet.Auto, SetLastError = true)]\r\n");
        ps.append("public static extern void SHChangeNotify(int wEventId, int uFlags, IntPtr dwItem1, IntPtr dwItem2);\r\n");
        ps.append("'@\r\n");
        ps.append("$shell = Add-Type -MemberDefinition $signature -Name 'ShellNotify' -Namespace 'Win32' -PassThru\r\n");
        ps.append("$shell::SHChangeNotify(0x08000000, 0x0000, [IntPtr]::Zero, [IntPtr]::Zero)\r\n\r\n");
        ps.append("Write-Host 'Notepad+++ shell integration registered successfully!' -ForegroundColor Green\r\n");
        ps
    }

    /// Generates a PowerShell script removing the shell integration.
    pub fn generate_powershell_unregister(
        associations: &[FileAssociation],
        context_menu: &[ContextMenuEntry],
    ) -> (res: String)
        ensures
            res@ == ps_unregister(associations@, context_menu@),
    {
        let mut ps = String::new();
        assert(ps@ + "# Notepad+++ Shell Integration Removal\r\n\r\n"@ == "# Notepad+++ Shell Integration Removal\r\n\r\n"@);
        ps.append("# Notepad+++ Shell Integration Removal\r\n\r\n");
        ps.append("# Remove ProgID\r\n");
        ps.append("Remove-Item -Path 'HKCU:\\Software\\Classes\\NotepadPPP.File' -Recurse -Force -ErrorAction SilentlyContinue\r\n\r\n");
        ps.append("# Remove file associations\r\n");
        let ghost head = ps@;
        let mut i: usize = 0;
        while i < associations.len()
            invariant
                i <= associations@.len(),
                ps@ == head + ps_unreg_assocs(associations@.take(i as int)),
            decreases associations.len() - i,
        {
            assert(associations@.take(i as int + 1).drop_last() == associations@.take(i as int));
            let ext = associations[i].extension.as_str();
            ps.append("Remove-ItemProperty -Path 'HKCU:\\Software\\Classes\\.");
            ps.append(ext);
            ps.append("\\OpenWithProgids' -Name 'NotepadPPP.File' -Force -ErrorAction SilentlyContinue\r\n");
            i += 1;
        }
        assert(associations@.take(associations@.len() as int) == associations@);
        ps.append("\r\n");
        ps.append("# Remove context menu entries\r\n");
        let ghost head2 = ps@;
        let mut j: usize = 0;
        while j < context_menu.len()
            invariant
                j <= context_menu@.len(),
                ps@ == head2 + ps_unreg_entries(context_menu@.take(j as int)),
            decreases context_menu.len() - j,
        {
            assert(context_menu@.take(j as int + 1).drop_last() == context_menu@.take(j as int));
            push_ps_unreg_entry(&mut ps, &context_menu[j]);
            j += 1;
        }
        assert(context_menu@.take(context_menu@.len() as int) == context_menu@);
        ps.append("\r\n# Notify shell of changes\r\n");
        ps.append("$signature = @'\r\n");
        ps.append("[DllImport(\"shell32.dll\", CharSet = CharSet.Auto, SetLastError = true)]\r\n");
        ps.append("public static extern void SHChangeNotify(int wEventId, int uFlags, IntPtr dwItem1, IntPtr dwItem2);\r\n");
        ps.append("'@\r\n");
        ps.append("$shell = Add-Type -MemberDefinition $signature -Name 'ShellNotify' -Namespace 'Win32' -PassThru\r\n");
        ps.append("$shell::SHChangeNotify(0x08000000, 0x0000, [IntPtr]::Zero, [IntPtr]::Zero)\r\n\r\n");
        ps.append("Write-Host 'Notepad+++ shell integration removed.' -ForegroundColor Yellow\r\n");
        ps
    }
}

} // verus!
