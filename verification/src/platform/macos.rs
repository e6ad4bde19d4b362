//! macOS shell integration: `Info.plist` document types.
use vstd::prelude::*;
use crate::platform::FileAssociation;

verus! {

pub struct MacOSIntegration;

/// The `<dict>` entries of the document types, one per association.
pub open spec fn plist_entries(a: Seq<FileAssociation>) -> Seq<char>
    decreases a.len(),
{
    if a.len() == 0 {
        seq![]
    } else {
        plist_entries(a.drop_last()) + "        <dict>\n"@ + "            <key>CFBundleTypeName</key>\n            <string>"@ + (a.last().description@) + "</string>\n"@ + "            <key>CFBundleTypeRole</key>\n            <string>Editor</string>\n"@ + "            <key>CFBundleTypeExtensions</key>\n            <array>\n"@ + "                <string>"@ + (a.last().extension@) + "</string>\n"@ + "            </array>\n"@ + "        </dict>\n"@
    }
}

/// The `Info.plist` content.
pub open spec fn plist(a: Seq<FileAssociation>) -> Seq<char> {
    "<?xml version=\"1.0\" encoding=\"UTF-8\"?>\n"@ + "<!DOCTYPE plist PUBLIC \"-//Apple//DTD PLIST 1.0//EN\" \"http://www.apple.com/DTDs/PropertyList-1.0.dtd\">\n"@ + "<plist version=\"1.0\">\n<dict>\n"@ + "    <key>CFBundleName</key>\n    <string>Notepad+++</string>\n"@ + "    <key>CFBundleIdentifier</key>\n    <string>com.notepadppp.editor</string>\n"@ + "    <key>CFBundleVersion</key>\n    <string>0.1.0</string>\n"@ + "    <key>CFBundleDocumentTypes</key>\n    <array>\n"@ + plist_entries(a) + "    </array>\n</dict>\n</plist>\n"@
}

impl MacOSIntegration {
    pub fn new() -> (res: Self) {
        MacOSIntegration
    }

    /// Generates the `Info.plist` document type entries for the associations.
    pub fn generate_plist_document_types(associations: &[FileAssociation]) -> (res: String)
        ensures
            res@ == plist(associations@),
    {
        let mut plist = String::from_str("<?xml version=\"1.0\" encoding=\"UTF-8\"?>\n");
        plist.append("<!DOCTYPE plist PUBLIC \"-//Apple//DTD PLIST 1.0//EN\" \"http://www.apple.com/DTDs/PropertyList-1.0.dtd\">\n");
        plist.append("<plist version=\"1.0\">\n<dict>\n");
        plist.append("    <key>CFBundleName</key>\n    <string>Notepad+++</string>\n");
        plist.append("    <key>CFBundleIdentifier</key>\n    <string>com.notepadppp.editor</string>\n");
        plist.append("    <key>CFBundleVersion</key>\n    <string>0.1.0</string>\n");
        plist.append("    <key>CFBundleDocumentTypes</key>\n    <array>\n");
        let ghost head = plist@;
        let mut i: usize = 0;
        while i < associations.len()
            invariant
                i <= associations@.len(),
                plist@ == head + plist_entries(associations@.take(i as int)),
            decreases associations.len() - i,
        {
            assert(associations@.take(i as int + 1).drop_last() == associations@.take(i as int));
            plist.append("        <dict>\n");
            plist.append("            <key>CFBundleTypeName</key>\n            <string>");
            plist.append(associations[i].description.as_str());
            plist.append("</string>\n");
            plist.append("            <key>CFBundleTypeRole</key>\n            <string>Editor</string>\n");
            plist.append("            <key>CFBundleTypeExtensions</key>\n            <array>\n");
            plist.append("                <string>");
            plist.append(associations[i].extension.as_str());
            plist.append("</string>\n");
            plist.append("            </array>\n");
            plist.append("        </dict>\n");
            i += 1;
        }
        assert(associations@.take(associations@.len() as int) == associations@);
        plist.append("    </array>\n</dict>\n</plist>\n");
        plist
    }
}

} // verus!
