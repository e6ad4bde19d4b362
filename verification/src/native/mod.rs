pub mod scintilla;
