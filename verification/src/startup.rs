//! What starting at login writes: the Linux autostart desktop entry, and on
//! Windows a VBS wrapper (so no console window appears) with a `.cmd` that
//! runs it. Writing, removing and checking the files is the caller's.

use vstd::prelude::*;
use crate::text::push_str;

verus! {

/// The autostart desktop entry that runs `exe`.
pub fn desktop_entry(exe: &str) -> (s: String)
    ensures
        s@ == "[Desktop Entry]\nType=Application\nName=Voice Dictate\nExec="@ + exe@
            + "\nTerminal=false\nX-GNOME-Autostart-enabled=true\n"@,
{
    let mut s = String::new();
    push_str(&mut s, "[Desktop Entry]\nType=Application\nName=Voice Dictate\nExec=");
    push_str(&mut s, exe);
    push_str(&mut s, "\nTerminal=false\nX-GNOME-Autostart-enabled=true\n");
    s
}

/// The VBS wrapper that starts `exe` hidden.
pub fn vbs_script(exe: &str) -> (s: String)
    ensures
        s@ == "CreateObject(\"WScript.Shell\").Run \"\"\""@ + exe@ + "\"\"\", 0, False\r\n"@,
{
    let mut s = String::new();
    push_str(&mut s, "CreateObject(\"WScript.Shell\").Run \"\"\"");
    push_str(&mut s, exe);
    push_str(&mut s, "\"\"\", 0, False\r\n");
    s
}

/// The `.cmd` that hands over to the VBS wrapper at `vbs`.
pub fn cmd_script(vbs: &str) -> (s: String)
    ensures
        s@ == "@echo off\r\nwscript.exe //B \""@ + vbs@ + "\"\r\n"@,
{
    let mut s = String::new();
    push_str(&mut s, "@echo off\r\nwscript.exe //B \"");
    push_str(&mut s, vbs);
    push_str(&mut s, "\"\r\n");
    s
}

} // verus!
