use voice_dictate::startup::{cmd_script, desktop_entry, vbs_script};

#[test]
fn autostart_files() {
    assert_eq!(
        desktop_entry("/usr/bin/vd"),
        "[Desktop Entry]\nType=Application\nName=Voice Dictate\nExec=/usr/bin/vd\nTerminal=false\nX-GNOME-Autostart-enabled=true\n"
    );
    assert_eq!(vbs_script("C:\\vd.exe"), "CreateObject(\"WScript.Shell\").Run \"\"\"C:\\vd.exe\"\"\", 0, False\r\n");
    assert_eq!(cmd_script("C:\\s.vbs"), "@echo off\r\nwscript.exe //B \"C:\\s.vbs\"\r\n");
}
