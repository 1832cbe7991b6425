use linux_bundle::desktop::desktop_file_path;
use linux_bundle::desktop::generate_desktop_file;
use linux_bundle::desktop::mime_type_list;
use linux_bundle::desktop::Settings;

#[test]
fn test_generate_desktop_file() {
    let settings = Settings::default();
    let text = generate_desktop_file(&settings);
    assert_eq!(
        text,
        "[Desktop Entry]\nEncoding=UTF-8\nComment=No description\n\
        Exec=app\nIcon=app\nName=app\nTerminal=false\nType=Application\n\
        MimeType=application/x-app;\n"
    );
    assert_eq!(
        desktop_file_path("tmp", &settings.binary_name),
        "tmp/usr/share/applications/app.desktop"
    );
}

#[test]
fn test_desktop_file_all_fields() {
    let settings = Settings {
        binary_name: "tool".to_string(),
        bundle_name: "The Tool".to_string(),
        short_description: "Does things".to_string(),
        categories: Some("Utility;".to_string()),
        mime_types: vec!["text/plain".to_string(), "text/x-log".to_string()],
        exec_args: Some("--gui".to_string()),
        use_terminal: Some(true),
    };
    let text = generate_desktop_file(&settings);
    assert_eq!(
        text,
        "[Desktop Entry]\nEncoding=UTF-8\nCategories=Utility;\nComment=Does things\n\
        Exec=tool --gui\nIcon=tool\nName=The Tool\nTerminal=true\nType=Application\n\
        MimeType=text/plain;text/x-log;\n"
    );
}

#[test]
fn test_desktop_file_empty_description_omits_comment() {
    let mut settings = Settings::default();
    settings.short_description = String::new();
    let text = generate_desktop_file(&settings);
    assert!(!text.contains("Comment="));
}

#[test]
fn test_mime_type_list() {
    assert_eq!(mime_type_list(&Vec::new()), "");
    assert_eq!(
        mime_type_list(&vec!["a/b".to_string(), "c/d".to_string()]),
        "a/b;c/d;"
    );
}
