//! Desktop-entry templating: renders the application's `.desktop` file text
//! from plain settings values, and computes where it belongs under the data
//! root. Writing the file is the caller's business.

use vstd::prelude::*;
use vstd::string::StringExecFns;

verus! {

/// The plain configuration values the bundling helpers consume.
pub struct Settings {
    /// Name of the bundled executable; also names icons and desktop entries.
    pub binary_name: String,
    /// Human-readable bundle name.
    pub bundle_name: String,
    /// Short description; an empty string omits the `Comment` line.
    pub short_description: String,
    /// Desktop-menu categories string, if any.
    pub categories: Option<String>,
    /// MIME types the application handles.
    pub mime_types: Vec<String>,
    /// Extra arguments for the `Exec` line, if any.
    pub exec_args: Option<String>,
    /// Whether the application runs in a terminal (absent means no).
    pub use_terminal: Option<bool>,
}

impl core::default::Default for Settings {
    /// Settings of a bare, unconfigured application.
    fn default() -> (s: Settings)
        ensures
            s.binary_name@ == "app"@,
            s.bundle_name@ == "app"@,
            s.short_description@ == "No description"@,
            s.categories is None,
            s.mime_types@.len() == 1 && s.mime_types@[0]@ == "application/x-app"@,
            s.exec_args is None,
            s.use_terminal is None,
    {
        let mut mimes: Vec<String> = Vec::new();
        mimes.push(String::from_str("application/x-app"));
        Settings {
            binary_name: String::from_str("app"),
            bundle_name: String::from_str("app"),
            short_description: String::from_str("No description"),
            categories: None,
            mime_types: mimes,
            exec_args: None,
            use_terminal: None,
        }
    }
}

/// The `MimeType` value for a list of MIME types: each one followed by `;`.
pub open spec fn mime_list_of(mimes: Seq<Seq<char>>) -> Seq<char>
    decreases mimes.len(),
{
    if mimes.len() == 0 {
        Seq::empty()
    } else {
        mime_list_of(mimes.drop_last()) + mimes.last() + ";"@
    }
}

/// Renders the `MimeType` value for the given MIME types.
pub fn mime_type_list(mimes: &Vec<String>) -> (r: String)
    ensures
        r@ == mime_list_of(mimes@.map_values(|m: String| m@)),
{
    let mut r = String::new();
    let mut i: usize = 0;
    while i < mimes.len()
        invariant
            i <= mimes@.len(),
            r@ == mime_list_of(mimes@.take(i as int).map_values(|m: String| m@)),
        decreases mimes@.len() - i,
    {
        r.append(mimes[i].as_str());
        r.append(";");
        proof {
            let mv = mimes@.take(i + 1 as int).map_values(|m: String| m@);
            assert(mv.drop_last() =~= mimes@.take(i as int).map_values(|m: String| m@));
            assert(mv.last() == mimes@[i as int]@);
            assert(mime_list_of(mv) =~= mime_list_of(mv.drop_last()) + mv.last() + ";"@);
        }
        i = i + 1;
    }
    proof {
        assert(mimes@.take(mimes@.len() as int) =~= mimes@);
    }
    r
}

/// Whether the desktop entry declares a terminal application: the configured
/// value, defaulting to `false`.
pub open spec fn terminal_of(s: Settings) -> bool {
    match s.use_terminal {
        Some(b) => b,
        None => false,
    }
}

/// The full text of the application's desktop entry: the `[Desktop Entry]`
/// header, then `Categories` (if configured), `Comment` (if the description is
/// nonempty), `Exec` (binary name plus configured arguments), `Icon`, `Name`,
/// `Terminal`, `Type=Application` and the `MimeType` list.
pub open spec fn desktop_entry_of(s: Settings) -> Seq<char> {
    "[Desktop Entry]\nEncoding=UTF-8\n"@ + (match s.categories {
        Some(c) => "Categories="@ + c@ + "\n"@,
        None => Seq::<char>::empty(),
    }) + (if s.short_description@.len() > 0 {
        "Comment="@ + s.short_description@ + "\n"@
    } else {
        Seq::<char>::empty()
    }) + "Exec="@ + s.binary_name@ + (match s.exec_args {
        Some(a) => " "@ + a@,
        None => Seq::<char>::empty(),
    }) + "\nIcon="@ + s.binary_name@ + "\nName="@ + s.bundle_name@ + "\nTerminal="@ + (
    if terminal_of(s) {
        "true"@
    } else {
        "false"@
    }) + "\nType=Application\nMimeType="@ + mime_list_of(
        s.mime_types@.map_values(|m: String| m@),
    ) + "\n"@
}

/// Renders the application's desktop entry.
pub fn generate_desktop_file(s: &Settings) -> (r: String)
    ensures
        r@ == desktop_entry_of(*s),
{
    let mut r = String::from_str("[Desktop Entry]\nEncoding=UTF-8\n");
    match &s.categories {
        Some(c) => {
            r.append("Categories=");
            r.append(c.as_str());
            r.append("\n");
        },
        None => {},
    }
    if !s.short_description.as_str().is_empty() {
        r.append("Comment=");
        r.append(s.short_description.as_str());
        r.append("\n");
    }
    r.append("Exec=");
    r.append(s.binary_name.as_str());
    match &s.exec_args {
        Some(a) => {
            r.append(" ");
            r.append(a.as_str());
        },
        None => {},
    }
    r.append("\nIcon=");
    r.append(s.binary_name.as_str());
    r.append("\nName=");
    r.append(s.bundle_name.as_str());
    r.append("\nTerminal=");
    let term = match s.use_terminal {
        Some(b) => b,
        None => false,
    };
    if term {
        r.append("true");
    } else {
        r.append("false");
    }
    r.append("\nType=Application\nMimeType=");
    let mimes = mime_type_list(&s.mime_types);
    r.append(mimes.as_str());
    r.append("\n");
    proof {
        assert(r@ =~= desktop_entry_of(*s));
    }
    r
}

/// The destination of the desktop entry under the data root:
/// `{data_dir}/usr/share/applications/{bin}.desktop`.
pub open spec fn desktop_file_path_of(data_dir: Seq<char>, bin: Seq<char>) -> Seq<char> {
    data_dir + "/usr/share/applications/"@ + bin + ".desktop"@
}

/// Builds the destination path of the desktop entry.
pub fn desktop_file_path(data_dir: &str, bin: &str) -> (r: String)
    ensures
        r@ == desktop_file_path_of(data_dir@, bin@),
{
    let mut r = String::from_str(data_dir);
    r.append("/usr/share/applications/");
    r.append(bin);
    r.append(".desktop");
    proof {
        assert(r@ =~= desktop_file_path_of(data_dir@, bin@));
    }
    r
}

} // verus!
