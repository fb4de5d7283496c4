//! What registering the program as a browser writes to the registry, and
//! what unregistering removes. The registry calls are the application's.

use vstd::prelude::*;
use crate::ipc::push_str;

verus! {

/// The program's name in the registry.
pub const APP_NAME: &'static str = "brows";

/// A registry root key.
pub enum RegRoot {
    LocalMachine,
    ClassesRoot,
}

/// One value to write: the key is created when it does not exist.
pub struct RegWrite {
    pub root: RegRoot,
    pub key: String,
    /// The value's name; empty for the key's default value.
    pub name: String,
    pub value: String,
}

/// What a [`RegWrite`] is, as a value.
pub struct RegWriteView {
    pub root: RegRoot,
    pub key: Seq<char>,
    pub name: Seq<char>,
    pub value: Seq<char>,
}

impl View for RegWrite {
    type V = RegWriteView;

    open spec fn view(&self) -> RegWriteView {
        RegWriteView { root: self.root, key: self.key@, name: self.name@, value: self.value@ }
    }
}

/// The values of a sequence of writes.
pub open spec fn write_views(v: Seq<RegWrite>) -> Seq<RegWriteView> {
    v.map_values(|w: RegWrite| w@)
}

/// The command that opens a URL with the program: `"<exe>" "%1"`.
pub open spec fn open_command_spec(exe: Seq<char>) -> Seq<char> {
    "\""@ + exe + "\" \"%1\""@
}

/// The writes that register the program as a browser, in order: its
/// capabilities and URL associations, its open command, the `browsURL` URL
/// class (written for `http` and then for `https`, so the protocol name
/// written last stays), and its entry among the registered applications.
pub open spec fn registration_spec(exe: Seq<char>) -> Seq<RegWriteView> {
    let cmd = open_command_spec(exe);
    let cap = "SOFTWARE\\Clients\\StartMenuInternet\\brows\\Capabilities"@;
    let assoc = "SOFTWARE\\Clients\\StartMenuInternet\\brows\\Capabilities\\URLAssociations"@;
    let open = "SOFTWARE\\Clients\\StartMenuInternet\\brows\\shell\\open\\command"@;
    let class_cmd = "browsURL\\shell\\open\\command"@;
    let class = "browsURL"@;
    seq![
        RegWriteView { root: RegRoot::LocalMachine, key: cap, name: "ApplicationName"@, value: "brows"@ },
        RegWriteView { root: RegRoot::LocalMachine, key: cap, name: "ApplicationDescription"@, value: "Browser picker for Windows"@ },
        RegWriteView { root: RegRoot::LocalMachine, key: assoc, name: "http"@, value: "browsURL"@ },
        RegWriteView { root: RegRoot::LocalMachine, key: assoc, name: "https"@, value: "browsURL"@ },
        RegWriteView { root: RegRoot::LocalMachine, key: open, name: ""@, value: cmd },
        RegWriteView { root: RegRoot::ClassesRoot, key: class_cmd, name: ""@, value: cmd },
        RegWriteView { root: RegRoot::ClassesRoot, key: class, name: ""@, value: "URL:http Protocol"@ },
        RegWriteView { root: RegRoot::ClassesRoot, key: class, name: "URL Protocol"@, value: ""@ },
        RegWriteView { root: RegRoot::ClassesRoot, key: class_cmd, name: ""@, value: cmd },
        RegWriteView { root: RegRoot::ClassesRoot, key: class, name: ""@, value: "URL:https Protocol"@ },
        RegWriteView { root: RegRoot::ClassesRoot, key: class, name: "URL Protocol"@, value: ""@ },
        RegWriteView { root: RegRoot::LocalMachine, key: "SOFTWARE\\RegisteredApplications"@, name: "brows"@, value: cap },
    ]
}

/// A string with the characters of `s`.
fn text(s: &str) -> (r: String)
    ensures
        r@ == s@,
{
    let mut r = String::new();
    push_str(&mut r, s);
    assert(r@ =~= s@);
    r
}

/// A write of a literal value.
fn write(root: RegRoot, key: &str, name: &str, value: &str) -> (w: RegWrite)
    ensures
        w@ == (RegWriteView { root: root, key: key@, name: name@, value: value@ }),
{
    RegWrite { root, key: text(key), name: text(name), value: text(value) }
}

/// The command that opens a URL with the program at `exe`.
pub fn open_command(exe: &str) -> (r: String)
    ensures
        r@ == open_command_spec(exe@),
{
    let mut r = text("\"");
    push_str(&mut r, exe);
    push_str(&mut r, "\" \"%1\"");
    assert(r@ =~= open_command_spec(exe@));
    r
}

/// The writes that register the program at `exe` as a browser.
pub fn registration_writes(exe: &str) -> (r: Vec<RegWrite>)
    ensures
        write_views(r@) == registration_spec(exe@),
{
    let cmd = open_command(exe);
    let cap = "SOFTWARE\\Clients\\StartMenuInternet\\brows\\Capabilities";
    let assoc = "SOFTWARE\\Clients\\StartMenuInternet\\brows\\Capabilities\\URLAssociations";
    let open = "SOFTWARE\\Clients\\StartMenuInternet\\brows\\shell\\open\\command";
    let class_cmd = "browsURL\\shell\\open\\command";
    let class = "browsURL";
    let mut r: Vec<RegWrite> = Vec::new();
    r.push(write(RegRoot::LocalMachine, cap, "ApplicationName", "brows"));
    r.push(write(RegRoot::LocalMachine, cap, "ApplicationDescription", "Browser picker for Windows"));
    r.push(write(RegRoot::LocalMachine, assoc, "http", "browsURL"));
    r.push(write(RegRoot::LocalMachine, assoc, "https", "browsURL"));
    r.push(RegWrite { root: RegRoot::LocalMachine, key: text(open), name: text(""), value: cmd.clone() });
    r.push(RegWrite { root: RegRoot::ClassesRoot, key: text(class_cmd), name: text(""), value: cmd.clone() });
    r.push(write(RegRoot::ClassesRoot, class, "", "URL:http Protocol"));
    r.push(write(RegRoot::ClassesRoot, class, "URL Protocol", ""));
    r.push(RegWrite { root: RegRoot::ClassesRoot, key: text(class_cmd), name: text(""), value: cmd });
    r.push(write(RegRoot::ClassesRoot, class, "", "URL:https Protocol"));
    r.push(write(RegRoot::ClassesRoot, class, "URL Protocol", ""));
    r.push(write(RegRoot::LocalMachine, "SOFTWARE\\RegisteredApplications", "brows", cap));
    assert(write_views(r@) =~= registration_spec(exe@));
    r
}

/// The client key that registration creates (removed by unregistering).
pub fn client_key() -> (r: String)
    ensures
        r@ == "SOFTWARE\\Clients\\StartMenuInternet\\brows"@,
{
    text("SOFTWARE\\Clients\\StartMenuInternet\\brows")
}

/// The URL class key that registration creates (removed by unregistering).
pub fn url_class_key() -> (r: String)
    ensures
        r@ == "browsURL"@,
{
    text("browsURL")
}

/// Registration associates both URL schemes, `http` and `https`, with the
/// program's URL class `browsURL` among its capabilities; it writes the
/// command that opens a link with the program, `"<exe>" "%1"`, as the
/// client's open command and as the URL class's open command; and it lists
/// the capabilities among the registered applications, under the name
/// `brows`, with the URL class marked as a URL protocol.
pub proof fn law_registration_covers_http_and_https(exe: Seq<char>)
    ensures
        exists|i: int| 0 <= i < registration_spec(exe).len() && #[trigger] registration_spec(exe)[i] == (RegWriteView {
            root: RegRoot::LocalMachine,
            key: "SOFTWARE\\Clients\\StartMenuInternet\\brows\\Capabilities\\URLAssociations"@,
            name: "http"@,
            value: "browsURL"@,
        }),
        exists|i: int| 0 <= i < registration_spec(exe).len() && #[trigger] registration_spec(exe)[i] == (RegWriteView {
            root: RegRoot::LocalMachine,
            key: "SOFTWARE\\Clients\\StartMenuInternet\\brows\\Capabilities\\URLAssociations"@,
            name: "https"@,
            value: "browsURL"@,
        }),
        exists|i: int| 0 <= i < registration_spec(exe).len() && #[trigger] registration_spec(exe)[i] == (RegWriteView {
            root: RegRoot::LocalMachine,
            key: "SOFTWARE\\Clients\\StartMenuInternet\\brows\\shell\\open\\command"@,
            name: ""@,
            value: "\""@ + exe + "\" \"%1\""@,
        }),
        exists|i: int| 0 <= i < registration_spec(exe).len() && #[trigger] registration_spec(exe)[i] == (RegWriteView {
            root: RegRoot::ClassesRoot,
            key: "browsURL\\shell\\open\\command"@,
            name: ""@,
            value: "\""@ + exe + "\" \"%1\""@,
        }),
        exists|i: int| 0 <= i < registration_spec(exe).len() && #[trigger] registration_spec(exe)[i] == (RegWriteView {
            root: RegRoot::LocalMachine,
            key: "SOFTWARE\\RegisteredApplications"@,
            name: "brows"@,
            value: "SOFTWARE\\Clients\\StartMenuInternet\\brows\\Capabilities"@,
        }),
        exists|i: int| 0 <= i < registration_spec(exe).len() && #[trigger] registration_spec(exe)[i] == (RegWriteView {
            root: RegRoot::LocalMachine,
            key: "SOFTWARE\\Clients\\StartMenuInternet\\brows\\Capabilities"@,
            name: "ApplicationName"@,
            value: "brows"@,
        }),
        exists|i: int| 0 <= i < registration_spec(exe).len() && #[trigger] registration_spec(exe)[i] == (RegWriteView {
            root: RegRoot::ClassesRoot,
            key: "browsURL"@,
            name: "URL Protocol"@,
            value: ""@,
        }),
{
    let w = registration_spec(exe);
    assert(w[0] == w[0]);
    assert(w[7] == w[7]);
    assert(w[2] == w[2]);
    assert(w[3] == w[3]);
    assert(w[4] == w[4]);
    assert(w[5] == w[5]);
    assert(w[11] == w[11]);
}

} // verus!
