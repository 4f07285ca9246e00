//! Hidden names and sensitive paths.
use vstd::prelude::*;

verus! {

/// Names of files and directories that hold a user's or a tool's
/// configuration, credentials, caches or history.
pub const CRITICAL_NAMES: [&'static str; 95] = [
    ".bashrc", ".bash_profile", ".bash_logout", ".profile", ".zshrc", ".zprofile",
    ".vimrc", ".gvimrc", ".emacs", ".emacs.d", ".config", ".local", ".cache",
    ".ssh", ".gnupg", ".aws", ".docker", ".kube", ".npm", ".pip", ".conda",
    ".env", ".gitconfig", ".hgrc", ".subversion", ".tmux.conf", ".screenrc",
    ".Xauthority", ".xinitrc", ".xsession", ".xprofile", ".xrc", ".Xresources",
    ".gtkrc", ".xmodmap", ".inputrc", ".netrc", ".lesshst", ".python_history",
    ".mysql_history", ".psql_history", ".sqlite_history", ".rvm", ".rbenv",
    ".cargo", ".rustup", ".gradle", ".m2", ".ivy2", ".sbt", ".coursier",
    ".lein", ".boot", ".clojure", ".cider", ".nrepl-history", ".calibredb",
    ".thunderbird", ".mozilla", ".chromium", ".google-chrome", ".opera",
    ".vlc", ".audacity-data", ".gimp", ".inkscape", ".blender", ".kde",
    ".gnome", ".cinnamon", ".mate", ".xfce4", ".lxde", ".fluxbox",
    ".i3", ".sway", ".bspwm", ".dwm", ".xmonad", ".herbstluftwm",
    ".config/nvim", ".config/vim", ".config/emacs", ".config/fish",
    ".config/zsh", ".config/bash", ".config/git", ".config/ssh",
    ".config/gtk-3.0", ".config/gtk-4.0", ".config/kdeglobals",
    ".config/plasma", ".config/xfce4", ".config/i3", ".config/sway",
];

/// Whether a file or directory name is on the list of sensitive names.
pub open spec fn is_critical_name(name: Seq<char>) -> bool {
    exists|i: int| 0 <= i < CRITICAL_NAMES@.len() && (#[trigger] CRITICAL_NAMES@[i])@ == name
}

/// Whether a name is hidden: it begins with a dot.
pub open spec fn is_hidden_name(name: Seq<char>) -> bool {
    name.len() > 0 && name[0] == '.'
}

/// Whether one step of a path has a name that is on the list.
pub open spec fn is_critical_step(step: Option<String>) -> bool {
    step matches Some(name) && is_critical_name(name@)
}

/// Whether a path is sensitive, given the name of the path itself and of
/// each of its ancestor directories, nearest first. An entry is `None`
/// where that step of the path has no name (a root, `..`) or its name is not
/// valid Unicode.
///
/// A path is sensitive when its own name, or the name of any ancestor, is
/// on the list. A step without a name is passed over, whichever step it is.
pub open spec fn is_critical_path(names: Seq<Option<String>>) -> bool {
    exists|i: int| 0 <= i < names.len() && is_critical_step(#[trigger] names[i])
}

/// Whether two strings hold the same text.
pub fn same_text(a: &str, b: &str) -> (same: bool)
    ensures
        same == (a@ == b@),
{
    let x = a.as_bytes();
    let y = b.as_bytes();
    proof {
        vstd::utf8::encode_utf8_decode_utf8(a@);
        vstd::utf8::encode_utf8_decode_utf8(b@);
    }
    if x.len() != y.len() {
        return false;
    }
    let mut i: usize = 0;
    while i < x.len()
        invariant
            i <= x.len(),
            x.len() == y.len(),
            a@ == b@ ==> x@ == y@,
            forall|j: int| 0 <= j < i ==> x@[j] == y@[j],
        decreases x.len() - i,
    {
        if x[i] != y[i] {
            return false;
        }
        i = i + 1;
    }
    assert(x@ =~= y@);
    true
}

/// Whether a directory entry is hidden, by its file name. An entry whose
/// name is not valid Unicode (`None`) is not hidden.
pub fn is_hidden(name: Option<&str>) -> (hidden: bool)
    ensures
        hidden == (name matches Some(text) && is_hidden_name(text@)),
{
    match name {
        Some(text) => !text.is_empty() && text.get_char(0) == '.',
        None => false,
    }
}

/// Whether a name is on the list of sensitive names.
pub fn is_critical(name: &str) -> (critical: bool)
    ensures
        critical == is_critical_name(name@),
{
    let names = CRITICAL_NAMES;
    let mut i: usize = 0;
    while i < names.len()
        invariant
            i <= names@.len(),
            names == CRITICAL_NAMES,
            forall|j: int| 0 <= j < i ==> (#[trigger] CRITICAL_NAMES@[j])@ != name@,
        decreases names@.len() - i,
    {
        if same_text(names[i], name) {
            return true;
        }
        i = i + 1;
    }
    false
}

/// Whether a path is sensitive; see [`is_critical_path`].
pub fn is_critical_file(names: &Vec<Option<String>>) -> (critical: bool)
    ensures
        critical == is_critical_path(names@),
{
    let mut i: usize = 0;
    while i < names.len()
        invariant
            i <= names.len(),
            forall|j: int| 0 <= j < i ==> !is_critical_step(#[trigger] names@[j]),
        decreases names.len() - i,
    {
        match &names[i] {
            Some(name) => {
                if is_critical(name.as_str()) {
                    return true;
                }
            },
            None => {},
        }
        i = i + 1;
    }
    false
}

} // verus!
