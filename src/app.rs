use vstd::prelude::*;

verus! {

/// One installed application, as discovered by a scan.
#[derive(Clone, Debug, PartialEq, Eq)]
pub struct App {
    /// Display name.
    pub name: String,
    /// Absolute path of the launchable executable, when it could be derived.
    pub executable_path: Option<String>,
    /// Absolute path of a display-ready icon file, when one was resolved.
    pub icon_path: Option<String>,
}

impl App {
    /// A record with the given name and neither executable nor icon.
    pub fn new(name: String) -> (r: App)
        ensures
            r.name == name,
            r.executable_path is None,
            r.icon_path is None,
    {
        App { name, executable_path: None, icon_path: None }
    }

    /// The same record with its executable path replaced.
    pub fn with_exec(self, exec: Option<String>) -> (r: App)
        ensures
            r.name == self.name,
            r.executable_path == exec,
            r.icon_path == self.icon_path,
    {
        App { executable_path: exec, ..self }
    }

    /// The same record with its icon path replaced.
    pub fn with_icon_path(self, icon_path: Option<String>) -> (r: App)
        ensures
            r.name == self.name,
            r.executable_path == self.executable_path,
            r.icon_path == icon_path,
    {
        App { icon_path, ..self }
    }
}

} // verus!
