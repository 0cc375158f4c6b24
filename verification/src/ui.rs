//! The editor-facing state that is plain logic: which song is open and what
//! the window title says. Rendering, dialogs and the hot-reload channel live
//! outside the library.

use vstd::prelude::*;
use vstd::string::StringExecFns;
use crate::Bgm;

verus! {

/// One open song: its display file name and its decoded form.
pub struct Song {
    pub file_name: String,
    pub bgm: Bgm,
}

impl Song {
    /// The name shown for this song.
    pub fn file_name(&self) -> (r: &str)
        ensures
            r@ == self.file_name@,
    {
        self.file_name.as_str()
    }
}

/// The editor's document state.
pub struct Ui {
    pub open_song: Option<Song>,
}

impl Ui {
    /// A fresh editor with no song open.
    pub fn new() -> (ui: Ui)
        ensures
            ui.open_song is None,
    {
        Ui { open_song: None }
    }

    /// The window title: the application name alone, or the open song's
    /// file name joined to it.
    pub fn window_title(&self) -> (title: String)
        ensures
            self.open_song is None ==> title@ == "Mamar"@,
            self.open_song matches Some(song) ==> title@ == song.file_name@ + " - Mamar"@,
    {
        match &self.open_song {
            None => "Mamar".to_owned(),
            Some(song) => {
                let t = song.file_name.clone();
                t.concat(" - Mamar")
            },
        }
    }
}

} // verus!
