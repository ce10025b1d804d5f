//! Where the user is: the open project and show, remembered between launches.
//!
//! The pointer is a convenience, and it must never dangle: a project that is
//! renamed takes the pointer with it, a project that is deleted clears it,
//! and a show that is deleted leaves the user in its project with no show.
//! Each of these is a step from the old place to the new one.

use vstd::prelude::*;
use crate::audio::opt_string_view;

verus! {

/// The project directory and show id the user last had open.
pub struct Place {
    pub project: Option<String>,
    pub show: Option<String>,
}

impl Place {
    /// The open project's directory, by its characters.
    pub open spec fn project_view(&self) -> Option<Seq<char>> {
        opt_string_view(self.project)
    }

    /// The open show's id, by its characters.
    pub open spec fn show_view(&self) -> Option<Seq<char>> {
        opt_string_view(self.show)
    }

    /// No project open: the state after closing one.
    pub fn nowhere() -> (r: Place)
        ensures
            r.project is None,
            r.show is None,
    {
        Place { project: None, show: None }
    }

    /// A project open and no show: the state after creating or opening one.
    pub fn in_project(dir: String) -> (r: Place)
        ensures
            r.project_view() == Some(dir@),
            r.show is None,
    {
        Place { project: Some(dir), show: None }
    }

    /// A show open in its project: the state after saving or loading it.
    pub fn at_show(dir: String, id: String) -> (r: Place)
        ensures
            r.project_view() == Some(dir@),
            r.show_view() == Some(id@),
    {
        Place { project: Some(dir), show: Some(id) }
    }

    /// True when the project in `dir` is the open one.
    pub fn is_open_project(&self, dir: &str) -> (r: bool)
        ensures
            r == (self.project_view() == Some(dir@)),
    {
        match &self.project {
            Some(p) => {
                let d = dir.to_owned();
                *p == d
            },
            None => false,
        }
    }

    /// True when the show `id` is the open one.
    pub fn is_open_show(&self, id: &str) -> (r: bool)
        ensures
            r == (self.show_view() == Some(id@)),
    {
        match &self.show {
            Some(s) => {
                let i = id.to_owned();
                *s == i
            },
            None => false,
        }
    }

    /// The place after the project in `dir` moved to `new_dir`: the pointer
    /// follows an open project to its new directory and keeps its show;
    /// renaming any other project changes nothing.
    pub fn after_project_renamed(self, dir: &str, new_dir: String) -> (r: Place)
        ensures
            self.project_view() == Some(dir@) ==> r.project_view() == Some(new_dir@)
                && r.show_view() == self.show_view(),
            self.project_view() != Some(dir@) ==> r == self,
    {
        if self.is_open_project(dir) {
            Place { project: Some(new_dir), show: self.show }
        } else {
            self
        }
    }

    /// The place after the project in `dir` was deleted: nothing is open if
    /// it was the open one; deleting any other project changes nothing.
    pub fn after_project_deleted(self, dir: &str) -> (r: Place)
        ensures
            self.project_view() == Some(dir@) ==> r.project is None && r.show is None,
            self.project_view() != Some(dir@) ==> r == self,
    {
        if self.is_open_project(dir) {
            Place::nowhere()
        } else {
            self
        }
    }

    /// The place after the show `id` in the project `dir` was deleted: the
    /// user stays in that project with no show if it was the open show;
    /// deleting any other show changes nothing.
    pub fn after_show_deleted(self, dir: String, id: &str) -> (r: Place)
        ensures
            self.show_view() == Some(id@) ==> r.project_view() == Some(dir@) && r.show is None,
            self.show_view() != Some(id@) ==> r == self,
    {
        if self.is_open_show(id) {
            Place::in_project(dir)
        } else {
            self
        }
    }
}

} // verus!
