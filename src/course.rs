//! Course bundles and course maps, as read from their index documents.
use vstd::prelude::*;
use vstd::string::*;

use crate::paths::{into_relative_path, join_spec, path_components_of, resolve_spec};

verus! {

/// Types of dependency relations between the items of a course map.
#[derive(Clone, Copy, Debug, PartialEq, Eq, Structural, PartialOrd, Ord, Hash)]
pub enum CourseMapRelationType {
    /// To be completed before the item that depends on it.
    Prerequisite,
    /// To be completed before or together with the item that depends on it.
    Corequisite,
    /// Shapes the layout only, without being drawn.
    Layout,
}

/// A relation from a source item to the item that holds it.
#[derive(Debug)]
pub struct CourseMapRelation {
    pub uuid: u128,
    pub relation_type: CourseMapRelationType,
    pub optional: bool,
}

/// A course or course map that a course map links to.
#[derive(Debug)]
pub struct CourseMapItem {
    pub uuid: u128,
    pub label: String,
    /// An RGB hexadecimal color or a CSS color keyword.
    pub color: String,
    pub relations: Vec<CourseMapRelation>,
}

/// A dependency graph over courses and course maps.
#[derive(Debug)]
pub struct CourseMap {
    pub uuid: u128,
    pub title: String,
    pub description: Option<String>,
    pub optimize: bool,
    pub courses: Vec<CourseMapItem>,
}

/// A weighted group of completable sections within a chapter.
#[derive(Debug)]
pub struct SectionGroup {
    /// The relative weight of the group, in thousandths (`WEIGHT_UNIT` is a
    /// weight of one); a negative weight counts as zero.
    pub weight: i32,
    pub sections: Vec<String>,
}

/// A completable chapter within a textbook.
#[derive(Debug)]
pub struct Chapter {
    /// The section whose completion completes the whole chapter.
    pub root: Option<String>,
    pub groups: Vec<SectionGroup>,
}

/// A textbook within a course.
#[derive(Debug)]
pub struct Textbook {
    pub label: String,
    /// The textbook's document: relative to the bundle as read, absolute once
    /// the course is stamped with its root.
    pub file: String,
    pub chapters: Vec<Chapter>,
}

/// A course bundle's index.
#[derive(Debug)]
pub struct Course {
    /// The bundle's identifier; the index document does not set it.
    pub uuid: u128,
    pub title: String,
    pub description: Option<String>,
    pub books: Vec<Textbook>,
}

/// The path of a textbook's document inside the bundle at `root`.
pub open spec fn resolved_file(root: Seq<char>, file: Seq<char>) -> Seq<char> {
    join_spec(root, resolve_spec(path_components_of(file)))
}

/// The default accent color of a course map item.
pub fn default_color() -> (r: String)
    ensures
        r@ == "black"@,
{
    String::from_str("black")
}

/// Whether a course map is laid out for clarity unless it says otherwise.
pub fn default_optimize() -> (r: bool)
    ensures
        r,
{
    true
}

/// A section-group weight of one, in thousandths.
pub const WEIGHT_UNIT: i32 = 1000;

/// The weight of a section group that gives none: one.
pub fn default_weight() -> (r: i32)
    ensures
        r == WEIGHT_UNIT,
{
    WEIGHT_UNIT
}

impl Course {
    /// Stamps the course with its identifier and resolves each textbook's file
    /// below the bundle directory `root`.
    pub fn update_root(&mut self, root: &str, id: u128)
        ensures
            final(self).uuid == id,
            final(self).title == old(self).title,
            final(self).description == old(self).description,
            final(self).books@.len() == old(self).books@.len(),
            forall|i: int| 0 <= i < old(self).books@.len() ==> {
                &&& (#[trigger] final(self).books@[i]).file@ == resolved_file(root@, old(self).books@[i].file@)
                &&& final(self).books@[i].label == old(self).books@[i].label
                &&& final(self).books@[i].chapters == old(self).books@[i].chapters
            },
    {
        self.uuid = id;
        let mut i: usize = 0;
        while i < self.books.len()
            invariant
                i <= self.books@.len(),
                self.uuid == id,
                self.title == old(self).title,
                self.description == old(self).description,
                self.books@.len() == old(self).books@.len(),
                forall|k: int| 0 <= k < i ==> {
                    &&& (#[trigger] self.books@[k]).file@ == resolved_file(root@, old(self).books@[k].file@)
                    &&& self.books@[k].label == old(self).books@[k].label
                    &&& self.books@[k].chapters == old(self).books@[k].chapters
                },
                forall|k: int| i <= k < self.books@.len() ==> #[trigger] self.books@[k] == old(self).books@[k],
            decreases self.books@.len() - i,
        {
            let file = into_relative_path(root, self.books[i].file.as_str());
            let mut book = self.books.remove(i);
            book.file = file;
            self.books.insert(i, book);
            i = i + 1;
        }
    }
}

impl Course {
    /// The files of the course's textbooks, in order.
    pub fn get_resources(&self) -> (r: Vec<String>)
        ensures
            r@.len() == self.books@.len(),
            forall|i: int| 0 <= i < r@.len() ==> #[trigger] r@[i]@ == self.books@[i].file@,
    {
        let mut files: Vec<String> = Vec::new();
        let mut i: usize = 0;
        while i < self.books.len()
            invariant
                i <= self.books@.len(),
                files@.len() == i,
                forall|k: int| 0 <= k < i ==> #[trigger] files@[k]@ == self.books@[k].file@,
            decreases self.books@.len() - i,
        {
            files.push(self.books[i].file.clone());
            i = i + 1;
        }
        files
    }

    /// Hides the textbooks' files, as for a listing that does not open them.
    pub fn remove_resources(&mut self)
        ensures
            final(self).uuid == old(self).uuid,
            final(self).title == old(self).title,
            final(self).description == old(self).description,
            final(self).books@.len() == old(self).books@.len(),
            forall|i: int| 0 <= i < old(self).books@.len() ==> {
                &&& (#[trigger] final(self).books@[i]).file@ == "hidden"@
                &&& final(self).books@[i].label == old(self).books@[i].label
                &&& final(self).books@[i].chapters == old(self).books@[i].chapters
            },
    {
        let mut i: usize = 0;
        while i < self.books.len()
            invariant
                i <= self.books@.len(),
                self.uuid == old(self).uuid,
                self.title == old(self).title,
                self.description == old(self).description,
                self.books@.len() == old(self).books@.len(),
                forall|k: int| 0 <= k < i ==> {
                    &&& (#[trigger] self.books@[k]).file@ == "hidden"@
                    &&& self.books@[k].label == old(self).books@[k].label
                    &&& self.books@[k].chapters == old(self).books@[k].chapters
                },
                forall|k: int| i <= k < self.books@.len() ==> #[trigger] self.books@[k] == old(self).books@[k],
            decreases self.books@.len() - i,
        {
            let mut book = self.books.remove(i);
            book.file = String::from_str("hidden");
            self.books.insert(i, book);
            i = i + 1;
        }
    }
}

} // verus!
