use vstd::prelude::*;
use vstd::std_specs::cmp::PartialEqSpecImpl;

verus! {

/// One child of a directory, with its name and its path.
#[derive(Debug)]
pub enum DirectoryChild {
    File(String, String),
    Directory(String, String),
}

/// The mathematical value of a `DirectoryChild`.
pub enum DirectoryChildView {
    File(Seq<char>, Seq<char>),
    Directory(Seq<char>, Seq<char>),
}

impl View for DirectoryChild {
    type V = DirectoryChildView;

    open spec fn view(&self) -> DirectoryChildView {
        match self {
            DirectoryChild::File(name, path) => DirectoryChildView::File(name@, path@),
            DirectoryChild::Directory(name, path) => DirectoryChildView::Directory(name@, path@),
        }
    }
}

impl Clone for DirectoryChild {
    fn clone(&self) -> (copy: Self)
        ensures
            copy == *self,
    {
        match self {
            DirectoryChild::File(name, path) => DirectoryChild::File(name.clone(), path.clone()),
            DirectoryChild::Directory(name, path) => DirectoryChild::Directory(
                name.clone(),
                path.clone(),
            ),
        }
    }
}

impl PartialEq for DirectoryChild {
    fn eq(&self, other: &Self) -> (same: bool) {
        match (self, other) {
            (DirectoryChild::File(name, path), DirectoryChild::File(other_name, other_path)) => {
                *name == *other_name && *path == *other_path
            },
            (
                DirectoryChild::Directory(name, path),
                DirectoryChild::Directory(other_name, other_path),
            ) => *name == *other_name && *path == *other_path,
            _ => false,
        }
    }
}

impl Eq for DirectoryChild {}

impl PartialEqSpecImpl for DirectoryChild {
    open spec fn obeys_eq_spec() -> bool {
        true
    }

    open spec fn eq_spec(&self, other: &Self) -> bool {
        self@ == other@
    }
}

/// What a listing read of one child of a directory.
#[derive(Debug)]
pub struct ListedChild {
    pub file_name: String,
    pub file_path: String,
    pub is_file: bool,
}

/// The child that a listing shows for what it read: a file where the object is a
/// plain file, a directory in every other case.
pub open spec fn shown_child(file_name: Seq<char>, file_path: Seq<char>, is_file: bool)
    -> DirectoryChildView {
    if is_file {
        DirectoryChildView::File(file_name, file_path)
    } else {
        DirectoryChildView::Directory(file_name, file_path)
    }
}

/// The children of one directory, not of the directories below it, in the order
/// in which they were read. `None` stands for a directory that could not be
/// opened: its listing is empty.
pub fn open_directory(children: Option<Vec<ListedChild>>) -> (dir_children: Vec<DirectoryChild>)
    ensures
        match children {
            None => dir_children.len() == 0,
            Some(read) => {
                &&& dir_children.len() == read.len()
                &&& forall|i: int|
                    0 <= i < read.len() ==> (#[trigger] dir_children[i])@ == shown_child(
                        read[i].file_name@,
                        read[i].file_path@,
                        read[i].is_file,
                    )
            },
        },
{
    let mut dir_children: Vec<DirectoryChild> = Vec::new();
    let read = match children {
        Some(read) => read,
        None => {
            return dir_children;
        },
    };
    let mut i: usize = 0;
    while i < read.len()
        invariant
            i <= read.len(),
            dir_children.len() == i,
            forall|k: int|
                0 <= k < i ==> (#[trigger] dir_children[k])@ == shown_child(
                    read[k].file_name@,
                    read[k].file_path@,
                    read[k].is_file,
                ),
        decreases read.len() - i,
    {
        let child = &read[i];
        if child.is_file {
            dir_children.push(
                DirectoryChild::File(child.file_name.clone(), child.file_path.clone()),
            );
        } else {
            dir_children.push(
                DirectoryChild::Directory(child.file_name.clone(), child.file_path.clone()),
            );
        }
        i += 1;
    }
    dir_children
}

} // verus!
