//! Projects served by the document server, and where their logs live.
use vstd::prelude::*;

use crate::file::FILE_NAME;

verus! {

/// Directory that holds the cache copies of project logs.
pub const SAVE_PATH: &'static str = "./DocCache";

/// A project: its identifier, display name and source directory.
pub struct ProjectInfo {
    pub id: String,
    pub name: String,
    pub path: String,
}

/// Mathematical value of a `ProjectInfo`.
pub struct ProjectModel {
    pub id: Seq<char>,
    pub name: Seq<char>,
    pub path: Seq<char>,
}

impl View for ProjectInfo {
    type V = ProjectModel;

    open spec fn view(&self) -> ProjectModel {
        ProjectModel { id: self.id@, name: self.name@, path: self.path@ }
    }
}

impl ProjectInfo {
    /// A copy of this project.
    pub fn duplicate(&self) -> (r: ProjectInfo)
        ensures
            r@ == self@,
    {
        ProjectInfo { id: self.id.clone(), name: self.name.clone(), path: self.path.clone() }
    }
}

/// `name` inside directory `dir`: no separator is added after an empty
/// directory or one that already ends in `/`.
pub open spec fn joined_path(dir: Seq<char>, name: Seq<char>) -> Seq<char> {
    if dir.len() == 0 {
        name
    } else if dir.last() == '/' {
        dir + name
    } else {
        dir + seq!['/'] + name
    }
}

fn join_path(dir: &str, name: &str) -> (r: String)
    ensures
        r@ == joined_path(dir@, name@),
{
    let n = dir.unicode_len();
    if n == 0 {
        return String::from_str(name);
    }
    let mut out = String::from_str(dir);
    if dir.get_char(n - 1) != '/' {
        out.append("/");
        proof {
            reveal_strlit("/");
        }
    }
    out.append(name);
    out
}

/// Path of the log file in project directory `dir_path`.
pub fn get_doc_file_path(dir_path: &str) -> (r: String)
    ensures
        r@ == joined_path(dir_path@, FILE_NAME@),
{
    join_path(dir_path, FILE_NAME)
}

/// Path of the cache copy of the log of project `project_id`.
pub fn get_cache_file_path(project_id: &str) -> (r: String)
    ensures
        r@ == joined_path(SAVE_PATH@, project_id@),
{
    join_path(SAVE_PATH, project_id)
}

/// Whether some project of `list` has identifier `id`.
pub open spec fn has_project(list: Seq<ProjectInfo>, id: Seq<char>) -> bool {
    exists|k: int| 0 <= k < list.len() && #[trigger] list[k].id@ == id
}

/// Project `k` is the first of `list` with identifier `id`.
pub open spec fn is_first_match(list: Seq<ProjectInfo>, id: Seq<char>, k: int) -> bool {
    0 <= k < list.len() && list[k].id@ == id && forall|j: int|
        0 <= j < k ==> (#[trigger] list[j]).id@ != id
}

/// Finds the first project of `project_list` whose identifier is
/// `project_id`; reports the identifier when there is none.
pub fn get_project_item(project_id: String, project_list: &Vec<ProjectInfo>) -> (r: Result<
    ProjectInfo,
    String,
>)
    ensures
        match r {
            Ok(p) => exists|k: int|
                #[trigger] is_first_match(project_list@, project_id@, k) && project_list@[k]@ == p@,
            Err(e) => !has_project(project_list@, project_id@) && e@ == "no found target project:"@
                + project_id@,
        },
{
    let ghost all = project_list@;
    let mut i: usize = 0;
    while i < project_list.len()
        invariant
            all == project_list@,
            i <= project_list.len(),
            forall|j: int| 0 <= j < i ==> (#[trigger] all[j]).id@ != project_id@,
        decreases project_list.len() - i,
    {
        if project_list[i].id == project_id {
            let p = project_list[i].duplicate();
            assert(is_first_match(all, project_id@, i as int));
            return Ok(p);
        }
        i = i + 1;
    }
    let mut msg = String::from_str("no found target project:");
    msg.append(project_id.as_str());
    Err(msg)
}

} // verus!
