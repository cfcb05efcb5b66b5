use vstd::prelude::*;

verus! {

/// `segment` appended to the path `base`, with one separator between them;
/// an empty base leaves the segment alone, and a base that already ends in
/// a separator gets no second one.
pub open spec fn join(base: Seq<char>, segment: Seq<char>) -> Seq<char> {
    if base.len() == 0 {
        segment
    } else if base.last() == '/' {
        base + segment
    } else {
        base + seq!['/'] + segment
    }
}

/// The marker file of project `name` under `root`: `root/name.cst`.
pub open spec fn project_file_path(root: Seq<char>, name: Seq<char>) -> Seq<char> {
    join(root, name) + seq!['.', 'c', 's', 't']
}

/// The export directory of project `name` under `root`: `root/name/Export/3d`.
pub open spec fn export_dir_path(root: Seq<char>, name: Seq<char>) -> Seq<char> {
    join(join(join(root, name), seq!['E', 'x', 'p', 'o', 'r', 't']), seq!['3', 'd'])
}

/// Appends `segment` to the path `base`.
pub fn join_path(base: &str, segment: &str) -> (r: String)
    ensures
        r@ == join(base@, segment@),
{
    let mut s = String::from_str(base);
    let n = base.unicode_len();
    if n > 0 && base.get_char(n - 1) != '/' {
        proof {
            reveal_strlit("/");
        }
        s.append("/");
    }
    s.append(segment);
    s
}

/// Where a mock project's files go on disk.
pub struct ProjectLayout {
    /// The project's marker file, created empty.
    pub project_file: String,
    /// The export directory, created with all missing parents.
    pub export_dir: String,
}

/// The layout of the mock project `project_name` under `root`: the marker
/// file `root/project_name.cst` and the directory `root/project_name/Export/3d`.
pub fn project_layout(root: &str, project_name: &str) -> (r: ProjectLayout)
    ensures
        r.project_file@ == project_file_path(root@, project_name@),
        r.export_dir@ == export_dir_path(root@, project_name@),
{
    let project_dir = join_path(root, project_name);
    let mut project_file = project_dir.clone();
    proof {
        reveal_strlit(".cst");
        reveal_strlit("Export");
        reveal_strlit("3d");
    }
    project_file.append(".cst");
    let export = join_path(project_dir.as_str(), "Export");
    let export_dir = join_path(export.as_str(), "3d");
    ProjectLayout { project_file, export_dir }
}

} // verus!
