use vstd::prelude::*;

use crate::TagError;
use crate::util::str_views;

verus! {

/// Name of the marker directory that anchors registry and sidecar files.
pub fn marker_dir_name() -> (r: String)
    ensures
        r@ == ".crtag"@,
{
    ".crtag".to_owned()
}

/// Name of the registry file inside the marker directory.
pub fn definitions_file_name() -> (r: String)
    ensures
        r@ == "CRTagDefinitions.toml"@,
{
    "CRTagDefinitions.toml".to_owned()
}

/// Name of the per-directory sidecar file inside the marker directory.
pub fn sidecar_file_name() -> (r: String)
    ensures
        r@ == "CRTag.toml"@,
{
    "CRTag.toml".to_owned()
}

/// Upward discovery of the governing registry. `present[d]` says whether the
/// ancestor `d` steps above the start directory (`d == 0`: the start
/// directory itself; the last entry: the filesystem root) holds a registry
/// file. The nearest such ancestor's depth comes back; `NotFound` says no
/// ancestor up to the root holds one.
pub fn locate_definitions(present: &Vec<bool>) -> (r: Result<usize, TagError>)
    ensures
        match r {
            Ok(d) => d < present@.len() && present@[d as int] && (forall|j: int|
                0 <= j < d ==> !present@[j]),
            Err(TagError::NotFound) => forall|j: int| 0 <= j < present@.len() ==> !present@[j],
            Err(_) => false,
        },
        r is Ok <==> exists|j: int| 0 <= j < present@.len() && present@[j],
{
    let mut d: usize = 0;
    while d < present.len()
        invariant
            0 <= d <= present@.len(),
            forall|j: int| 0 <= j < d ==> !present@[j],
        decreases present@.len() - d,
    {
        if present[d] {
            return Ok(d);
        }
        d = d + 1;
    }
    Err(TagError::NotFound)
}

/// The registry file path under the ancestor `depth` steps above the start
/// directory, as path components.
pub fn definitions_path_at(start: &Vec<String>, depth: usize) -> (r: Vec<String>)
    requires
        depth <= start@.len(),
    ensures
        str_views(r@) == str_views(start@).take(start@.len() - depth) + seq![
            ".crtag"@,
            "CRTagDefinitions.toml"@,
        ],
{
    let keep = start.len() - depth;
    let mut r: Vec<String> = Vec::new();
    let mut i: usize = 0;
    while i < keep
        invariant
            0 <= i <= keep,
            keep <= start@.len(),
            str_views(r@) =~= str_views(start@).take(i as int),
        decreases keep - i,
    {
        let ghost r0 = r@;
        r.push(start[i].clone());
        proof {
            assert(str_views(r@) =~= str_views(r0).push(start@[i as int]@));
            assert(str_views(start@).take(i + 1) =~= str_views(start@).take(i as int).push(
                str_views(start@)[i as int],
            ));
            assert(str_views(r@) =~= str_views(start@).take(i + 1));
        }
        i = i + 1;
    }
    r.push(marker_dir_name());
    r.push(definitions_file_name());
    proof {
        assert(str_views(r@) =~= str_views(start@).take(keep as int) + seq![
            ".crtag"@,
            "CRTagDefinitions.toml"@,
        ]);
    }
    r
}

/// The sidecar file path inside a directory, as path components: the
/// directory's components with the marker directory and file name appended.
pub fn sidecar_path(dir: &Vec<String>) -> (r: Vec<String>)
    ensures
        str_views(r@) == str_views(dir@) + seq![".crtag"@, "CRTag.toml"@],
{
    let mut r = crate::util::clone_strings(dir);
    r.push(marker_dir_name());
    r.push(sidecar_file_name());
    proof {
        assert(str_views(r@) =~= str_views(dir@) + seq![".crtag"@, "CRTag.toml"@]);
    }
    r
}

} // verus!
