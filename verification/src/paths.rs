//! Where documents live: one file per document, named after its identifier.

use vstd::prelude::*;
use vstd::string::*;

verus! {

/// The directory that holds the documents.
pub const DASHBOARDS_DIR: &'static str = "./data/dashboards";

/// The name of the file of the document `id`.
pub open spec fn file_name(id: Seq<char>) -> Seq<char> {
    id + ".json"@
}

/// The file of the document `id` in the directory `dir`.
pub open spec fn document_path(dir: Seq<char>, id: Seq<char>) -> Seq<char> {
    dir + seq!['/'] + file_name(id)
}

/// A file name with the extension `json`: it ends in `.json` and has
/// something before that.
pub open spec fn has_json_extension(name: Seq<char>) -> bool {
    name.len() > 5 && name.subrange(name.len() - 5, name.len() as int) == ".json"@
}

/// The file of the document `id` in the directory `dir`.
pub fn dashboard_path_in(dir: &str, id: &str) -> (path: String)
    ensures
        path@ == document_path(dir@, id@),
{
    proof {
        reveal_strlit("/");
    }
    let mut path = String::from_str(dir);
    path.append("/");
    path.append(id);
    path.append(".json");
    assert(path@ =~= document_path(dir@, id@));
    path
}

/// The file of the document `id` in the store's directory.
pub fn get_dashboard_path(id: &str) -> (path: String)
    ensures
        path@ == document_path(DASHBOARDS_DIR@, id@),
{
    dashboard_path_in(DASHBOARDS_DIR, id)
}

/// Whether a file of the store's directory, by its name, is taken for a document.
pub fn is_dashboard_file(name: &str) -> (b: bool)
    ensures
        b == has_json_extension(name@),
{
    proof {
        reveal_strlit(".json");
    }
    let n: usize = name.unicode_len();
    if n <= 5 {
        return false;
    }
    let b = name.get_char(n - 5) == '.' && name.get_char(n - 4) == 'j' && name.get_char(n - 3)
        == 's' && name.get_char(n - 2) == 'o' && name.get_char(n - 1) == 'n';
    proof {
        let tail = name@.subrange(n - 5, n as int);
        if b {
            assert(tail =~= ".json"@);
        } else {
            assert(tail[0] == name@[n - 5]);
            assert(tail[1] == name@[n - 4]);
            assert(tail[2] == name@[n - 3]);
            assert(tail[3] == name@[n - 2]);
            assert(tail[4] == name@[n - 1]);
        }
    }
    b
}

/// Two documents never share a file: different identifiers give different
/// paths in one directory.
pub proof fn lemma_one_file_per_document(dir: Seq<char>, id1: Seq<char>, id2: Seq<char>)
    requires
        document_path(dir, id1) == document_path(dir, id2),
    ensures
        id1 == id2,
{
    let p1 = document_path(dir, id1);
    let p2 = document_path(dir, id2);
    let start = dir.len() + 1;
    assert(p1.len() == start + id1.len() + ".json"@.len());
    assert(p2.len() == start + id2.len() + ".json"@.len());
    assert(id1 =~= id2) by {
        assert forall|i: int| 0 <= i < id1.len() implies id1[i] == id2[i] by {
            assert(p1[start + i] == id1[i]);
            assert(p2[start + i] == id2[i]);
        }
    }
}

/// The file of a document is one that a listing reads: a file named after
/// an identifier that is not empty has the extension `json`.
pub proof fn lemma_document_files_are_listed(id: Seq<char>)
    requires
        id.len() > 0,
    ensures
        has_json_extension(file_name(id)),
{
    reveal_strlit(".json");
    let name = file_name(id);
    assert(name.subrange(name.len() - 5, name.len() as int) =~= ".json"@);
}

} // verus!
