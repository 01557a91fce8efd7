use vstd::prelude::*;

verus! {

/// The on-disk path of a stored file: the category directory joined with the
/// client-supplied filename by a single separator.
pub open spec fn joined_path(dir: Seq<char>, name: Seq<char>) -> Seq<char> {
    dir + seq!['/'] + name
}

/// Builds `<dir>/<name>`.
pub fn stored_path(dir: &str, name: &str) -> (r: String)
    ensures
        r@ == joined_path(dir@, name@),
{
    let mut p = String::from_str(dir);
    p.append("/");
    p.append(name);
    proof {
        reveal_strlit("/");
        assert("/"@ =~= seq!['/']);
        assert(p@ =~= joined_path(dir@, name@));
    }
    p
}

/// The directory that uploaded files are streamed into.
pub fn upload_dir() -> (r: &'static str)
    ensures
        r@ == "./tmp"@,
{
    "./tmp"
}

} // verus!
