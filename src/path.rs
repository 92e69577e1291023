use vstd::prelude::*;
use vstd::string::StringExecFns;

verus! {

/// The file name of the database inside the data directory.
pub const DB_NAME: &'static str = "data.db";

/// The path that the platform's path syntax makes of `name` inside `base`.
pub uninterp spec fn joined_path_of(base: Seq<char>, name: Seq<char>) -> Seq<char>;

/// Relies on `std::path::Path::join`: the joined path depends on the two strings
/// alone, and is valid UTF-8 when both are, so the lossy conversion is exact.
#[verifier::external_body]
fn join_path(base: &str, name: &str) -> (r: String)
    ensures
        r@ == joined_path_of(base@, name@),
{
    std::path::Path::new(base).join(name).to_string_lossy().into_owned()
}

/// The connection URL of the database file inside the data directory `base`.
pub fn db_path(base: &str) -> (r: String)
    ensures
        r@ == "sqlite://"@ + joined_path_of(base@, DB_NAME@),
{
    let joined = join_path(base, DB_NAME);
    String::from_str("sqlite://").concat(joined.as_str())
}

} // verus!
