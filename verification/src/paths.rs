//! Where the engine keeps its cache on disk.
use vstd::prelude::*;
use vstd::string::StringExecFns;

verus! {

/// Relies on `homedir::my_home`: the caller's home directory as text, or
/// an error when the machine knows none. The answer is the machine's
/// business: nothing is promised of it.
#[verifier::external_body]
pub fn home() -> (r: Result<String, String>) {
    match homedir::my_home() {
        Ok(Some(p)) => Ok(p.to_string_lossy().into_owned()),
        Ok(None) => Err(String::from("the home directory is unknown")),
        Err(e) => Err(format!("{e}")),
    }
}

/// The engine's cache directory: `.WuKong` under the home directory.
pub fn cache() -> (r: Result<String, String>)
    ensures
        r matches Ok(p) ==> p@.len() >= 8 && p@.subrange(p@.len() - 8, p@.len() as int)
            == "/.WuKong"@,
{
    match home() {
        Ok(h) => {
            let mut p = h;
            p.append("/.WuKong");
            proof {
                reveal_strlit("/.WuKong");
                assert(p@.subrange(p@.len() - 8, p@.len() as int) =~= "/.WuKong"@);
            }
            Ok(p)
        },
        Err(e) => Err(e),
    }
}

} // verus!
