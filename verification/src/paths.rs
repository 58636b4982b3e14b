//! Paths of files, as texts.
use vstd::prelude::*;
use vstd::string::*;

verus! {

/// A path below another one. A path that starts with a slash stands for itself.
pub open spec fn joined(base: Seq<char>, rest: Seq<char>) -> Seq<char> {
    if base.len() == 0 || (rest.len() > 0 && rest[0] == '/') {
        rest
    } else if base.last() == '/' {
        base + rest
    } else {
        base + "/"@ + rest
    }
}

/// A path below another one.
pub fn join(base: &str, rest: &str) -> (r: String)
    ensures
        r@ == joined(base@, rest@),
{
    let n: usize = base.unicode_len();
    if n == 0 || (rest.unicode_len() > 0 && rest.get_char(0) == '/') {
        rest.to_owned()
    } else {
        let mut r = base.to_owned();
        if base.get_char(n - 1) != '/' {
            r.append("/");
        }
        r.append(rest);
        r
    }
}

} // verus!
