//! Joining file-system paths held as strings, the way `Path::join` does on
//! Unix and on Windows.
use vstd::prelude::*;

verus! {

/// `base` joined with `comp` on Unix: an absolute `comp` replaces `base`;
/// otherwise a `/` goes between them unless `base` is empty or already ends
/// with one.
pub open spec fn unix_join(base: Seq<char>, comp: Seq<char>) -> Seq<char> {
    if comp.len() > 0 && comp[0] == '/' {
        comp
    } else if base.len() == 0 || base.last() == '/' {
        base + comp
    } else {
        base + "/"@ + comp
    }
}

/// `base` joined with `comp` on Unix.
pub fn join_unix(base: &str, comp: &str) -> (r: String)
    ensures
        r@ == unix_join(base@, comp@),
{
    let cv = crate::text::chars_of(comp);
    if cv.len() > 0 && cv[0] == '/' {
        return comp.to_owned();
    }
    let bv = crate::text::chars_of(base);
    let mut out = base.to_owned();
    if bv.len() > 0 && bv[bv.len() - 1] != '/' {
        out.append("/");
    }
    out.append(comp);
    out
}

/// Whether `c` separates the components of a Windows path.
pub open spec fn is_win_sep(c: char) -> bool {
    c == '\\' || c == '/'
}

/// Whether `p` is a bare drive such as `C:`.
pub open spec fn is_bare_drive(p: Seq<char>) -> bool {
    p.len() == 2 && (('a' <= p[0] && p[0] <= 'z') || ('A' <= p[0] && p[0] <= 'Z')) && p[1] == ':'
}

/// `base` joined with a relative `comp` on Windows: a `\` goes between them
/// unless `base` is empty, already ends with a separator, or is a bare drive.
pub open spec fn win_join(base: Seq<char>, comp: Seq<char>) -> Seq<char> {
    if base.len() == 0 || is_win_sep(base.last()) || is_bare_drive(base) {
        base + comp
    } else {
        base + "\\"@ + comp
    }
}

/// A component with no separator and no drive: it is pushed as it is.
pub open spec fn plain_component(comp: Seq<char>) -> bool {
    forall|i: int| 0 <= i < comp.len() ==> !is_win_sep(#[trigger] comp[i]) && comp[i] != ':'
}

/// `base` joined with the plain component `comp` on Windows.
pub fn join_windows(base: &str, comp: &str) -> (r: String)
    requires
        plain_component(comp@),
    ensures
        r@ == win_join(base@, comp@),
{
    let bv = crate::text::chars_of(base);
    let n = bv.len();
    let mut out = base.to_owned();
    let bare_drive = n == 2 && (('a' <= bv[0] && bv[0] <= 'z') || ('A' <= bv[0] && bv[0] <= 'Z'))
        && bv[1] == ':';
    if n > 0 && bv[n - 1] != '\\' && bv[n - 1] != '/' && !bare_drive {
        out.append("\\");
    }
    out.append(comp);
    out
}

} // verus!
