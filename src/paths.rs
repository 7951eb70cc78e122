use vstd::prelude::*;

verus! {

/// What `Path::starts_with` answers: `base` is a whole-component prefix of `p`.
pub uninterp spec fn path_starts_with(p: Seq<char>, base: Seq<char>) -> bool;

/// What `Path::file_name` gives for `p`, lossily decoded.
pub uninterp spec fn file_name_of(p: Seq<char>) -> Option<Seq<char>>;

/// Relies on `std::path::Path::starts_with`, which compares whole components.
#[verifier::external_body]
pub(crate) fn starts_with_path(p: &String, base: &String) -> (r: bool)
    ensures
        r == path_starts_with(p@, base@),
{
    std::path::Path::new(p.as_str()).starts_with(std::path::Path::new(base.as_str()))
}

/// Relies on `std::path::Path::file_name`: the last component of `p`, or
/// `None` when `p` ends in `..` or is a root.
#[verifier::external_body]
pub(crate) fn file_name(p: &String) -> (r: Option<String>)
    ensures
        r is None <==> file_name_of(p@) is None,
        r matches Some(n) ==> file_name_of(p@) == Some(n@),
{
    std::path::Path::new(p.as_str()).file_name().map(|n| n.to_string_lossy().to_string())
}

/// The path separator.
pub open spec fn sep() -> char {
    '/'
}

/// `b` appended to `a` as a path: an absolute `b` replaces `a`; otherwise a
/// separator is put between them unless `a` is empty or already ends in one.
pub open spec fn join(a: Seq<char>, b: Seq<char>) -> Seq<char> {
    if b.len() > 0 && b[0] == sep() {
        b
    } else if a.len() == 0 || a.last() == sep() {
        a + b
    } else {
        a + seq![sep()] + b
    }
}

/// `a` joined with `b`.
pub fn join_path(a: &String, b: &String) -> (r: String)
    ensures
        r@ == join(a@, b@),
{
    proof {
        reveal_strlit("/");
    }
    let bn = b.unicode_len();
    if bn > 0 && b.as_str().get_char(0) == '/' {
        return b.clone();
    }
    let an = a.unicode_len();
    let mut s = a.clone();
    if an > 0 && a.as_str().get_char(an - 1) != '/' {
        s.append("/");
    }
    s.append(b.as_str());
    assert(s@ =~= join(a@, b@));
    s
}

} // verus!
