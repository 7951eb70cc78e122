use vstd::prelude::*;
use crate::naming::{candidate, collision_candidate};
use crate::paths::{join, join_path};

verus! {

/// What `str::to_lowercase` gives for `s`.
pub uninterp spec fn lower_of(s: Seq<char>) -> Seq<char>;

/// What `Path::extension` gives for `p`, lossily decoded.
pub uninterp spec fn extension_of(p: Seq<char>) -> Option<Seq<char>>;

/// Relies on `str::to_lowercase`: the result depends on the characters alone.
#[verifier::external_body]
fn lowercase(s: &String) -> (r: String)
    ensures
        r@ == lower_of(s@),
{
    s.to_lowercase()
}

/// Relies on `std::path::Path::extension`: the part of the file name after its
/// last dot, if any.
#[verifier::external_body]
fn extension(p: &String) -> (r: Option<String>)
    ensures
        r is None <==> extension_of(p@) is None,
        r matches Some(e) ==> extension_of(p@) == Some(e@),
{
    std::path::Path::new(p.as_str()).extension().map(|e| e.to_string_lossy().to_string())
}

/// The folder that files with the (lowercase) extension `ext` go to.
pub open spec fn category_of(ext: Seq<char>) -> Seq<char> {
    if ext == "pdf"@ || ext == "doc"@ || ext == "docx"@ || ext == "txt"@ {
        "Documents"@
    } else if ext == "jpg"@ || ext == "png"@ || ext == "gif"@ || ext == "webp"@ {
        "Images"@
    } else if ext == "zip"@ || ext == "rar"@ || ext == "7z"@ || ext == "tar"@ || ext == "gz"@ {
        "Archives"@
    } else if ext == "dmg"@ || ext == "exe"@ || ext == "msi"@ || ext == "pkg"@ || ext == "deb"@
        || ext == "rpm"@ {
        "Installers"@
    } else if ext == "csv"@ || ext == "xlsx"@ {
        "Spreadsheets"@
    } else {
        "Other"@
    }
}

/// The lowercase extension of the file at `p`, empty where it has none.
pub open spec fn lower_extension(p: Seq<char>) -> Seq<char> {
    lower_of(
        match extension_of(p) {
            Some(e) => e,
            None => Seq::empty(),
        },
    )
}

/// The `n`-th path tried for a file called `name` in `dir/category`: the name
/// itself, then `name_1`, `name_2`, and so on.
pub open spec fn organize_candidate(dir: Seq<char>, category: Seq<char>, name: Seq<char>, n: nat) -> Seq<char> {
    join(join(dir, category), candidate(name, n))
}

fn same_text(a: &String, b: &str) -> (r: bool)
    ensures
        r == (a@ == b@),
{
    let n = a.unicode_len();
    if n != b.unicode_len() {
        return false;
    }
    let mut i: usize = 0;
    while i < n
        invariant
            n == a@.len(),
            n == b@.len(),
            i <= n,
            forall|k: int| 0 <= k < i ==> a@[k] == b@[k],
        decreases n - i,
    {
        if a.as_str().get_char(i) != b.get_char(i) {
            return false;
        }
        i += 1;
    }
    assert(a@ =~= b@);
    true
}

/// The folder for files with the (already lowercase) extension `ext`.
pub fn category_for(ext: &String) -> (r: String)
    ensures
        r@ == category_of(ext@),
{
    let c = if same_text(ext, "pdf") || same_text(ext, "doc") || same_text(ext, "docx")
        || same_text(ext, "txt") {
        "Documents"
    } else if same_text(ext, "jpg") || same_text(ext, "png") || same_text(ext, "gif")
        || same_text(ext, "webp") {
        "Images"
    } else if same_text(ext, "zip") || same_text(ext, "rar") || same_text(ext, "7z")
        || same_text(ext, "tar") || same_text(ext, "gz") {
        "Archives"
    } else if same_text(ext, "dmg") || same_text(ext, "exe") || same_text(ext, "msi")
        || same_text(ext, "pkg") || same_text(ext, "deb") || same_text(ext, "rpm") {
        "Installers"
    } else if same_text(ext, "csv") || same_text(ext, "xlsx") {
        "Spreadsheets"
    } else {
        "Other"
    };
    String::from_str(c)
}

/// The folder for the file at `file_path`, by its extension in lowercase.
pub fn file_category(file_path: &String) -> (r: String)
    ensures
        r@ == category_of(lower_extension(file_path@)),
{
    let ext = match extension(file_path) {
        Some(e) => e,
        None => String::new(),
    };
    assert(ext@ == match extension_of(file_path@) {
        Some(e) => e,
        None => Seq::<char>::empty(),
    });
    category_for(&lowercase(&ext))
}

/// What the organizer does next for one file.
#[derive(Debug, Clone, PartialEq, Eq)]
pub enum OrganizeStep {
    /// The file goes to this path.
    Target(String),
    /// Whether this path exists must be known before a name can be picked.
    Probe(String),
}

/// Picks where a file called `name` goes inside `dir/category`.
///
/// `taken[k]` says whether the `k`-th candidate path exists. The result is the
/// first candidate that does not; when all asked about exist, it is the next
/// candidate to look up.
pub fn organize_target(dir: &String, category: &String, name: &String, taken: &Vec<bool>) -> (r:
    OrganizeStep)
    requires
        taken@.len() < u64::MAX,
    ensures
        r is Probe <==> forall|k: int| 0 <= k < taken@.len() ==> taken@[k],
        r matches OrganizeStep::Probe(p) ==> p@ == organize_candidate(
            dir@,
            category@,
            name@,
            taken@.len() as nat,
        ),
        r matches OrganizeStep::Target(p) ==> exists|n: int|
            {
                &&& 0 <= n < taken@.len()
                &&& !taken@[n]
                &&& (forall|k: int| 0 <= k < n ==> taken@[k])
                &&& p@ == organize_candidate(dir@, category@, name@, n as nat)
            },
{
    let folder = join_path(dir, category);
    let mut i: usize = 0;
    while i < taken.len()
        invariant
            i <= taken@.len(),
            taken@.len() < u64::MAX,
            folder@ == join(dir@, category@),
            forall|k: int| 0 <= k < i ==> taken@[k],
        decreases taken@.len() - i,
    {
        if !taken[i] {
            let file = collision_candidate(name, i as u64);
            return OrganizeStep::Target(join_path(&folder, &file));
        }
        i += 1;
    }
    let file = collision_candidate(name, taken.len() as u64);
    OrganizeStep::Probe(join_path(&folder, &file))
}

} // verus!
