use vstd::prelude::*;

verus! {

/// Nanoseconds in one day.
pub const NANOS_PER_DAY: u64 = 86_400_000_000_000;

/// How many levels below a project directory the tree walk looks.
pub const TREE_DEPTH: usize = 3;

/// One immediate subdirectory of a scanned root, with its effective
/// modification time in nanoseconds since the Unix epoch.
#[derive(Debug, Clone)]
pub struct ProjectItem {
    pub path: String,
    pub last_modified: u64,
}

/// What a `ProjectItem` stands for.
pub ghost struct ProjectItemView {
    pub path: Seq<char>,
    pub last_modified: u64,
}

impl View for ProjectItem {
    type V = ProjectItemView;

    open spec fn view(&self) -> ProjectItemView {
        ProjectItemView { path: self.path@, last_modified: self.last_modified }
    }
}

/// One entry found directly under the scanned root, as the filesystem showed it.
///
/// `name` is the entry's file name, lossily decoded; `tree_mtimes` are the
/// modification times that the bounded tree walk could read; `own_mtime` is the
/// directory's own modification time, where it could be read.
#[derive(Debug, Clone)]
pub struct ChildEntry {
    pub path: String,
    pub name: String,
    pub is_dir: bool,
    pub tree_mtimes: Vec<u64>,
    pub own_mtime: Option<u64>,
}

/// The result of a scan.
#[derive(Debug, Clone)]
pub struct ScanReport {
    pub root: String,
    pub older_than_days: u64,
    pub stale: Vec<ProjectItem>,
    pub fresh: Vec<ProjectItem>,
    pub scanned_count: usize,
}

/// Why a scan failed.
#[derive(Debug, Clone, Copy, PartialEq, Eq)]
pub enum ScanError {
    /// The cutoff would lie before the Unix epoch.
    Compute,
}

/// A name that begins with a dot.
pub open spec fn is_hidden(name: String) -> bool {
    name@.len() > 0 && name@[0] == '.'
}

/// A child that the scan looks at: a directory that is not hidden.
pub open spec fn is_project(c: ChildEntry) -> bool {
    c.is_dir && !is_hidden(c.name)
}

/// The largest value of `s`, if any.
pub open spec fn max_of(s: Seq<u64>) -> Option<u64>
    decreases s.len(),
{
    if s.len() == 0 {
        None
    } else {
        match max_of(s.drop_last()) {
            None => Some(s.last()),
            Some(m) => Some(if m >= s.last() { m } else { s.last() }),
        }
    }
}

/// The newest time seen in the tree, else the directory's own time, else the epoch.
pub open spec fn effective_mtime(c: ChildEntry) -> u64 {
    match max_of(c.tree_mtimes@) {
        Some(m) => m,
        None => match c.own_mtime {
            Some(t) => t,
            None => 0,
        },
    }
}

pub open spec fn item_of(c: ChildEntry) -> ProjectItemView {
    ProjectItemView { path: c.path@, last_modified: effective_mtime(c) }
}

/// The instant `older_than_days` days before `now`.
pub open spec fn cutoff_of(now: u64, older_than_days: u64) -> int {
    now - older_than_days * NANOS_PER_DAY
}

/// The projects among `cs` whose time is at or before `cutoff`, in listing order.
pub open spec fn stale_of(cs: Seq<ChildEntry>, cutoff: int) -> Seq<ProjectItemView>
    decreases cs.len(),
{
    if cs.len() == 0 {
        seq![]
    } else {
        let rest = stale_of(cs.drop_last(), cutoff);
        let c = cs.last();
        if is_project(c) && effective_mtime(c) <= cutoff {
            rest.push(item_of(c))
        } else {
            rest
        }
    }
}

/// The projects among `cs` whose time is after `cutoff`, in listing order.
pub open spec fn fresh_of(cs: Seq<ChildEntry>, cutoff: int) -> Seq<ProjectItemView>
    decreases cs.len(),
{
    if cs.len() == 0 {
        seq![]
    } else {
        let rest = fresh_of(cs.drop_last(), cutoff);
        let c = cs.last();
        if is_project(c) && effective_mtime(c) > cutoff {
            rest.push(item_of(c))
        } else {
            rest
        }
    }
}

/// How many of `cs` are projects.
pub open spec fn project_count(cs: Seq<ChildEntry>) -> nat
    decreases cs.len(),
{
    if cs.len() == 0 {
        0
    } else {
        project_count(cs.drop_last()) + if is_project(cs.last()) { 1nat } else { 0nat }
    }
}

pub open spec fn views(items: Seq<ProjectItem>) -> Seq<ProjectItemView> {
    items.map_values(|i: ProjectItem| i@)
}

/// Where an item with time `t` goes in `s`: after every item not newer than it.
pub open spec fn insert_pos(s: Seq<ProjectItemView>, t: u64) -> int
    decreases s.len(),
{
    if s.len() == 0 {
        0
    } else if s.last().last_modified > t {
        insert_pos(s.drop_last(), t)
    } else {
        s.len() as int
    }
}

/// The stale projects among `cs`, oldest first, those of equal time in listing order.
pub open spec fn sorted_stale_of(cs: Seq<ChildEntry>, cutoff: int) -> Seq<ProjectItemView>
    decreases cs.len(),
{
    if cs.len() == 0 {
        seq![]
    } else {
        let rest = sorted_stale_of(cs.drop_last(), cutoff);
        let c = cs.last();
        if is_project(c) && effective_mtime(c) <= cutoff {
            rest.insert(insert_pos(rest, effective_mtime(c)), item_of(c))
        } else {
            rest
        }
    }
}

/// Oldest first.
pub open spec fn sorted_by_time(s: Seq<ProjectItemView>) -> bool {
    forall|i: int, j: int| 0 <= i < j < s.len() ==> s[i].last_modified <= s[j].last_modified
}

/// Every stale item is at or before the cutoff, every fresh one after it, and
/// together they are as many as the projects counted.
pub proof fn lemma_partition_by_cutoff(cs: Seq<ChildEntry>, cutoff: int)
    ensures
        forall|k: int| 0 <= k < stale_of(cs, cutoff).len()
            ==> #[trigger] stale_of(cs, cutoff)[k].last_modified <= cutoff,
        forall|k: int| 0 <= k < fresh_of(cs, cutoff).len()
            ==> #[trigger] fresh_of(cs, cutoff)[k].last_modified > cutoff,
        stale_of(cs, cutoff).len() + fresh_of(cs, cutoff).len() == project_count(cs),
    decreases cs.len(),
{
    if cs.len() > 0 {
        lemma_partition_by_cutoff(cs.drop_last(), cutoff);
    }
}

/// Each reported item stands for a child that is a directory and is not
/// hidden: hidden directories never appear in a report.
pub proof fn lemma_only_projects(cs: Seq<ChildEntry>, cutoff: int, x: ProjectItemView)
    requires
        stale_of(cs, cutoff).contains(x) || fresh_of(cs, cutoff).contains(x),
    ensures
        exists|k: int| 0 <= k < cs.len() && is_project(cs[k]) && !is_hidden(cs[k].name)
            && x == item_of(#[trigger] cs[k]),
    decreases cs.len(),
{
    let rest = cs.drop_last();
    let c = cs.last();
    if stale_of(rest, cutoff).contains(x) || fresh_of(rest, cutoff).contains(x) {
        lemma_only_projects(rest, cutoff, x);
        let k = choose|k: int| 0 <= k < rest.len() && is_project(rest[k]) && !is_hidden(rest[k].name)
            && x == item_of(#[trigger] rest[k]);
        assert(cs[k] == rest[k]);
    } else {
        assert(x == item_of(c));
        assert(cs[cs.len() - 1] == c);
    }
}

/// The newest of the modification times that a tree walk read, or `None` when
/// it read none.
pub fn newest_mtime_in_tree(mtimes: &Vec<u64>) -> (r: Option<u64>)
    ensures
        r == max_of(mtimes@),
{
    let mut newest: Option<u64> = None;
    let mut i: usize = 0;
    while i < mtimes.len()
        invariant
            i <= mtimes.len(),
            newest == max_of(mtimes@.take(i as int)),
        decreases mtimes.len() - i,
    {
        let t = mtimes[i];
        assert(mtimes@.take(i + 1).drop_last() == mtimes@.take(i as int));
        newest = match newest {
            None => Some(t),
            Some(cur) => Some(if cur >= t { cur } else { t }),
        };
        i += 1;
    }
    assert(mtimes@.take(i as int) == mtimes@);
    newest
}

fn effective_mtime_of(c: &ChildEntry) -> (r: u64)
    ensures
        r == effective_mtime(*c),
{
    match newest_mtime_in_tree(&c.tree_mtimes) {
        Some(m) => m,
        None => match c.own_mtime {
            Some(t) => t,
            None => 0,
        },
    }
}

fn starts_with_dot(name: &String) -> (r: bool)
    ensures
        r == is_hidden(*name),
{
    name.unicode_len() > 0 && name.as_str().get_char(0) == '.'
}

/// Inserts `item` after every element not newer than it.
fn insert_by_time(v: &mut Vec<ProjectItem>, item: ProjectItem)
    requires
        sorted_by_time(views(old(v)@)),
    ensures
        sorted_by_time(views(final(v)@)),
        views(final(v)@).to_multiset() == views(old(v)@).to_multiset().insert(item@),
        views(final(v)@) == views(old(v)@).insert(
            insert_pos(views(old(v)@), item.last_modified),
            item@,
        ),
{
    broadcast use vstd::seq_lib::group_to_multiset_ensures;
    let ghost vs = views(v@);
    let mut j: usize = v.len();
    assert(vs.take(j as int) =~= vs);
    while j > 0 && v[j - 1].last_modified > item.last_modified
        invariant
            j <= v.len(),
            v@ == old(v)@,
            forall|k: int| j <= k < v.len() ==> v@[k].last_modified > item.last_modified,
            vs == views(old(v)@),
            insert_pos(vs, item.last_modified) == insert_pos(vs.take(j as int), item.last_modified),
        decreases j,
    {
        assert(vs.take(j as int).drop_last() =~= vs.take(j - 1));
        assert(vs.take(j as int).last() == vs[j - 1]);
        j -= 1;
    }
    proof {
        assert(vs.take(0) =~= Seq::<ProjectItemView>::empty());
        if j > 0 {
            assert(vs.take(j as int).last() == vs[j - 1]);
        }
        assert(insert_pos(vs, item.last_modified) == j);
    }
    let ghost iv = item@;
    let ghost old_v = v@;
    v.insert(j, item);
    proof {
        assert(forall|k: int| 0 <= k < old_v.len() ==> vs[k] == old_v[k]@);
        assert(j > 0 ==> vs[j - 1].last_modified <= iv.last_modified);
        assert(forall|k: int| j <= k < vs.len() ==> vs[k].last_modified > iv.last_modified);
        assert(views(v@) =~= vs.insert(j as int, iv));
        vstd::seq_lib::to_multiset_insert(vs, j as int, iv);
        let s = views(v@);
        assert forall|a: int, b: int| 0 <= a < b < s.len() implies s[a].last_modified
            <= s[b].last_modified by {
            if a < j && b > j {
                assert(s[a] == vs[a]);
                assert(s[b] == vs[b - 1]);
            } else if b < j {
                assert(s[a] == vs[a]);
                assert(s[b] == vs[b]);
            } else if a > j {
                assert(s[a] == vs[a - 1]);
                assert(s[b] == vs[b - 1]);
            } else if a == j {
                assert(s[b] == vs[b - 1]);
            } else {
                assert(s[a] == vs[a]);
            }
        }
    }
}

/// Partitions the children of `root` into stale and fresh projects.
///
/// `now` is the current time in nanoseconds since the Unix epoch. Hidden
/// directories and entries that are not directories are left out. The stale
/// items come oldest first.
pub fn scan_projects(root: String, older_than_days: u64, now: u64, children: &Vec<ChildEntry>) -> (r:
    Result<ScanReport, ScanError>)
    ensures
        r is Err <==> cutoff_of(now, older_than_days) < 0,
        r is Err ==> r == Err::<ScanReport, ScanError>(ScanError::Compute),
        r matches Ok(rep) ==> {
            let cutoff = cutoff_of(now, older_than_days);
            &&& rep.root == root
            &&& rep.older_than_days == older_than_days
            &&& rep.scanned_count == project_count(children@)
            &&& views(rep.fresh@) == fresh_of(children@, cutoff)
            &&& views(rep.stale@).to_multiset() == stale_of(children@, cutoff).to_multiset()
            &&& sorted_by_time(views(rep.stale@))
            &&& views(rep.stale@) == sorted_stale_of(children@, cutoff)
            &&& forall|k: int| 0 <= k < rep.stale@.len() ==> #[trigger] rep.stale@[k].last_modified <= cutoff
            &&& forall|k: int| 0 <= k < rep.fresh@.len() ==> #[trigger] rep.fresh@[k].last_modified > cutoff
            &&& rep.stale@.len() + rep.fresh@.len() == rep.scanned_count
        },
{
    let span = match older_than_days.checked_mul(NANOS_PER_DAY) {
        Some(s) => s,
        None => {
            assert(older_than_days * NANOS_PER_DAY > now);
            return Err(ScanError::Compute);
        },
    };
    let cutoff = match now.checked_sub(span) {
        Some(c) => c,
        None => {
            return Err(ScanError::Compute);
        },
    };
    let ghost cut = cutoff_of(now, older_than_days);
    let mut stale: Vec<ProjectItem> = Vec::new();
    let mut fresh: Vec<ProjectItem> = Vec::new();
    let mut scanned: usize = 0;
    let mut i: usize = 0;
    proof {
        broadcast use vstd::seq_lib::group_to_multiset_ensures;
        assert(children@.take(0) =~= Seq::<ChildEntry>::empty());
        assert(sorted_stale_of(children@.take(0), cut) =~= Seq::<ProjectItemView>::empty());
        assert(views(stale@) =~= Seq::<ProjectItemView>::empty());
        assert(views(fresh@) =~= Seq::<ProjectItemView>::empty());
    }
    while i < children.len()
        invariant
            i <= children.len(),
            cut == cutoff as int,
            scanned == project_count(children@.take(i as int)),
            scanned <= i,
            views(fresh@) == fresh_of(children@.take(i as int), cut),
            views(stale@).to_multiset() == stale_of(children@.take(i as int), cut).to_multiset(),
            sorted_by_time(views(stale@)),
            views(stale@) == sorted_stale_of(children@.take(i as int), cut),
        decreases children.len() - i,
    {
        broadcast use vstd::seq_lib::group_to_multiset_ensures;
        let c = &children[i];
        assert(children@.take(i + 1).drop_last() == children@.take(i as int));
        assert(children@.take(i + 1).last() == *c);
        if c.is_dir && !starts_with_dot(&c.name) {
            scanned += 1;
            let t = effective_mtime_of(c);
            let item = ProjectItem { path: c.path.clone(), last_modified: t };
            assert(item@ == item_of(*c));
            if t <= cutoff {
                insert_by_time(&mut stale, item);
            } else {
                let ghost before = views(fresh@);
                fresh.push(item);
                assert(views(fresh@) =~= before.push(item_of(*c)));
            }
        }
        i += 1;
    }
    assert(children@.take(i as int) == children@);
    proof {
        broadcast use vstd::seq_lib::group_to_multiset_ensures;
        lemma_partition_by_cutoff(children@, cut);
        let sv = views(stale@);
        let so = stale_of(children@, cut);
        assert(sv.to_multiset().len() == sv.len());
        assert(so.to_multiset().len() == so.len());
        assert(sv.len() == stale@.len());
        assert forall|k: int| 0 <= k < stale@.len() implies #[trigger] stale@[k].last_modified <= cut by {
            assert(sv[k] == stale@[k]@);
            assert(sv.contains(sv[k]));
            assert(sv.to_multiset().count(sv[k]) > 0);
            assert(so.contains(sv[k]));
            let m = choose|m: int| 0 <= m < so.len() && so[m] == sv[k];
            assert(so[m].last_modified <= cut);
        }
        assert forall|k: int| 0 <= k < fresh@.len() implies #[trigger] fresh@[k].last_modified > cut by {
            assert(views(fresh@)[k] == fresh@[k]@);
            assert(fresh_of(children@, cut)[k].last_modified > cut);
        }
    }
    Ok(ScanReport { root, older_than_days, stale, fresh, scanned_count: scanned })
}

} // verus!
