use vstd::prelude::*;
use crate::bucket::{bucket_text, month_bucket};
use crate::naming::{avoid_collision, candidate, collision_candidate, first_free};
use crate::paths::{file_name, file_name_of, join, join_path, path_starts_with, starts_with_path};
use crate::scan::ProjectItem;

verus! {

/// One planned relocation.
#[derive(Debug, Clone)]
pub struct ArchiveMove {
    pub from: String,
    pub to: String,
}

/// Moves of stale projects into `dest_root/month_bucket/`.
#[derive(Debug, Clone)]
pub struct ArchivePlan {
    pub dest_root: String,
    pub month_bucket: String,
    pub moves: Vec<ArchiveMove>,
}

/// What the planner does next for one stale item.
#[derive(Debug, Clone, PartialEq, Eq)]
pub enum PlanStep {
    /// The item lies inside the destination and is left where it is.
    Skipped,
    /// Whether this path exists must be known before a name can be picked.
    Probe(String),
    /// A move for the item was added to the plan.
    Added,
}

/// The name used when a path has no final component.
pub open spec fn unknown_name() -> Seq<char> {
    seq!['u', 'n', 'k', 'n', 'o', 'w', 'n']
}

/// Where an item at `from` goes before collisions are avoided.
pub open spec fn target_of(dest_root: Seq<char>, bucket: Seq<char>, from: Seq<char>) -> Seq<char> {
    let name = match file_name_of(from) {
        Some(n) => n,
        None => unknown_name(),
    };
    join(join(dest_root, bucket), name)
}

/// Some move of `moves` goes to `p`.
pub open spec fn targets_contain(moves: Seq<ArchiveMove>, p: Seq<char>) -> bool {
    exists|i: int| 0 <= i < moves.len() && moves[i].to@ == p
}

/// Whether the `k`-th candidate for `target` is in use, on disk or by a move
/// already planned.
pub open spec fn taken_at(moves: Seq<ArchiveMove>, target: Seq<char>, on_disk: Seq<bool>, k: int) -> bool {
    on_disk[k] || targets_contain(moves, candidate(target, k as nat))
}

/// `mv` goes to one of the candidate names for its source.
pub open spec fn goes_to_candidate(dest_root: Seq<char>, bucket: Seq<char>, mv: ArchiveMove) -> bool {
    exists|n: nat| mv.to@ == #[trigger] candidate(target_of(dest_root, bucket, mv.from@), n)
}

/// Relies on `chrono::DateTime::from_timestamp_nanos` and its conversion to
/// `chrono::Local`: the local calendar year and month (1 to 12) of the instant
/// `now`, given in nanoseconds since the Unix epoch.
#[verifier::external_body]
fn local_year_month(now: u64) -> (r: (i32, u32))
    requires
        now <= i64::MAX,
    ensures
        1 <= r.1 <= 12,
{
    let local = chrono::DateTime::from_timestamp_nanos(now as i64).with_timezone(&chrono::Local);
    (chrono::Datelike::year(&local), chrono::Datelike::month(&local))
}

impl ArchivePlan {
    /// No move takes anything out of the destination, no two moves share a
    /// destination, and each move goes to a candidate name for its item.
    pub open spec fn wf(&self) -> bool {
        &&& forall|i: int| 0 <= i < self.moves@.len()
            ==> !path_starts_with(#[trigger] self.moves@[i].from@, self.dest_root@)
        &&& forall|i: int, j: int| 0 <= i < j < self.moves@.len()
            ==> self.moves@[i].to@ != self.moves@[j].to@
        &&& forall|i: int| 0 <= i < self.moves@.len()
            ==> goes_to_candidate(self.dest_root@, self.month_bucket@, #[trigger] self.moves@[i])
    }

    /// An empty plan into `dest_root/month_bucket/`.
    pub fn new(dest_root: String, month_bucket: String) -> (r: ArchivePlan)
        ensures
            r.wf(),
            r.dest_root == dest_root,
            r.month_bucket == month_bucket,
            r.moves@.len() == 0,
    {
        ArchivePlan { dest_root, month_bucket, moves: Vec::new() }
    }

    /// An empty plan into `dest_root`, bucketed by the local month of `now`
    /// (nanoseconds since the Unix epoch), written `YYYY-MM`.
    pub fn for_current_month(dest_root: String, now: u64) -> (r: ArchivePlan)
        requires
            now <= i64::MAX,
        ensures
            r.wf(),
            r.dest_root == dest_root,
            r.moves@.len() == 0,
            exists|year: i32, month: u32|
                1 <= month <= 12 && r.month_bucket@ == #[trigger] bucket_text(year as int, month as nat),
    {
        let (year, month) = local_year_month(now);
        let month_bucket = month_bucket(year, month);
        ArchivePlan::new(dest_root, month_bucket)
    }

    /// Where `item` goes before collisions are avoided, or `None` when it lies
    /// inside the destination.
    pub fn target_for(&self, item: &ProjectItem) -> (r: Option<String>)
        ensures
            r is None <==> path_starts_with(item.path@, self.dest_root@),
            r matches Some(t) ==> t@ == target_of(self.dest_root@, self.month_bucket@, item.path@),
    {
        if starts_with_path(&item.path, &self.dest_root) {
            return None;
        }
        let bucket_dir = join_path(&self.dest_root, &self.month_bucket);
        let name = match file_name(&item.path) {
            Some(n) => n,
            None => {
                proof {
                    reveal_strlit("unknown");
                }
                let u = String::from_str("unknown");
                assert(u@ =~= unknown_name());
                u
            },
        };
        Some(join_path(&bucket_dir, &name))
    }

    /// Whether a planned move already goes to `p`.
    pub fn has_target(&self, p: &String) -> (r: bool)
        ensures
            r == targets_contain(self.moves@, p@),
    {
        let mut i: usize = 0;
        while i < self.moves.len()
            invariant
                i <= self.moves@.len(),
                forall|k: int| 0 <= k < i ==> self.moves@[k].to@ != p@,
            decreases self.moves@.len() - i,
        {
            if self.moves[i].to == *p {
                return true;
            }
            i += 1;
        }
        false
    }

    /// Plans the move of one stale item.
    ///
    /// `on_disk[k]` says whether the `k`-th candidate name for the item's
    /// target exists on disk. The item is skipped when it lies inside the
    /// destination. Otherwise the move goes to the first candidate that is
    /// neither on disk nor the destination of a planned move; where none of
    /// those asked about is free, the next candidate to look up is returned.
    pub fn plan_item(&mut self, item: &ProjectItem, on_disk: &Vec<bool>) -> (r: PlanStep)
        requires
            old(self).wf(),
            on_disk@.len() < u64::MAX,
        ensures
            final(self).wf(),
            final(self).dest_root == old(self).dest_root,
            final(self).month_bucket == old(self).month_bucket,
            path_starts_with(item.path@, old(self).dest_root@) ==> r == PlanStep::Skipped
                && final(self).moves@ == old(self).moves@,
            !path_starts_with(item.path@, old(self).dest_root@) ==> {
                let t = target_of(old(self).dest_root@, old(self).month_bucket@, item.path@);
                let m = old(self).moves@;
                &&& r is Added <==> exists|n: int|
                    0 <= n < on_disk@.len() && !#[trigger] taken_at(m, t, on_disk@, n)
                &&& r is Added ==> exists|n: int|
                    {
                        &&& 0 <= n < on_disk@.len()
                        &&& !#[trigger] taken_at(m, t, on_disk@, n)
                        &&& (forall|k: int| 0 <= k < n ==> #[trigger] taken_at(m, t, on_disk@, k))
                        &&& final(self).moves@.len() == old(self).moves@.len() + 1
                        &&& final(self).moves@.drop_last() == old(self).moves@
                        &&& final(self).moves@.last().from@ == item.path@
                        &&& final(self).moves@.last().to@ == candidate(t, n as nat)
                    }
                &&& r is Probe ==> final(self).moves@ == old(self).moves@
                &&& r matches PlanStep::Probe(p) ==> p@ == candidate(t, on_disk@.len() as nat)
                &&& r != PlanStep::Skipped
            },
    {
        let target = match self.target_for(item) {
            None => {
                return PlanStep::Skipped;
            },
            Some(t) => t,
        };
        let ghost t = target@;
        let mut taken: Vec<bool> = Vec::new();
        let mut k: usize = 0;
        while k < on_disk.len()
            invariant
                k <= on_disk@.len(),
                on_disk@.len() < u64::MAX,
                taken@.len() == k,
                t == target@,
                forall|j: int| 0 <= j < k ==> taken@[j] == taken_at(self.moves@, t, on_disk@, j),
            decreases on_disk@.len() - k,
        {
            let c = collision_candidate(&target, k as u64);
            let b = on_disk[k] || self.has_target(&c);
            taken.push(b);
            k += 1;
        }
        match avoid_collision(&target, &taken) {
            None => {
                assert forall|j: int| 0 <= j < on_disk@.len() implies #[trigger] taken_at(
                    self.moves@,
                    t,
                    on_disk@,
                    j,
                ) by {
                    assert(taken@[j]);
                }
                let next = collision_candidate(&target, on_disk.len() as u64);
                PlanStep::Probe(next)
            },
            Some(to) => {
                let ghost n = choose|n: int| first_free(taken@, n) && to@ == candidate(t, n as nat);
                let ghost before = self.moves@;
                let ghost dest = self.dest_root@;
                let ghost bucket = self.month_bucket@;
                self.moves.push(ArchiveMove { from: item.path.clone(), to });
                proof {
                    let after = self.moves@;
                    assert(after.drop_last() =~= before);
                    assert(!targets_contain(before, candidate(t, n as nat)));
                    assert(!taken_at(before, t, on_disk@, n));
                    assert forall|k: int| 0 <= k < n implies #[trigger] taken_at(
                        before,
                        t,
                        on_disk@,
                        k,
                    ) by {
                        assert(taken@[k]);
                    }
                    assert(after.last().from@ == item.path@);
                    assert forall|i: int, j: int| 0 <= i < j < after.len() implies after[i].to@
                        != after[j].to@ by {
                        if j == after.len() - 1 {
                            assert(after[i] == before[i]);
                        }
                    }
                    assert forall|i: int| 0 <= i < after.len() implies goes_to_candidate(
                        dest,
                        bucket,
                        #[trigger] after[i],
                    ) by {
                        if i == after.len() - 1 {
                            assert(after[i].from@ == item.path@);
                            assert(after[i].to@ == candidate(
                                target_of(dest, bucket, after[i].from@),
                                n as nat,
                            ));
                        } else {
                            assert(after[i] == before[i]);
                        }
                    }
                    assert forall|i: int| 0 <= i < after.len() implies !path_starts_with(
                        #[trigger] after[i].from@,
                        dest,
                    ) by {
                        if i < after.len() - 1 {
                            assert(after[i] == before[i]);
                        }
                    }
                }
                PlanStep::Added
            },
        }
    }
}

} // verus!
