//! The event that a monitor emits on every tick, its encoding, and the
//! length-prefixed framing in which it travels to listeners.
use crate::config::string_views;
use vstd::prelude::*;

verus! {

/// How a local branch stands against one remote.
#[derive(Debug, Clone, Copy, PartialEq, Eq, Structural)]
pub enum Category {
    /// Neither side has commits that the other lacks.
    UpToDate,
    /// The local branch has this many commits that the remote lacks, and
    /// lacks none of the remote's.
    Ahead(u64),
    /// The remote has this many commits that the local branch lacks, and
    /// lacks none of the local ones.
    Behind(u64),
    /// Both sides have commits that the other lacks: the local count first.
    Diverged(u64, u64),
}

/// The category of an (ahead, behind) pair of commit counts.
pub open spec fn category_of(ahead: u64, behind: u64) -> Category {
    if ahead == 0 && behind == 0 {
        Category::UpToDate
    } else if behind == 0 {
        Category::Ahead(ahead)
    } else if ahead == 0 {
        Category::Behind(behind)
    } else {
        Category::Diverged(ahead, behind)
    }
}

/// The (ahead, behind) pair that a category stands for.
pub open spec fn counts_of(c: Category) -> (u64, u64) {
    match c {
        Category::UpToDate => (0, 0),
        Category::Ahead(a) => (a, 0),
        Category::Behind(b) => (0, b),
        Category::Diverged(a, b) => (a, b),
    }
}

impl Category {
    /// Classifies an (ahead, behind) pair of commit counts.
    pub fn from_counts(ahead: u64, behind: u64) -> (r: Category)
        ensures
            r == category_of(ahead, behind),
            counts_of(r) == (ahead, behind),
    {
        if ahead == 0 && behind == 0 {
            Category::UpToDate
        } else if behind == 0 {
            Category::Ahead(ahead)
        } else if ahead == 0 {
            Category::Behind(behind)
        } else {
            Category::Diverged(ahead, behind)
        }
    }

    /// The (ahead, behind) pair of commit counts of this category.
    pub fn counts(&self) -> (r: (u64, u64))
        ensures
            r == counts_of(*self),
    {
        match self {
            Category::UpToDate => (0, 0),
            Category::Ahead(a) => (*a, 0),
            Category::Behind(b) => (0, *b),
            Category::Diverged(a, b) => (*a, *b),
        }
    }
}

/// The standing of the local branch against one named remote.
#[derive(Debug)]
pub struct RemoteStatus {
    pub remote: String,
    pub category: Category,
}

/// One tick's report for a (repository, branch) pair: one status per
/// compared remote, all against the same local tip, and a random id.
#[derive(Debug)]
pub struct Event {
    repo: String,
    branch: String,
    id: u128,
    statuses: Vec<RemoteStatus>,
}

/// What an event holds, as values.
pub struct EventView {
    pub repo: Seq<char>,
    pub branch: Seq<char>,
    pub id: u128,
    pub statuses: Seq<(Seq<char>, Category)>,
}

/// The statuses as (remote name, category) pairs.
pub open spec fn status_views(s: Seq<RemoteStatus>) -> Seq<(Seq<char>, Category)> {
    s.map_values(|r: RemoteStatus| (r.remote@, r.category))
}

impl View for Event {
    type V = EventView;

    closed spec fn view(&self) -> EventView {
        EventView {
            repo: self.repo@,
            branch: self.branch@,
            id: self.id,
            statuses: status_views(self.statuses@),
        }
    }
}

/// The statuses for remotes `names` whose commit counts are `counts`,
/// position by position.
pub open spec fn statuses_of(names: Seq<Seq<char>>, counts: Seq<(u64, u64)>) -> Seq<
    (Seq<char>, Category),
> {
    Seq::new(names.len(), |i: int| (names[i], category_of(counts[i].0, counts[i].1)))
}

impl Event {
    /// Assembles an event from the remotes compared in one tick and their
    /// (ahead, behind) commit counts, position by position.
    pub fn new(
        repo: String,
        branch: String,
        id: u128,
        remotes: &Vec<String>,
        counts: &Vec<(u64, u64)>,
    ) -> (r: Event)
        requires
            remotes.len() == counts.len(),
        ensures
            r@.repo == repo@,
            r@.branch == branch@,
            r@.id == id,
            r@.statuses == statuses_of(string_views(remotes@), counts@),
    {
        let mut statuses: Vec<RemoteStatus> = Vec::new();
        let mut i: usize = 0;
        while i < remotes.len()
            invariant
                i <= remotes.len(),
                remotes.len() == counts.len(),
                status_views(statuses@) == statuses_of(string_views(remotes@), counts@).subrange(
                    0,
                    i as int,
                ),
            decreases remotes.len() - i,
        {
            let (ahead, behind) = counts[i];
            let remote = remotes[i].clone();
            let category = Category::from_counts(ahead, behind);
            let ghost before = statuses@;
            let ghost entry = (remote@, category);
            proof {
                assert(string_views(remotes@)[i as int] == remotes@[i as int]@);
                assert(entry == statuses_of(string_views(remotes@), counts@)[i as int]);
            }
            statuses.push(RemoteStatus { remote, category });
            proof {
                assert(status_views(statuses@) =~= status_views(before).push(entry));
                assert(status_views(statuses@) =~= statuses_of(string_views(remotes@), counts@).subrange(
                    0,
                    i + 1,
                ));
            }
            i = i + 1;
        }
        proof {
            assert(statuses_of(string_views(remotes@), counts@).subrange(0, i as int) =~= statuses_of(
                string_views(remotes@),
                counts@,
            ));
        }
        Event { repo, branch, id, statuses }
    }

    /// The repository's name.
    pub fn repo(&self) -> (r: &String)
        ensures
            r@ == self@.repo,
    {
        &self.repo
    }

    /// The branch's name.
    pub fn branch(&self) -> (r: &String)
        ensures
            r@ == self@.branch,
    {
        &self.branch
    }

    /// The event's id.
    pub fn id(&self) -> (r: u128)
        ensures
            r == self@.id,
    {
        self.id
    }

    /// The standing against each compared remote.
    pub fn statuses(&self) -> (r: &Vec<RemoteStatus>)
        ensures
            status_views(r@) == self@.statuses,
    {
        &self.statuses
    }
}

} // verus!
