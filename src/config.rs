//! The configuration a monitor is started from: a repository's remotes and
//! one tracked branch, with the checks that make it usable.
use vstd::prelude::*;

verus! {

/// A named remote repository.
pub struct Remote {
    pub name: String,
    pub url: String,
}

/// A tracked branch: its name, how often it is polled, and the remotes it is
/// compared against.
pub struct Branch {
    pub name: String,
    pub interval_ms: u64,
    pub remotes: Vec<String>,
}

/// Everything one monitor needs: where repositories live, the repository's
/// name and remotes, and the branch it watches.
pub struct MonitorConfig {
    basedir: String,
    repo_name: String,
    branch: Branch,
    remotes: Vec<Remote>,
}

/// Why a configuration cannot be monitored.
#[derive(Debug, PartialEq, Eq, Structural)]
pub enum ConfigError {
    /// The branch's poll interval is zero.
    ZeroInterval,
    /// The branch is compared against no remote.
    NoRemotes,
    /// The branch names a remote that the repository does not have.
    UnknownRemote,
    /// No remote is named `origin`, so the repository cannot be cloned.
    NoOrigin,
}

/// The name of the remote that a repository is cloned from.
pub open spec fn origin_name() -> Seq<char> {
    seq!['o', 'r', 'i', 'g', 'i', 'n']
}

/// The names of a sequence of remotes.
pub open spec fn remote_names(rs: Seq<Remote>) -> Seq<Seq<char>> {
    rs.map_values(|r: Remote| r.name@)
}

/// The names held by a sequence of strings.
pub open spec fn string_views(v: Seq<String>) -> Seq<Seq<char>> {
    v.map_values(|s: String| s@)
}

/// Whether a branch can be monitored against a repository's remotes: a
/// positive interval, at least one remote, and only remotes it has.
pub open spec fn branch_valid(b: Branch, remotes: Seq<Remote>) -> bool {
    &&& b.interval_ms > 0
    &&& b.remotes@.len() > 0
    &&& forall|i: int|
        0 <= i < b.remotes@.len() ==> remote_names(remotes).contains(#[trigger] b.remotes@[i]@)
}

/// The string "origin".
fn origin() -> (r: String)
    ensures
        r@ == origin_name(),
{
    let mut s = String::new();
    s.append("origin");
    proof {
        reveal_strlit("origin");
        assert(s@ =~= origin_name());
    }
    s
}

/// Whether `names` holds `name`.
pub(crate) fn contains_name(names: &Vec<String>, name: &String) -> (r: bool)
    ensures
        r == string_views(names@).contains(name@),
{
    let mut i: usize = 0;
    while i < names.len()
        invariant
            i <= names@.len(),
            forall|j: int| 0 <= j < i ==> names@[j]@ != name@,
        decreases names@.len() - i,
    {
        if names[i] == *name {
            proof {
                assert(string_views(names@)[i as int] == name@);
            }
            return true;
        }
        i = i + 1;
    }
    proof {
        if string_views(names@).contains(name@) {
            let j = choose|j: int| 0 <= j < string_views(names@).len() && string_views(names@)[j] == name@;
            assert(names@[j]@ == name@);
        }
    }
    false
}

/// Whether `remotes` has a remote named `name`.
fn has_remote(remotes: &Vec<Remote>, name: &String) -> (r: bool)
    ensures
        r == remote_names(remotes@).contains(name@),
{
    let mut i: usize = 0;
    while i < remotes.len()
        invariant
            i <= remotes@.len(),
            forall|j: int| 0 <= j < i ==> remotes@[j].name@ != name@,
        decreases remotes@.len() - i,
    {
        if remotes[i].name == *name {
            proof {
                assert(remote_names(remotes@)[i as int] == name@);
            }
            return true;
        }
        i = i + 1;
    }
    proof {
        if remote_names(remotes@).contains(name@) {
            let j = choose|j: int| 0 <= j < remote_names(remotes@).len() && remote_names(remotes@)[j] == name@;
            assert(remotes@[j].name@ == name@);
        }
    }
    false
}

/// The position of the last remote named `origin`, the one a missing
/// repository is cloned from; an error where there is none.
pub fn find_origin(remotes: &Vec<Remote>) -> (r: Result<usize, ConfigError>)
    ensures
        r is Err <==> !remote_names(remotes@).contains(origin_name()),
        r is Err ==> r == Err::<usize, ConfigError>(ConfigError::NoOrigin),
        r is Ok ==> {
            let i = r->Ok_0 as int;
            &&& 0 <= i < remotes@.len()
            &&& remotes@[i].name@ == origin_name()
            &&& forall|j: int| i < j < remotes@.len() ==> remotes@[j].name@ != origin_name()
        },
{
    let o = origin();
    let mut i: usize = remotes.len();
    while i > 0
        invariant
            i <= remotes@.len(),
            o@ == origin_name(),
            forall|j: int| i <= j < remotes@.len() ==> remotes@[j].name@ != origin_name(),
        decreases i,
    {
        i = i - 1;
        if remotes[i].name == o {
            proof {
                assert(remote_names(remotes@)[i as int] == origin_name());
            }
            return Ok(i);
        }
    }
    proof {
        if remote_names(remotes@).contains(origin_name()) {
            let j = choose|j: int| 0 <= j < remote_names(remotes@).len() && remote_names(remotes@)[j] == origin_name();
            assert(remotes@[j].name@ == origin_name());
        }
    }
    Err(ConfigError::NoOrigin)
}

/// Whether the remote at position `i` shares its name with one at an
/// earlier position.
pub open spec fn named_earlier(rs: Seq<Remote>, i: int) -> bool {
    exists|j: int| 0 <= j < i && #[trigger] rs[j].name@ == rs[i].name@
}

/// Whether the remote at position `i` of `configured` must be added to a
/// repository whose remotes are `existing`: it is not `origin`, no existing
/// remote has its name, and no earlier configured remote does either, so
/// each missing name is added once.
pub open spec fn must_add(configured: Seq<Remote>, existing: Seq<Seq<char>>, i: int) -> bool {
    &&& configured[i].name@ != origin_name()
    &&& !existing.contains(configured[i].name@)
    &&& !named_earlier(configured, i)
}

/// Whether the remote at position `i` shares its name with an earlier one.
fn is_named_earlier(rs: &Vec<Remote>, i: usize) -> (r: bool)
    requires
        i < rs@.len(),
    ensures
        r == named_earlier(rs@, i as int),
{
    let mut j: usize = 0;
    while j < i
        invariant
            i < rs@.len(),
            j <= i,
            forall|k: int| 0 <= k < j ==> #[trigger] rs@[k].name@ != rs@[i as int].name@,
        decreases i - j,
    {
        if rs[j].name == rs[i].name {
            return true;
        }
        j = j + 1;
    }
    false
}

/// The positions, in order, of the configured remotes that a repository
/// still lacks: each name other than `origin` that is not among `existing`,
/// at its first position.
pub fn remotes_to_add(configured: &Vec<Remote>, existing: &Vec<String>) -> (r: Vec<usize>)
    ensures
        forall|a: int, b: int| 0 <= a < b < r@.len() ==> r@[a] < r@[b],
        forall|k: int| 0 <= k < r@.len() ==> #[trigger] r@[k] < configured@.len(),
        forall|i: int|
            0 <= i < configured@.len() ==> (r@.contains(i as usize) <==> must_add(
                configured@,
                string_views(existing@),
                i,
            )),
{
    let o = origin();
    let mut r: Vec<usize> = Vec::new();
    let mut i: usize = 0;
    while i < configured.len()
        invariant
            i <= configured@.len(),
            o@ == origin_name(),
            forall|a: int, b: int| 0 <= a < b < r@.len() ==> r@[a] < r@[b],
            forall|k: int| 0 <= k < r@.len() ==> #[trigger] r@[k] < i,
            forall|j: int|
                0 <= j < i ==> (r@.contains(j as usize) <==> must_add(
                    configured@,
                    string_views(existing@),
                    j,
                )),
        decreases configured@.len() - i,
    {
        let name = &configured[i].name;
        let wanted = !(*name == o) && !contains_name(existing, name) && !is_named_earlier(
            configured,
            i,
        );
        let ghost before = r@;
        if wanted {
            r.push(i);
        }
        proof {
            assert forall|j: int| 0 <= j < i + 1 implies (r@.contains(j as usize) <==> must_add(
                configured@,
                string_views(existing@),
                j,
            )) by {
                if j < i {
                    if before.contains(j as usize) {
                        let k = choose|k: int| 0 <= k < before.len() && before[k] == j as usize;
                        assert(r@[k] == j as usize);
                    }
                    if r@.contains(j as usize) {
                        let k = choose|k: int| 0 <= k < r@.len() && r@[k] == j as usize;
                        if k < before.len() {
                            assert(before[k] == j as usize);
                        }
                    }
                } else {
                    if wanted {
                        assert(r@[r@.len() - 1] == i);
                    }
                    if r@.contains(i) {
                        let k = choose|k: int| 0 <= k < r@.len() && r@[k] == i;
                        if k < before.len() {
                            assert(before[k] < i);
                        }
                    }
                }
            }
        }
        i = i + 1;
    }
    r
}

impl MonitorConfig {
    /// A configuration for repositories under `basedir`, with no repository,
    /// branch or remote chosen yet.
    pub fn new(basedir: &str) -> (r: MonitorConfig)
        ensures
            r.basedir()@ == basedir@,
            r.repo_name()@.len() == 0,
            r.branch().name@.len() == 0,
            r.branch().interval_ms == 0,
            r.branch().remotes@.len() == 0,
            r.remotes()@.len() == 0,
    {
        MonitorConfig {
            basedir: String::from_str(basedir),
            repo_name: String::new(),
            branch: Branch { name: String::new(), interval_ms: 0, remotes: Vec::new() },
            remotes: Vec::new(),
        }
    }

    /// The directory under which repositories are discovered or cloned.
    pub closed spec fn spec_basedir(&self) -> &String {
        &self.basedir
    }

    /// The repository's name.
    pub closed spec fn spec_repo_name(&self) -> &String {
        &self.repo_name
    }

    /// The watched branch.
    pub closed spec fn spec_branch(&self) -> &Branch {
        &self.branch
    }

    /// The repository's remotes.
    pub closed spec fn spec_remotes(&self) -> &Vec<Remote> {
        &self.remotes
    }

    /// The directory under which repositories are discovered or cloned.
    #[verifier::when_used_as_spec(spec_basedir)]
    pub fn basedir(&self) -> (r: &String)
        ensures
            r == self.spec_basedir(),
    {
        &self.basedir
    }

    /// The repository's name.
    #[verifier::when_used_as_spec(spec_repo_name)]
    pub fn repo_name(&self) -> (r: &String)
        ensures
            r == self.spec_repo_name(),
    {
        &self.repo_name
    }

    /// The watched branch.
    #[verifier::when_used_as_spec(spec_branch)]
    pub fn branch(&self) -> (r: &Branch)
        ensures
            r == self.spec_branch(),
    {
        &self.branch
    }

    /// The repository's remotes.
    #[verifier::when_used_as_spec(spec_remotes)]
    pub fn remotes(&self) -> (r: &Vec<Remote>)
        ensures
            r == self.spec_remotes(),
    {
        &self.remotes
    }

    /// Names the repository.
    pub fn set_repo_name(&mut self, repo_name: String)
        ensures
            final(self).repo_name() == repo_name,
            final(self).basedir() == old(self).basedir(),
            final(self).branch() == old(self).branch(),
            final(self).remotes() == old(self).remotes(),
    {
        self.repo_name = repo_name;
    }

    /// Chooses the watched branch.
    pub fn set_branch(&mut self, branch: Branch)
        ensures
            final(self).branch() == branch,
            final(self).basedir() == old(self).basedir(),
            final(self).repo_name() == old(self).repo_name(),
            final(self).remotes() == old(self).remotes(),
    {
        self.branch = branch;
    }

    /// Sets the repository's remotes.
    pub fn set_remotes(&mut self, remotes: Vec<Remote>)
        ensures
            final(self).remotes() == remotes,
            final(self).basedir() == old(self).basedir(),
            final(self).repo_name() == old(self).repo_name(),
            final(self).branch() == old(self).branch(),
    {
        self.remotes = remotes;
    }

    /// Checks that the branch can be monitored: a positive interval, at least
    /// one remote, and only remotes that the repository has. The first
    /// failing check names the error.
    pub fn validate(&self) -> (r: Result<(), ConfigError>)
        ensures
            r is Ok <==> branch_valid(*self.branch(), self.remotes()@),
            self.branch().interval_ms == 0 ==> r == Err::<(), ConfigError>(ConfigError::ZeroInterval),
            self.branch().interval_ms > 0 && self.branch().remotes@.len() == 0 ==> r == Err::<
                (),
                ConfigError,
            >(ConfigError::NoRemotes),
            self.branch().interval_ms > 0 && self.branch().remotes@.len() > 0 && !branch_valid(
                *self.branch(),
                self.remotes()@,
            ) ==> r == Err::<(), ConfigError>(ConfigError::UnknownRemote),
    {
        if self.branch.interval_ms == 0 {
            return Err(ConfigError::ZeroInterval);
        }
        if self.branch.remotes.len() == 0 {
            return Err(ConfigError::NoRemotes);
        }
        let mut i: usize = 0;
        while i < self.branch.remotes.len()
            invariant
                i <= self.branch.remotes@.len(),
                self.branch.interval_ms > 0,
                forall|j: int|
                    0 <= j < i ==> remote_names(self.remotes@).contains(
                        #[trigger] self.branch.remotes@[j]@,
                    ),
            decreases self.branch.remotes@.len() - i,
        {
            if !has_remote(&self.remotes, &self.branch.remotes[i]) {
                return Err(ConfigError::UnknownRemote);
            }
            i = i + 1;
        }
        Ok(())
    }
}

} // verus!
