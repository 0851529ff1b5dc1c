//! The inspection of one subscription, one request at a time.
//!
//! A [`Scan`] arrives at the rows of a subscription without a model of the
//! project: it says what it needs, the caller obtains it, and the scan goes
//! on. Its contract ties every step to the course that the inspection takes
//! over any project that would have given the same answers.

use crate::blob::{base64_decoded, git_blob_decode};
use crate::dict::Dict;
use crate::endpoint::{blob_url, commit_url, environments_address, environments_url, object_address, tree_url};
use crate::error::Error;
use crate::inspection::{
    after_lock, after_make, after_versions, files_filter, from_commit, from_dir, from_file, from_manifest,
    from_root, from_search, from_services, from_versions, locks_from, makes_from, manifests_from, only_rows,
    outcome, parsed_types, tree_requests, versions_after_locks, Context, Course, Merge, Outcome, Project, Wanted,
};
use crate::makefile::merge_make;
use crate::model::{ComposerLock, Environment, GitBlob, GitCommit, GitTree, PlatformApp, PlatformService, Subscription};
use crate::report::{
    bare_row, degraded_row, drupal, engine_writes, engines_of, first_main, is_lock_of, is_make_of, is_manifest,
    lock_beside, main_position, make_beside, manifest, manifest_filter, merge_lock, php, reports_view,
    service_versions, Report, ReportView, SEARCH_DEPTH, SERVICES_DIR, SERVICES_FILE,
};
use crate::search::{
    items_view, lookup_path, results_view, search, GitSearchResult, GitSearchResultView, TreeSearch, Walk,
};
use crate::text::strings_view;
use crate::trail::{lemma_after_after, Trail};
use vstd::prelude::*;

verus! {

/// What a scan needs next: an object of the API by its address, or the
/// parse of some bytes.
pub enum Request<'a> {
    Environments { url: String },
    Commit { url: String, sha: &'a str },
    Tree { url: String, sha: &'a str },
    Blob { url: String, sha: &'a str },
    Services { bytes: &'a Vec<u8> },
    Manifest { bytes: &'a Vec<u8> },
    Lock { bytes: &'a Vec<u8> },
    Nothing,
}

impl<'a> Request<'a> {
    /// What is asked for.
    pub open spec fn wanted(self) -> Wanted {
        match self {
            Request::Environments { url } => Wanted::Environments,
            Request::Commit { url, sha } => Wanted::Commit(sha@),
            Request::Tree { url, sha } => Wanted::Tree(sha@),
            Request::Blob { url, sha } => Wanted::Blob(sha@),
            Request::Services { bytes } => Wanted::Services(bytes@),
            Request::Manifest { bytes } => Wanted::Manifest(bytes@),
            Request::Lock { bytes } => Wanted::Lock(bytes@),
            Request::Nothing => Wanted::Nothing,
        }
    }

    /// Whether the address of the request is that of its object in the
    /// project `project`.
    pub open spec fn addressed(self, project: Seq<char>) -> bool {
        match self {
            Request::Environments { url } => url@ == environments_address(project),
            Request::Commit { url, sha } => url@ == object_address(project, "commits"@, sha@),
            Request::Tree { url, sha } => url@ == object_address(project, "trees"@, sha@),
            Request::Blob { url, sha } => url@ == object_address(project, "blobs"@, sha@),
            _ => true,
        }
    }
}

/// What the caller has obtained for a scan. A list of environments that
/// could not be had, and a file that did not parse, are `None`.
pub enum Answer {
    Environments(Option<Vec<Environment>>),
    Commit(GitCommit),
    Tree(GitTree),
    Blob(GitBlob),
    Services(Option<Vec<(String, PlatformService)>>),
    Manifest(Option<PlatformApp>),
    Lock(Option<ComposerLock>),
}

/// Whether an answer is of the kind that was asked for.
pub open spec fn fits(wanted: Wanted, answer: Answer) -> bool {
    match (wanted, answer) {
        (Wanted::Environments, Answer::Environments(_)) => true,
        (Wanted::Commit(_), Answer::Commit(_)) => true,
        (Wanted::Tree(_), Answer::Tree(_)) => true,
        (Wanted::Blob(_), Answer::Blob(_)) => true,
        (Wanted::Services(_), Answer::Services(_)) => true,
        (Wanted::Manifest(_), Answer::Manifest(_)) => true,
        (Wanted::Lock(_), Answer::Lock(_)) => true,
        _ => false,
    }
}

/// Whether an answer is what the project holds for the question.
pub open spec fn answers(project: Project, wanted: Wanted, answer: Answer) -> bool {
    match (wanted, answer) {
        (Wanted::Environments, Answer::Environments(listed)) => match listed {
            Some(environments) => project.environments == Some(environments@),
            None => project.environments is None,
        },
        (Wanted::Commit(sha), Answer::Commit(commit)) => project.commits.contains_key(sha)
            && project.commits[sha] == commit.tree@,
        (Wanted::Tree(sha), Answer::Tree(tree)) => project.graph.contains_key(sha) && project.graph[sha]
            == items_view(tree.tree@),
        (Wanted::Blob(sha), Answer::Blob(blob)) => project.blobs.contains_key(sha) && project.blobs[sha]
            == blob.content@,
        (Wanted::Services(bytes), Answer::Services(parsed)) => (project.parse_services)(bytes) == match parsed {
            Some(definitions) => Some(definitions@),
            None => None,
        },
        (Wanted::Manifest(bytes), Answer::Manifest(parsed)) => (project.parse_manifest)(bytes) == parsed,
        (Wanted::Lock(bytes), Answer::Lock(parsed)) => (project.parse_lock)(bytes) == parsed,
        _ => false,
    }
}

/// Whether a request is for an object that the project does not hold.
pub open spec fn lacks(project: Project, wanted: Wanted) -> bool {
    match wanted {
        Wanted::Commit(sha) => !project.commits.contains_key(sha),
        Wanted::Tree(sha) => !project.graph.contains_key(sha),
        Wanted::Blob(sha) => !project.blobs.contains_key(sha),
        _ => false,
    }
}

/// What a scan has gathered.
pub struct Findings {
    pub rows: Vec<Report>,
    /// The full paths of the manifests that could not be read.
    pub unreadable: Vec<String>,
    /// The engine of every service definition that names one.
    pub engines: Vec<String>,
}

impl View for Findings {
    type V = Outcome;

    open spec fn view(&self) -> Outcome {
        Outcome {
            rows: reports_view(self.rows@),
            unreadable: strings_view(self.unreadable@),
            engines: strings_view(self.engines@),
        }
    }
}

spec fn resume_makes(
    project: Project,
    context: Context,
    items: Seq<GitSearchResultView>,
    m: int,
    app: PlatformApp,
    k: int,
    versions: Map<Seq<char>, Seq<char>>,
    out: Outcome,
) -> Course {
    after_versions(project, context, items, m, app, makes_from(project, items, m, k, versions), out)
}

spec fn resume_locks(
    project: Project,
    context: Context,
    items: Seq<GitSearchResultView>,
    m: int,
    app: PlatformApp,
    j: int,
    versions: Map<Seq<char>, Seq<char>>,
    out: Outcome,
) -> Course {
    after_versions(
        project,
        context,
        items,
        m,
        app,
        versions_after_locks(project, items, m, app, locks_from(project, context.aliases, items, m, j, versions)),
        out,
    )
}

proof fn lemma_versions_after(
    project: Project,
    context: Context,
    items: Seq<GitSearchResultView>,
    m: int,
    app: PlatformApp,
    merged: Merge,
    before: Seq<Wanted>,
    out: Outcome,
)
    ensures
        after_versions(project, context, items, m, app, merged.after(before), out) == after_versions(
            project,
            context,
            items,
            m,
            app,
            merged,
            out,
        ).after(before),
        versions_after_locks(project, items, m, app, merged.after(before)) == versions_after_locks(
            project,
            items,
            m,
            app,
            merged,
        ).after(before),
{
    if let Some(versions) = merged.value {
        lemma_after_after(from_versions(project, context, items, m, app, versions, out), before, merged.asked);
        lemma_after_after(makes_from(project, items, m, 0, versions), before, merged.asked);
    }
}

proof fn lemma_resume_after(
    project: Project,
    context: Context,
    items: Seq<GitSearchResultView>,
    m: int,
    app: PlatformApp,
    merged: Merge,
    before: Seq<Wanted>,
    out: Outcome,
)
    ensures
        after_versions(
            project,
            context,
            items,
            m,
            app,
            versions_after_locks(project, items, m, app, merged.after(before)),
            out,
        ) == after_versions(
            project,
            context,
            items,
            m,
            app,
            versions_after_locks(project, items, m, app, merged),
            out,
        ).after(before),
{
    lemma_versions_after(project, context, items, m, app, merged, before, out);
    lemma_versions_after(
        project,
        context,
        items,
        m,
        app,
        versions_after_locks(project, items, m, app, merged),
        before,
        out,
    );
}

proof fn lemma_search_after(
    project: Project,
    subscription: Subscription,
    environment: Environment,
    aliases: Map<Seq<char>, Seq<char>>,
    services: Map<Seq<char>, Seq<char>>,
    engines: Seq<Seq<char>>,
    walk: Walk,
    tree: Seq<char>,
)
    ensures
        from_search(project, subscription, environment, aliases, services, engines, walk.after(seq![tree]))
            == from_search(project, subscription, environment, aliases, services, engines, walk).after(
            seq![Wanted::Tree(tree)],
        ),
{
    assert(tree_requests(seq![tree] + walk.asked) == seq![Wanted::Tree(tree)] + tree_requests(walk.asked));
    if let Some(items) = walk.value {
        lemma_after_after(
            manifests_from(
                project,
                Context { subscription, environment, aliases, services },
                items,
                0,
                Outcome { rows: Seq::empty(), unreadable: Seq::empty(), engines },
            ),
            seq![Wanted::Tree(tree)],
            tree_requests(walk.asked),
        );
    }
}

#[derive(Clone, Copy, PartialEq, Eq, Structural)]
enum Phase {
    Environments,
    Commit,
    RootTree,
    ServicesDir,
    ServicesBlob,
    ServicesParse,
    Search,
    ManifestBlob,
    ManifestParse,
    LockBlob,
    LockParse,
    MakeBlob,
    Done,
}

/// The inspection of one subscription in progress.
///
/// While [`Scan::request`] asks for something, the caller obtains it and
/// hands it to [`Scan::step`]. When nothing is asked for any more,
/// [`Scan::finish`] has the rows.
pub struct Scan {
    subscription: Subscription,
    aliases: Dict<String>,
    phase: Phase,
    environment: Option<Environment>,
    root: String,
    /// The object of the service lookup that is waited for.
    object: String,
    /// The bytes whose parse is waited for.
    bytes: Vec<u8>,
    services: Dict<String>,
    engines: Vec<String>,
    search: TreeSearch,
    items: Vec<GitSearchResult>,
    manifest: usize,
    sibling: usize,
    app: Option<PlatformApp>,
    versions: Dict<String>,
    rows: Vec<Report>,
    unreadable: Vec<String>,
}

impl Scan {
    spec fn context(&self) -> Context {
        Context {
            subscription: self.subscription,
            environment: self.environment->0,
            aliases: self.aliases@,
            services: self.services@,
        }
    }

    spec fn matched(&self) -> Seq<GitSearchResultView> {
        results_view(self.items@)
    }

    /// What the scan has gathered so far.
    pub closed spec fn gathered(&self) -> Outcome {
        Outcome {
            rows: reports_view(self.rows@),
            unreadable: strings_view(self.unreadable@),
            engines: strings_view(self.engines@),
        }
    }

    /// The subscription that is inspected.
    pub closed spec fn subject(&self) -> Subscription {
        self.subscription
    }

    /// The alias table that package names are resolved with.
    pub closed spec fn table(&self) -> Map<Seq<char>, Seq<char>> {
        self.aliases@
    }

    spec fn at_manifest(&self) -> bool {
        &&& self.environment is Some
        &&& self.manifest < self.items@.len()
        &&& is_manifest(self.matched()[self.manifest as int])
    }

    spec fn at_sibling(&self) -> bool {
        &&& self.at_manifest()
        &&& self.app is Some
        &&& self.sibling < self.items@.len()
    }

    spec fn unsearched(&self) -> bool {
        self.rows@.len() == 0 && self.unreadable@.len() == 0
    }

    spec fn fresh(&self) -> bool {
        self.unsearched() && self.engines@.len() == 0 && self.services@ == Map::<Seq<char>, Seq<char>>::empty()
    }

    /// The invariant of a scan.
    pub closed spec fn wf(&self) -> bool {
        match self.phase {
            Phase::Environments => self.fresh(),
            Phase::Commit => self.fresh() && self.environment is Some && self.environment->0.head_commit is Some,
            Phase::RootTree => self.fresh() && self.environment is Some,
            Phase::ServicesDir => self.fresh() && self.environment is Some,
            Phase::ServicesBlob => self.fresh() && self.environment is Some,
            Phase::ServicesParse => self.fresh() && self.environment is Some,
            Phase::Search => self.unsearched() && self.environment is Some && self.search.wf()
                && self.search.wanted() is Some,
            Phase::ManifestBlob => self.at_manifest(),
            Phase::ManifestParse => self.at_manifest(),
            Phase::LockBlob => self.at_sibling() && is_lock_of(
                self.matched()[self.sibling as int],
                self.matched()[self.manifest as int],
            ),
            Phase::LockParse => self.at_sibling(),
            Phase::MakeBlob => self.at_sibling() && is_make_of(
                self.matched()[self.sibling as int],
                self.matched()[self.manifest as int],
            ),
            Phase::Done => true,
        }
    }

    /// What the scan asks for.
    pub closed spec fn wanted(&self) -> Wanted {
        match self.phase {
            Phase::Environments => Wanted::Environments,
            Phase::Commit => Wanted::Commit(self.environment->0.head_commit->0@),
            Phase::RootTree => Wanted::Tree(self.root@),
            Phase::ServicesDir => Wanted::Tree(self.object@),
            Phase::ServicesBlob => Wanted::Blob(self.object@),
            Phase::ServicesParse => Wanted::Services(self.bytes@),
            Phase::Search => Wanted::Tree(self.search.wanted()->0),
            Phase::ManifestBlob => Wanted::Blob(self.matched()[self.manifest as int].sha),
            Phase::ManifestParse => Wanted::Manifest(self.bytes@),
            Phase::LockBlob => Wanted::Blob(self.matched()[self.sibling as int].sha),
            Phase::LockParse => Wanted::Lock(self.bytes@),
            Phase::MakeBlob => Wanted::Blob(self.matched()[self.sibling as int].sha),
            Phase::Done => Wanted::Nothing,
        }
    }

    /// The rest of the inspection over a given project: what the scan will
    /// still ask for, the present request first, and what it yields in the
    /// end, what it has gathered so far included.
    pub closed spec fn expected(&self, project: Project) -> Course {
        let subscription = self.subscription;
        let environment = self.environment->0;
        let aliases = self.aliases@;
        let m = self.manifest as int;
        match self.phase {
            Phase::Environments => outcome(project, subscription, aliases),
            Phase::Commit => from_commit(project, subscription, environment, aliases, environment.head_commit->0@),
            Phase::RootTree => from_root(project, subscription, environment, aliases, self.root@),
            Phase::ServicesDir => from_dir(project, subscription, environment, aliases, self.root@, self.object@),
            Phase::ServicesBlob => from_file(
                project,
                subscription,
                environment,
                aliases,
                self.root@,
                self.object@,
            ),
            Phase::ServicesParse => from_services(
                project,
                subscription,
                environment,
                aliases,
                self.root@,
                parsed_types((project.parse_services)(self.bytes@)),
            ).asking(Wanted::Services(self.bytes@), true),
            Phase::Search => from_search(
                project,
                subscription,
                environment,
                aliases,
                self.services@,
                strings_view(self.engines@),
                self.search.expected(project.graph),
            ),
            Phase::ManifestBlob => manifests_from(project, self.context(), self.matched(), m, self.gathered()),
            Phase::ManifestParse => from_manifest(
                project,
                self.context(),
                self.matched(),
                m,
                (project.parse_manifest)(self.bytes@),
                self.gathered(),
            ).asking(Wanted::Manifest(self.bytes@), true),
            Phase::LockBlob => resume_locks(
                project,
                self.context(),
                self.matched(),
                m,
                self.app->0,
                self.sibling as int,
                self.versions@,
                self.gathered(),
            ),
            Phase::LockParse => resume_locks(
                project,
                self.context(),
                self.matched(),
                m,
                self.app->0,
                self.sibling + 1,
                after_lock(aliases, (project.parse_lock)(self.bytes@), self.versions@),
                self.gathered(),
            ).asking(Wanted::Lock(self.bytes@), true),
            Phase::MakeBlob => resume_makes(
                project,
                self.context(),
                self.matched(),
                m,
                self.app->0,
                self.sibling as int,
                self.versions@,
                self.gathered(),
            ),
            Phase::Done => Trail::done(self.gathered()),
        }
    }

    /// A scan that asks for nothing is over: it will ask for nothing more,
    /// and what it yields is what it has gathered.
    pub proof fn lemma_finished(&self, project: Project)
        requires
            self.wanted() is Nothing,
        ensures
            self.expected(project) == Course::done(self.gathered()),
    {
    }

    /// A scan that asks for something has that request before it. Where the
    /// request is for an object that the project lacks, the scan is stuck
    /// there.
    pub proof fn lemma_waiting(&self, project: Project)
        requires
            self.wf(),
            !(self.wanted() is Nothing),
        ensures
            self.expected(project).asked.len() > 0,
            self.expected(project).asked[0] == self.wanted(),
            lacks(project, self.wanted()) ==> self.expected(project) == Course::stuck(self.wanted()),
    {
        let context = self.context();
        let items = self.matched();
        let m = self.manifest as int;
        match self.phase {
            Phase::Search => {
                self.search.lemma_waiting(project.graph);
                let walk = self.search.expected(project.graph);
                assert(tree_requests(walk.asked)[0] == Wanted::Tree(walk.asked[0]));
                if lacks(project, self.wanted()) {
                    assert(tree_requests(walk.asked) == seq![self.wanted()]);
                }
            },
            Phase::LockBlob => {
                let first = locks_from(project, context.aliases, items, m, self.sibling as int, self.versions@);
                assert(first.asked[0] == self.wanted());
                let merged = versions_after_locks(project, items, m, self.app->0, first);
                assert(merged.asked[0] == self.wanted());
            },
            Phase::MakeBlob => {
                let first = makes_from(project, items, m, self.sibling as int, self.versions@);
                assert(first.asked[0] == self.wanted());
            },
            _ => {},
        }
    }

    /// The inspection of `subscription`, with `aliases` as the table from
    /// package names to the names they are reported under.
    pub fn new(subscription: Subscription, aliases: Dict<String>) -> (r: Self)
        ensures
            r.wf(),
            r.subject() == subscription,
            r.table() == aliases@,
            r.wanted() is Environments,
            forall|project: Project| #[trigger] r.expected(project) == outcome(project, subscription, aliases@),
    {
        Scan {
            subscription,
            aliases,
            phase: Phase::Environments,
            environment: None,
            root: String::new(),
            object: String::new(),
            bytes: Vec::new(),
            services: Dict::new(),
            engines: Vec::new(),
            search: TreeSearch::new("", manifest_filter(), 0, String::new()),
            items: Vec::new(),
            manifest: 0,
            sibling: 0,
            app: None,
            versions: Dict::new(),
            rows: Vec::new(),
            unreadable: Vec::new(),
        }
    }

    /// What the scan needs next: an object of the project, with the address
    /// to fetch it from, or the parse of some bytes.
    pub fn request(&self) -> (r: Request<'_>)
        requires
            self.wf(),
        ensures
            r.wanted() == self.wanted(),
            r.addressed(self.subject().project_id@),
    {
        let project = self.subscription.project_id.as_str();
        match self.phase {
            Phase::Environments => Request::Environments { url: environments_url(project) },
            Phase::Commit => match &self.environment {
                Some(environment) => match &environment.head_commit {
                    Some(sha) => Request::Commit { url: commit_url(project, sha.as_str()), sha: sha.as_str() },
                    None => Request::Nothing,
                },
                None => Request::Nothing,
            },
            Phase::RootTree => Request::Tree { url: tree_url(project, self.root.as_str()), sha: self.root.as_str() },
            Phase::ServicesDir => Request::Tree {
                url: tree_url(project, self.object.as_str()),
                sha: self.object.as_str(),
            },
            Phase::ServicesBlob => Request::Blob {
                url: blob_url(project, self.object.as_str()),
                sha: self.object.as_str(),
            },
            Phase::ServicesParse => Request::Services { bytes: &self.bytes },
            Phase::Search => match self.search.request() {
                Some(sha) => Request::Tree { url: tree_url(project, sha), sha },
                None => Request::Nothing,
            },
            Phase::ManifestBlob => {
                let sha = self.items[self.manifest].sha.as_str();
                Request::Blob { url: blob_url(project, sha), sha }
            },
            Phase::ManifestParse => Request::Manifest { bytes: &self.bytes },
            Phase::LockBlob => {
                let sha = self.items[self.sibling].sha.as_str();
                Request::Blob { url: blob_url(project, sha), sha }
            },
            Phase::LockParse => Request::Lock { bytes: &self.bytes },
            Phase::MakeBlob => {
                let sha = self.items[self.sibling].sha.as_str();
                Request::Blob { url: blob_url(project, sha), sha }
            },
            Phase::Done => Request::Nothing,
        }
    }

    /// What has been gathered. Once the scan asks for nothing, this is all.
    pub fn finish(self) -> (r: Findings)
        ensures
            r@ == self.gathered(),
    {
        Findings { rows: self.rows, unreadable: self.unreadable, engines: self.engines }
    }
}

/// The first manifest among the matches from `from` on, or their number if
/// there is none.
fn next_manifest(items: &Vec<GitSearchResult>, from: usize) -> (r: usize)
    requires
        from <= items.len(),
    ensures
        from <= r <= items.len(),
        r < items.len() ==> is_manifest(results_view(items@)[r as int]),
        forall|j: int| from <= j < r ==> !is_manifest(#[trigger] results_view(items@)[j]),
{
    let mut i = from;
    while i < items.len() && !manifest(&items[i])
        invariant
            from <= i <= items.len(),
            forall|j: int| from <= j < i ==> !is_manifest(#[trigger] results_view(items@)[j]),
        decreases items.len() - i,
    {
        i += 1;
    }
    i
}

/// The first lock file beside the manifest `items[m]` from `from` on, or the
/// number of matches if there is none.
fn next_lock(items: &Vec<GitSearchResult>, m: usize, from: usize) -> (r: usize)
    requires
        m < items.len(),
        from <= items.len(),
    ensures
        from <= r <= items.len(),
        r < items.len() ==> is_lock_of(results_view(items@)[r as int], results_view(items@)[m as int]),
        forall|j: int|
            from <= j < r ==> !is_lock_of(#[trigger] results_view(items@)[j], results_view(items@)[m as int]),
{
    let mut i = from;
    while i < items.len() && !lock_beside(&items[i], &items[m])
        invariant
            m < items.len(),
            from <= i <= items.len(),
            forall|j: int|
                from <= j < i ==> !is_lock_of(#[trigger] results_view(items@)[j], results_view(items@)[m as int]),
        decreases items.len() - i,
    {
        i += 1;
    }
    i
}

/// The first make file beside the manifest `items[m]` from `from` on, or the
/// number of matches if there is none.
fn next_make(items: &Vec<GitSearchResult>, m: usize, from: usize) -> (r: usize)
    requires
        m < items.len(),
        from <= items.len(),
    ensures
        from <= r <= items.len(),
        r < items.len() ==> is_make_of(results_view(items@)[r as int], results_view(items@)[m as int]),
        forall|j: int|
            from <= j < r ==> !is_make_of(#[trigger] results_view(items@)[j], results_view(items@)[m as int]),
{
    let mut i = from;
    while i < items.len() && !make_beside(&items[i], &items[m])
        invariant
            m < items.len(),
            from <= i <= items.len(),
            forall|j: int|
                from <= j < i ==> !is_make_of(#[trigger] results_view(items@)[j], results_view(items@)[m as int]),
        decreases items.len() - i,
    {
        i += 1;
    }
    i
}

proof fn lemma_skip_to_manifest(
    project: Project,
    context: Context,
    items: Seq<GitSearchResultView>,
    from: int,
    to: int,
    out: Outcome,
)
    requires
        0 <= from <= to <= items.len(),
        forall|j: int| from <= j < to ==> !is_manifest(#[trigger] items[j]),
    ensures
        manifests_from(project, context, items, from, out) == manifests_from(project, context, items, to, out),
    decreases to - from,
{
    if from < to {
        lemma_skip_to_manifest(project, context, items, from + 1, to, out);
    }
}

proof fn lemma_skip_to_lock(
    project: Project,
    aliases: Map<Seq<char>, Seq<char>>,
    items: Seq<GitSearchResultView>,
    m: int,
    from: int,
    to: int,
    versions: Map<Seq<char>, Seq<char>>,
)
    requires
        0 <= from <= to <= items.len(),
        forall|j: int| from <= j < to ==> !is_lock_of(#[trigger] items[j], items[m]),
    ensures
        locks_from(project, aliases, items, m, from, versions) == locks_from(
            project,
            aliases,
            items,
            m,
            to,
            versions,
        ),
    decreases to - from,
{
    if from < to {
        lemma_skip_to_lock(project, aliases, items, m, from + 1, to, versions);
    }
}

proof fn lemma_skip_to_make(
    project: Project,
    items: Seq<GitSearchResultView>,
    m: int,
    from: int,
    to: int,
    versions: Map<Seq<char>, Seq<char>>,
)
    requires
        0 <= from <= to <= items.len(),
        forall|j: int| from <= j < to ==> !is_make_of(#[trigger] items[j], items[m]),
    ensures
        makes_from(project, items, m, from, versions) == makes_from(project, items, m, to, versions),
    decreases to - from,
{
    if from < to {
        lemma_skip_to_make(project, items, m, from + 1, to, versions);
    }
}

impl Scan {
    /// Goes on to the next manifest, or ends the scan.
    fn seek_manifest(&mut self)
        requires
            old(self).environment is Some,
            old(self).manifest <= old(self).items@.len(),
        ensures
            final(self).wf(),
            final(self).subscription == old(self).subscription,
            final(self).aliases == old(self).aliases,
            forall|project: Project| #[trigger]
                final(self).expected(project) == manifests_from(
                    project,
                    old(self).context(),
                    old(self).matched(),
                    old(self).manifest as int,
                    old(self).gathered(),
                ),
    {
        let next = next_manifest(&self.items, self.manifest);
        proof {
            assert forall|project: Project|
                manifests_from(
                    project,
                    self.context(),
                    self.matched(),
                    next as int,
                    self.gathered(),
                ) == #[trigger] manifests_from(
                    project,
                    self.context(),
                    self.matched(),
                    self.manifest as int,
                    self.gathered(),
                ) by {
                lemma_skip_to_manifest(
                    project,
                    self.context(),
                    self.matched(),
                    self.manifest as int,
                    next as int,
                    self.gathered(),
                );
            }
        }
        self.manifest = next;
        if next < self.items.len() {
            self.phase = Phase::ManifestBlob;
        } else {
            self.phase = Phase::Done;
        }
    }

    /// Emits the row of the application at hand and goes on.
    fn close_app(&mut self)
        requires
            old(self).environment is Some,
            old(self).app is Some,
            old(self).manifest < old(self).items@.len(),
        ensures
            final(self).wf(),
            final(self).subscription == old(self).subscription,
            final(self).aliases == old(self).aliases,
            forall|project: Project| #[trigger]
                final(self).expected(project) == from_versions(
                    project,
                    old(self).context(),
                    old(self).matched(),
                    old(self).manifest as int,
                    old(self).app->0,
                    old(self).versions@,
                    old(self).gathered(),
                ),
    {
        let m = self.manifest;
        let n = self.items.len();
        assert(m < n);
        let mut versions: Dict<String> = Dict::new();
        core::mem::swap(&mut self.versions, &mut versions);
        let row = match (&self.environment, &self.app) {
            (Some(environment), Some(app)) => Report::for_app(
                &self.subscription,
                environment,
                app,
                versions,
                self.services.duplicate(),
            ),
            _ => Report::degraded(&self.subscription),
        };
        let ghost before = reports_view(self.rows@);
        self.rows.push(row);
        assert(reports_view(self.rows@) == before.push(row@));
        self.manifest = m + 1;
        self.seek_manifest();
    }

    /// Goes on to the next make file beside the manifest at hand, or closes
    /// the application.
    fn seek_make(&mut self)
        requires
            old(self).environment is Some,
            old(self).app is Some,
            old(self).manifest < old(self).items@.len(),
            is_manifest(old(self).matched()[old(self).manifest as int]),
            old(self).sibling <= old(self).items@.len(),
        ensures
            final(self).wf(),
            final(self).subscription == old(self).subscription,
            final(self).aliases == old(self).aliases,
            forall|project: Project| #[trigger]
                final(self).expected(project) == resume_makes(
                    project,
                    old(self).context(),
                    old(self).matched(),
                    old(self).manifest as int,
                    old(self).app->0,
                    old(self).sibling as int,
                    old(self).versions@,
                    old(self).gathered(),
                ),
    {
        let next = next_make(&self.items, self.manifest, self.sibling);
        proof {
            assert forall|project: Project|
                makes_from(project, self.matched(), self.manifest as int, next as int, self.versions@)
                    == #[trigger] makes_from(
                    project,
                    self.matched(),
                    self.manifest as int,
                    self.sibling as int,
                    self.versions@,
                ) by {
                lemma_skip_to_make(
                    project,
                    self.matched(),
                    self.manifest as int,
                    self.sibling as int,
                    next as int,
                    self.versions@,
                );
            }
        }
        self.sibling = next;
        if next < self.items.len() {
            self.phase = Phase::MakeBlob;
        } else {
            self.close_app();
        }
    }

    /// Goes on to the next lock file beside the manifest at hand; after the
    /// last one, to the make files or to the row.
    fn seek_lock(&mut self)
        requires
            old(self).environment is Some,
            old(self).app is Some,
            old(self).manifest < old(self).items@.len(),
            is_manifest(old(self).matched()[old(self).manifest as int]),
            old(self).sibling <= old(self).items@.len(),
        ensures
            final(self).wf(),
            final(self).subscription == old(self).subscription,
            final(self).aliases == old(self).aliases,
            forall|project: Project| #[trigger]
                final(self).expected(project) == resume_locks(
                    project,
                    old(self).context(),
                    old(self).matched(),
                    old(self).manifest as int,
                    old(self).app->0,
                    old(self).sibling as int,
                    old(self).versions@,
                    old(self).gathered(),
                ),
    {
        let next = next_lock(&self.items, self.manifest, self.sibling);
        proof {
            assert forall|project: Project|
                locks_from(
                    project,
                    self.aliases@,
                    self.matched(),
                    self.manifest as int,
                    next as int,
                    self.versions@,
                ) == #[trigger] locks_from(
                    project,
                    self.aliases@,
                    self.matched(),
                    self.manifest as int,
                    self.sibling as int,
                    self.versions@,
                ) by {
                lemma_skip_to_lock(
                    project,
                    self.aliases@,
                    self.matched(),
                    self.manifest as int,
                    self.sibling as int,
                    next as int,
                    self.versions@,
                );
            }
        }
        self.sibling = next;
        if next < self.items.len() {
            self.phase = Phase::LockBlob;
        } else {
            let with_makes = match &self.app {
                Some(app) => drupal(app),
                None => false,
            };
            if with_makes {
                self.sibling = 0;
                self.seek_make();
            } else {
                self.close_app();
            }
        }
    }

    /// Starts the search of the root tree.
    fn begin_search(&mut self)
        requires
            old(self).environment is Some,
            old(self).unsearched(),
        ensures
            final(self).wf(),
            final(self).subscription == old(self).subscription,
            final(self).aliases == old(self).aliases,
            forall|project: Project| #[trigger]
                final(self).expected(project) == from_search(
                    project,
                    old(self).subscription,
                    old(self).environment->0,
                    old(self).aliases@,
                    old(self).services@,
                    strings_view(old(self).engines@),
                    search(project.graph, files_filter(), old(self).root@, SEARCH_DEPTH as nat, Seq::empty()),
                ),
            old(self).fresh() ==> forall|project: Project| #[trigger]
                final(self).expected(project) == from_services(
                    project,
                    old(self).subscription,
                    old(self).environment->0,
                    old(self).aliases@,
                    old(self).root@,
                    Seq::empty(),
                ),
    {
        proof {
            if self.fresh() {
                assert(engine_writes(Seq::empty()) == Seq::<(Seq<char>, Seq<char>)>::empty());
                assert(strings_view(self.engines@) == engines_of(engine_writes(Seq::empty())));
            }
        }
        self.search = TreeSearch::new(self.root.as_str(), manifest_filter(), SEARCH_DEPTH, String::new());
        self.phase = Phase::Search;
    }

    /// Takes the matches of the finished search and goes on to the first
    /// manifest.
    fn harvest(&mut self)
        requires
            old(self).environment is Some,
            old(self).unsearched(),
            old(self).search.wf(),
            old(self).search.wanted() is None,
        ensures
            final(self).wf(),
            final(self).subscription == old(self).subscription,
            final(self).aliases == old(self).aliases,
            forall|project: Project| #[trigger]
                final(self).expected(project) == from_search(
                    project,
                    old(self).subscription,
                    old(self).environment->0,
                    old(self).aliases@,
                    old(self).services@,
                    strings_view(old(self).engines@),
                    old(self).search.expected(project.graph),
                ),
    {
        let mut search = TreeSearch::new("", manifest_filter(), 0, String::new());
        core::mem::swap(&mut self.search, &mut search);
        proof {
            assert forall|project: Project| #[trigger]
                search.expected(project.graph) == Walk::done(search.found()) by {
                search.lemma_finished(project.graph);
            }
        }
        self.items = search.into_results();
        self.manifest = 0;
        proof {
            assert(reports_view(self.rows@) == Seq::<ReportView>::empty());
            assert(strings_view(self.unreadable@) == Seq::<Seq<char>>::empty());
        }
        self.seek_manifest();
    }
}

impl Scan {
    /// What a step with a fitting answer does: whatever the project, as long
    /// as the answer is what the project holds for the question, what the
    /// scan was going to do is the request just answered and then what it is
    /// going to do now.
    spec fn carried(&self, after: &Scan, answer: Answer) -> bool {
        &&& fits(self.wanted(), answer)
        &&& after.wf()
        &&& after.subscription == self.subscription
        &&& after.aliases == self.aliases
        &&& forall|project: Project|
            answers(project, self.wanted(), answer) ==> self.expected(project) == (#[trigger] after.expected(
                project,
            )).asking(self.wanted(), true)
    }

    /// Notes the manifest at hand as unreadable and goes on.
    fn skip_manifest(&mut self)
        requires
            old(self).at_manifest(),
        ensures
            final(self).wf(),
            final(self).subscription == old(self).subscription,
            final(self).aliases == old(self).aliases,
            forall|project: Project| #[trigger]
                final(self).expected(project) == from_manifest(
                    project,
                    old(self).context(),
                    old(self).matched(),
                    old(self).manifest as int,
                    None,
                    old(self).gathered(),
                ),
    {
        let m = self.manifest;
        let n = self.items.len();
        assert(m < n);
        let ghost before = strings_view(self.unreadable@);
        let path = self.items[m].fullpath.clone();
        self.unreadable.push(path);
        assert(strings_view(self.unreadable@) == before.push(old(self).matched()[m as int].fullpath));
        self.manifest = m + 1;
        self.seek_manifest();
    }

    fn on_environments(&mut self, listed: Option<Vec<Environment>>) -> (r: Result<(), Error>)
        requires
            old(self).wf(),
        ensures
            match r {
                Ok(()) => old(self).carried(final(self), Answer::Environments(listed)),
                Err(e) => e is OutOfTurn && !fits(old(self).wanted(), Answer::Environments(listed)) && *final(self)
                    == *old(self),
            },
    {
        if self.phase != Phase::Environments {
            return Err(Error::OutOfTurn);
        }
        match listed {
            None => {
                let row = Report::degraded(&self.subscription);
                self.rows.push(row);
                self.phase = Phase::Done;
                proof {
                    assert(reports_view(self.rows@) == seq![degraded_row(self.subscription)]);
                    assert(strings_view(self.unreadable@) == Seq::<Seq<char>>::empty());
                    assert(strings_view(self.engines@) == Seq::<Seq<char>>::empty());
                    assert(self.gathered() == only_rows(seq![degraded_row(self.subscription)]));
                }
            },
            Some(environments) => {
                let mut environments = environments;
                let ghost all = environments@;
                match main_position(&environments) {
                    None => {
                        self.phase = Phase::Done;
                        proof {
                            assert(reports_view(self.rows@) == Seq::<ReportView>::empty());
                            assert(strings_view(self.unreadable@) == Seq::<Seq<char>>::empty());
                            assert(strings_view(self.engines@) == Seq::<Seq<char>>::empty());
                            assert(self.gathered() == only_rows(Seq::empty()));
                        }
                    },
                    Some(i) => {
                        let environment = environments.remove(i);
                        assert(environment == all[first_main(all)]);
                        if environment.head_commit.is_some() {
                            self.environment = Some(environment);
                            self.phase = Phase::Commit;
                        } else {
                            let row = Report::without_app(&self.subscription, &environment);
                            self.rows.push(row);
                            self.environment = Some(environment);
                            self.phase = Phase::Done;
                            proof {
                                assert(reports_view(self.rows@) == seq![bare_row(self.subscription, environment)]);
                                assert(strings_view(self.unreadable@) == Seq::<Seq<char>>::empty());
                                assert(strings_view(self.engines@) == Seq::<Seq<char>>::empty());
                                assert(self.gathered() == only_rows(
                                    seq![bare_row(self.subscription, environment)],
                                ));
                            }
                        }
                    },
                }
            },
        }
        Ok(())
    }

    fn on_commit(&mut self, commit: GitCommit) -> (r: Result<(), Error>)
        requires
            old(self).wf(),
        ensures
            match r {
                Ok(()) => old(self).carried(final(self), Answer::Commit(commit)),
                Err(e) => e is OutOfTurn && !fits(old(self).wanted(), Answer::Commit(commit)) && *final(self)
                    == *old(self),
            },
    {
        if self.phase != Phase::Commit {
            return Err(Error::OutOfTurn);
        }
        self.root = commit.tree;
        self.phase = Phase::RootTree;
        Ok(())
    }

    fn on_tree(&mut self, tree: GitTree) -> (r: Result<(), Error>)
        requires
            old(self).wf(),
        ensures
            match r {
                Ok(()) => old(self).carried(final(self), Answer::Tree(tree)),
                Err(e) => e is OutOfTurn && !fits(old(self).wanted(), Answer::Tree(tree)) && *final(self) == *old(
                    self,
                ),
            },
    {
        if self.phase == Phase::RootTree {
            match lookup_path(&tree, SERVICES_DIR) {
                Some(dir) => {
                    self.object = dir.sha;
                    self.phase = Phase::ServicesDir;
                },
                None => {
                    self.begin_search();
                },
            }
            Ok(())
        } else if self.phase == Phase::ServicesDir {
            match lookup_path(&tree, SERVICES_FILE) {
                Some(file) => {
                    self.object = file.sha;
                    self.phase = Phase::ServicesBlob;
                },
                None => {
                    self.begin_search();
                },
            }
            Ok(())
        } else if self.phase == Phase::Search {
            let ghost key = self.search.wanted()->0;
            let supplied = self.search.supply(tree);
            assert(supplied is Ok);
            proof {
                assert forall|project: Project|
                    answers(project, old(self).wanted(), Answer::Tree(tree)) implies old(self).expected(project)
                    == (#[trigger] self.expected(project)).asking(old(self).wanted(), true) by {
                    lemma_search_after(
                        project,
                        self.subscription,
                        self.environment->0,
                        self.aliases@,
                        self.services@,
                        strings_view(self.engines@),
                        self.search.expected(project.graph),
                        key,
                    );
                }
            }
            if self.search.request().is_none() {
                let ghost mid = *self;
                self.harvest();
                assert forall|project: Project|
                    answers(project, old(self).wanted(), Answer::Tree(tree)) implies old(self).expected(project)
                    == (#[trigger] self.expected(project)).asking(old(self).wanted(), true) by {
                    assert(self.expected(project) == mid.expected(project));
                }
            }
            Ok(())
        } else {
            Err(Error::OutOfTurn)
        }
    }

    fn on_blob(&mut self, blob: GitBlob) -> (r: Result<(), Error>)
        requires
            old(self).wf(),
        ensures
            match r {
                Ok(()) => old(self).carried(final(self), Answer::Blob(blob)),
                Err(e) => e is OutOfTurn && !fits(old(self).wanted(), Answer::Blob(blob)) && *final(self) == *old(
                    self,
                ),
            },
    {
        if self.phase == Phase::ServicesBlob {
            match git_blob_decode(&blob) {
                Ok(bytes) => {
                    self.bytes = bytes;
                    self.phase = Phase::ServicesParse;
                },
                Err(_) => {
                    self.begin_search();
                },
            }
            Ok(())
        } else if self.phase == Phase::ManifestBlob {
            match git_blob_decode(&blob) {
                Ok(bytes) => {
                    self.bytes = bytes;
                    self.phase = Phase::ManifestParse;
                },
                Err(_) => {
                    self.skip_manifest();
                },
            }
            Ok(())
        } else if self.phase == Phase::LockBlob {
            let ghost asked = self.wanted();
            match git_blob_decode(&blob) {
                Ok(bytes) => {
                    proof {
                        assert forall|project: Project|
                            answers(project, asked, Answer::Blob(blob)) implies #[trigger] self.expected(project)
                            == resume_locks(
                            project,
                            self.context(),
                            self.matched(),
                            self.manifest as int,
                            self.app->0,
                            self.sibling + 1,
                            after_lock(self.aliases@, (project.parse_lock)(bytes@), self.versions@),
                            self.gathered(),
                        ).after(seq![Wanted::Lock(bytes@)]).after(seq![asked]) by {
                            let later = locks_from(
                                project,
                                self.aliases@,
                                self.matched(),
                                self.manifest as int,
                                self.sibling + 1,
                                after_lock(self.aliases@, (project.parse_lock)(bytes@), self.versions@),
                            );
                            lemma_resume_after(
                                project,
                                self.context(),
                                self.matched(),
                                self.manifest as int,
                                self.app->0,
                                later,
                                seq![Wanted::Lock(bytes@)],
                                self.gathered(),
                            );
                            lemma_resume_after(
                                project,
                                self.context(),
                                self.matched(),
                                self.manifest as int,
                                self.app->0,
                                later.after(seq![Wanted::Lock(bytes@)]),
                                seq![asked],
                                self.gathered(),
                            );
                        }
                    }
                    self.bytes = bytes;
                    self.phase = Phase::LockParse;
                },
                Err(_) => {
                    proof {
                        assert forall|project: Project|
                            answers(project, asked, Answer::Blob(blob)) implies #[trigger] self.expected(project)
                            == resume_locks(
                            project,
                            self.context(),
                            self.matched(),
                            self.manifest as int,
                            self.app->0,
                            self.sibling + 1,
                            self.versions@,
                            self.gathered(),
                        ).after(seq![asked]) by {
                            lemma_resume_after(
                                project,
                                self.context(),
                                self.matched(),
                                self.manifest as int,
                                self.app->0,
                                locks_from(
                                    project,
                                    self.aliases@,
                                    self.matched(),
                                    self.manifest as int,
                                    self.sibling + 1,
                                    self.versions@,
                                ),
                                seq![asked],
                                self.gathered(),
                            );
                        }
                    }
                    let j = self.sibling;
                    let n = self.items.len();
                    assert(j < n);
                    self.sibling = j + 1;
                    self.seek_lock();
                },
            }
            Ok(())
        } else if self.phase == Phase::MakeBlob {
            let ghost asked = self.wanted();
            proof {
                assert forall|project: Project|
                    answers(project, asked, Answer::Blob(blob)) implies #[trigger] self.expected(project)
                    == resume_makes(
                    project,
                    self.context(),
                    self.matched(),
                    self.manifest as int,
                    self.app->0,
                    self.sibling + 1,
                    after_make(base64_decoded(blob.content@), self.versions@),
                    self.gathered(),
                ).after(seq![asked]) by {
                    lemma_versions_after(
                        project,
                        self.context(),
                        self.matched(),
                        self.manifest as int,
                        self.app->0,
                        makes_from(
                            project,
                            self.matched(),
                            self.manifest as int,
                            self.sibling + 1,
                            after_make(base64_decoded(blob.content@), self.versions@),
                        ),
                        seq![asked],
                        self.gathered(),
                    );
                }
            }
            match git_blob_decode(&blob) {
                Ok(bytes) => {
                    merge_make(&mut self.versions, bytes.as_slice());
                },
                Err(_) => {},
            }
            let k = self.sibling;
            let n = self.items.len();
            assert(k < n);
            self.sibling = k + 1;
            self.seek_make();
            Ok(())
        } else {
            Err(Error::OutOfTurn)
        }
    }

    fn on_services(&mut self, parsed: Option<Vec<(String, PlatformService)>>) -> (r: Result<(), Error>)
        requires
            old(self).wf(),
        ensures
            match r {
                Ok(()) => old(self).carried(final(self), Answer::Services(parsed)),
                Err(e) => e is OutOfTurn && !fits(old(self).wanted(), Answer::Services(parsed)) && *final(self)
                    == *old(self),
            },
    {
        if self.phase != Phase::ServicesParse {
            return Err(Error::OutOfTurn);
        }
        match parsed {
            Some(definitions) => {
                let (services, engines) = service_versions(&definitions);
                self.services = services;
                self.engines = engines;
            },
            None => {},
        }
        self.begin_search();
        Ok(())
    }

    fn on_manifest(&mut self, parsed: Option<PlatformApp>) -> (r: Result<(), Error>)
        requires
            old(self).wf(),
        ensures
            match r {
                Ok(()) => old(self).carried(final(self), Answer::Manifest(parsed)),
                Err(e) => e is OutOfTurn && !fits(old(self).wanted(), Answer::Manifest(parsed)) && *final(self)
                    == *old(self),
            },
    {
        if self.phase != Phase::ManifestParse {
            return Err(Error::OutOfTurn);
        }
        match parsed {
            None => {
                self.skip_manifest();
            },
            Some(app) => {
                let with_locks = php(&app);
                self.app = Some(app);
                self.versions = Dict::new();
                if with_locks {
                    self.sibling = 0;
                    self.seek_lock();
                } else {
                    self.close_app();
                }
            },
        }
        Ok(())
    }

    fn on_lock(&mut self, parsed: Option<ComposerLock>) -> (r: Result<(), Error>)
        requires
            old(self).wf(),
        ensures
            match r {
                Ok(()) => old(self).carried(final(self), Answer::Lock(parsed)),
                Err(e) => e is OutOfTurn && !fits(old(self).wanted(), Answer::Lock(parsed)) && *final(self) == *old(
                    self,
                ),
            },
    {
        if self.phase != Phase::LockParse {
            return Err(Error::OutOfTurn);
        }
        match parsed {
            Some(lock) => {
                merge_lock(&mut self.versions, &self.aliases, &lock);
            },
            None => {},
        }
        let j = self.sibling;
        let n = self.items.len();
        assert(j < n);
        self.sibling = j + 1;
        self.seek_lock();
        Ok(())
    }

    /// Takes an answer and goes on until the scan needs something else or is
    /// over.
    ///
    /// An answer of the kind that was asked for is accepted. Whatever the
    /// project, as long as the answer is what the project holds for the
    /// question: what the scan was going to do is the request just answered
    /// and then what it is going to do now. An answer of another kind is
    /// refused, and the scan is left as it was.
    pub fn step(&mut self, answer: Answer) -> (r: Result<(), Error>)
        requires
            old(self).wf(),
        ensures
            final(self).wf(),
            final(self).subject() == old(self).subject(),
            final(self).table() == old(self).table(),
            match r {
                Ok(()) => fits(old(self).wanted(), answer) && forall|project: Project|
                    answers(project, old(self).wanted(), answer) ==> old(self).expected(project) == (
                    #[trigger] final(self).expected(project)).asking(old(self).wanted(), true),
                Err(e) => e is OutOfTurn && !fits(old(self).wanted(), answer) && final(self).wanted() == old(
                    self,
                ).wanted() && final(self).gathered() == old(self).gathered() && forall|project: Project| #[trigger]
                    final(self).expected(project) == old(self).expected(project),
            },
    {
        match answer {
            Answer::Environments(listed) => self.on_environments(listed),
            Answer::Commit(commit) => self.on_commit(commit),
            Answer::Tree(tree) => self.on_tree(tree),
            Answer::Blob(blob) => self.on_blob(blob),
            Answer::Services(parsed) => self.on_services(parsed),
            Answer::Manifest(parsed) => self.on_manifest(parsed),
            Answer::Lock(parsed) => self.on_lock(parsed),
        }
    }
}

} // verus!
