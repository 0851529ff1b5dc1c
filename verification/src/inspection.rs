//! The inspection of one subscription, from the list of its environments to
//! its report rows, told over a model of the project: what the API would
//! answer to each request, and what the parsers would make of each file.
//!
//! [`outcome`] reads off that model what the inspection asks for, in order,
//! and the rows it yields.

use crate::blob::base64_decoded;
use crate::dict::written;
use crate::makefile::{file_versions, version_writes};
use crate::model::{ComposerLock, Environment, PlatformApp, PlatformService, Subscription};
use crate::report::{
    app_row, bare_row, degraded_row, engine_writes, engines_of, first_main, is_drupal, is_lock_of, is_make_of,
    is_manifest, is_php, lock_writes, packages_view, service_types, ReportView, LOCK, MAKE_SUFFIX, MANIFEST,
    SEARCH_DEPTH, SERVICES_DIR, SERVICES_FILE,
};
use crate::search::{last_named, search, GitSearchResultView, Graph, PathFilterView, Walk};
use crate::trail::Trail;
use vstd::prelude::*;

verus! {

/// A project as the inspection meets it: what each request would be
/// answered, and what each parser would make of a file. A key that a map
/// lacks stands for a request that fails.
pub struct Project {
    /// The environments, or `None` where they cannot be listed.
    pub environments: Option<Seq<Environment>>,
    /// For each commit, its root tree.
    pub commits: Map<Seq<char>, Seq<char>>,
    /// For each tree, its entries.
    pub graph: Graph,
    /// For each blob, its content in transport encoding.
    pub blobs: Map<Seq<char>, Seq<char>>,
    /// What a service file parses to, or `None` where it does not parse.
    pub parse_services: spec_fn(Seq<u8>) -> Option<Seq<(String, PlatformService)>>,
    /// What a manifest parses to.
    pub parse_manifest: spec_fn(Seq<u8>) -> Option<PlatformApp>,
    /// What a lock file parses to.
    pub parse_lock: spec_fn(Seq<u8>) -> Option<ComposerLock>,
}

/// What the inspection of a subscription yields.
pub struct Outcome {
    /// The rows, in the order in which the manifests were matched.
    pub rows: Seq<ReportView>,
    /// The full paths of the manifests that could not be read.
    pub unreadable: Seq<Seq<char>>,
    /// The engine of every service definition that names one.
    pub engines: Seq<Seq<char>>,
}

/// What the rows of a subscription share.
pub struct Context {
    pub subscription: Subscription,
    pub environment: Environment,
    pub aliases: Map<Seq<char>, Seq<char>>,
    pub services: Map<Seq<char>, Seq<char>>,
}

/// What an inspection asks for.
pub enum Wanted {
    /// The environments of the project.
    Environments,
    /// The commit object with this identifier.
    Commit(Seq<char>),
    /// The tree object with this identifier.
    Tree(Seq<char>),
    /// The blob object with this identifier.
    Blob(Seq<char>),
    /// These bytes, parsed as a service file.
    Services(Seq<u8>),
    /// These bytes, parsed as a manifest.
    Manifest(Seq<u8>),
    /// These bytes, parsed as a lock file.
    Lock(Seq<u8>),
    /// Nothing: the inspection is over.
    Nothing,
}

/// The course of an inspection: what it asks for, in order, and what it
/// yields. It yields nothing where a commit, a tree or a blob that it asks
/// for cannot be fetched.
pub type Course = Trail<Wanted, Outcome>;

/// The course of gathering the versions of one application.
pub type Merge = Trail<Wanted, Map<Seq<char>, Seq<char>>>;

/// The filter of the search for manifests, lock files and make files.
pub open spec fn files_filter() -> PathFilterView {
    PathFilterView { names: seq![MANIFEST@, LOCK@], suffixes: seq![MAKE_SUFFIX@] }
}

/// The versions after one lock file, parsed or not.
pub open spec fn after_lock(
    aliases: Map<Seq<char>, Seq<char>>,
    lock: Option<ComposerLock>,
    versions: Map<Seq<char>, Seq<char>>,
) -> Map<Seq<char>, Seq<char>> {
    match lock {
        Some(lock) => written(versions, lock_writes(aliases, packages_view(lock.packages@))),
        None => versions,
    }
}

/// The versions after one make file, decoded or not.
pub open spec fn after_make(bytes: Option<Seq<u8>>, versions: Map<Seq<char>, Seq<char>>) -> Map<
    Seq<char>,
    Seq<char>,
> {
    match bytes {
        Some(bytes) => written(versions, version_writes(file_versions(bytes))),
        None => versions,
    }
}

/// Merging the lock files beside the manifest `items[m]`, from `items[j]`
/// on, into `versions`. Each is fetched; one that decodes is parsed; one
/// that parses is merged. A lock file that does not decode or parse adds
/// nothing.
pub open spec fn locks_from(
    project: Project,
    aliases: Map<Seq<char>, Seq<char>>,
    items: Seq<GitSearchResultView>,
    m: int,
    j: int,
    versions: Map<Seq<char>, Seq<char>>,
) -> Merge
    decreases items.len() - j,
{
    if j < 0 || j >= items.len() {
        Trail::done(versions)
    } else if is_lock_of(items[j], items[m]) {
        let sha = items[j].sha;
        (match base64_decoded(project.blobs[sha]) {
            None => locks_from(project, aliases, items, m, j + 1, versions),
            Some(bytes) => locks_from(
                project,
                aliases,
                items,
                m,
                j + 1,
                after_lock(aliases, (project.parse_lock)(bytes), versions),
            ).asking(Wanted::Lock(bytes), true),
        }).asking(Wanted::Blob(sha), project.blobs.contains_key(sha))
    } else {
        locks_from(project, aliases, items, m, j + 1, versions)
    }
}

/// Merging the make files beside the manifest `items[m]`, from `items[k]`
/// on, into `versions`. Each is fetched; one that decodes is merged.
pub open spec fn makes_from(
    project: Project,
    items: Seq<GitSearchResultView>,
    m: int,
    k: int,
    versions: Map<Seq<char>, Seq<char>>,
) -> Merge
    decreases items.len() - k,
{
    if k < 0 || k >= items.len() {
        Trail::done(versions)
    } else if is_make_of(items[k], items[m]) {
        let sha = items[k].sha;
        makes_from(
            project,
            items,
            m,
            k + 1,
            after_make(base64_decoded(project.blobs[sha]), versions),
        ).asking(Wanted::Blob(sha), project.blobs.contains_key(sha))
    } else {
        makes_from(project, items, m, k + 1, versions)
    }
}

/// Gathering the versions of a PHP application, once its lock files are
/// merged: where its build has the flavor "drupal", the make files beside
/// its manifest are merged after them.
pub open spec fn versions_after_locks(
    project: Project,
    items: Seq<GitSearchResultView>,
    m: int,
    app: PlatformApp,
    merged: Merge,
) -> Merge {
    match merged.value {
        None => merged,
        Some(versions) => if is_drupal(app) {
            makes_from(project, items, m, 0, versions).after(merged.asked)
        } else {
            merged
        },
    }
}

/// Gathering the versions of the application of the manifest `items[m]`:
/// for a PHP application, from the lock files and make files beside the
/// manifest; for any other application there are none.
pub open spec fn app_versions(
    project: Project,
    aliases: Map<Seq<char>, Seq<char>>,
    items: Seq<GitSearchResultView>,
    m: int,
    app: PlatformApp,
) -> Merge {
    if is_php(app) {
        versions_after_locks(project, items, m, app, locks_from(project, aliases, items, m, 0, Map::empty()))
    } else {
        Trail::done(Map::empty())
    }
}

/// An outcome with one more unreadable manifest.
pub open spec fn with_unreadable(out: Outcome, path: Seq<char>) -> Outcome {
    Outcome { unreadable: out.unreadable.push(path), ..out }
}

/// An outcome with one more row.
pub open spec fn with_row(out: Outcome, row: ReportView) -> Outcome {
    Outcome { rows: out.rows.push(row), ..out }
}

/// Working off the manifests from `items[m]` on, after `out`. Each is
/// fetched; one that decodes is parsed. A manifest that does not decode or
/// parse is noted as unreadable and gives no row; every other manifest
/// gives exactly one.
pub open spec fn manifests_from(
    project: Project,
    context: Context,
    items: Seq<GitSearchResultView>,
    m: int,
    out: Outcome,
) -> Course
    decreases items.len() - m, 3nat,
{
    if m < 0 || m >= items.len() {
        Trail::done(out)
    } else if is_manifest(items[m]) {
        let sha = items[m].sha;
        (match base64_decoded(project.blobs[sha]) {
            None => from_manifest(project, context, items, m, None, out),
            Some(bytes) => from_manifest(
                project,
                context,
                items,
                m,
                (project.parse_manifest)(bytes),
                out,
            ).asking(Wanted::Manifest(bytes), true),
        }).asking(Wanted::Blob(sha), project.blobs.contains_key(sha))
    } else {
        manifests_from(project, context, items, m + 1, out)
    }
}

/// Going on from the manifest `items[m]`, once it is parsed or found
/// unreadable.
pub open spec fn from_manifest(
    project: Project,
    context: Context,
    items: Seq<GitSearchResultView>,
    m: int,
    parsed: Option<PlatformApp>,
    out: Outcome,
) -> Course
    decreases items.len() - m, 2nat,
{
    if m < 0 || m >= items.len() {
        Trail::done(out)
    } else {
        match parsed {
            None => manifests_from(project, context, items, m + 1, with_unreadable(out, items[m].fullpath)),
            Some(app) => after_versions(
                project,
                context,
                items,
                m,
                app,
                app_versions(project, context.aliases, items, m, app),
                out,
            ),
        }
    }
}

/// Going on from the manifest `items[m]` with the gathering of the versions
/// of its application.
pub open spec fn after_versions(
    project: Project,
    context: Context,
    items: Seq<GitSearchResultView>,
    m: int,
    app: PlatformApp,
    merged: Merge,
    out: Outcome,
) -> Course
    decreases items.len() - m, 1nat,
{
    match merged.value {
        None => Trail { asked: merged.asked, value: None },
        Some(versions) => from_versions(project, context, items, m, app, versions, out).after(merged.asked),
    }
}

/// Going on from the manifest `items[m]`, once the versions of its
/// application are gathered: its row, then the later manifests.
pub open spec fn from_versions(
    project: Project,
    context: Context,
    items: Seq<GitSearchResultView>,
    m: int,
    app: PlatformApp,
    versions: Map<Seq<char>, Seq<char>>,
    out: Outcome,
) -> Course
    decreases items.len() - m, 0nat,
{
    if m < 0 || m >= items.len() {
        Trail::done(out)
    } else {
        manifests_from(
            project,
            context,
            items,
            m + 1,
            with_row(out, app_row(context.subscription, context.environment, app, versions, context.services)),
        )
    }
}

/// The type strings of a parsed service file; none where it did not parse.
pub open spec fn parsed_types(parsed: Option<Seq<(String, PlatformService)>>) -> Seq<Seq<char>> {
    match parsed {
        Some(definitions) => service_types(definitions),
        None => Seq::empty(),
    }
}

/// The fetches of a search as requests of an inspection.
pub open spec fn tree_requests(trees: Seq<Seq<char>>) -> Seq<Wanted> {
    trees.map_values(|tree: Seq<char>| Wanted::Tree(tree))
}

/// The inspection of a main environment from the search of its tree on:
/// the search, then the manifests matched.
pub open spec fn from_search(
    project: Project,
    subscription: Subscription,
    environment: Environment,
    aliases: Map<Seq<char>, Seq<char>>,
    services: Map<Seq<char>, Seq<char>>,
    engines: Seq<Seq<char>>,
    walk: Walk,
) -> Course {
    match walk.value {
        None => Trail { asked: tree_requests(walk.asked), value: None },
        Some(items) => manifests_from(
            project,
            Context { subscription, environment, aliases, services },
            items,
            0,
            Outcome { rows: Seq::empty(), unreadable: Seq::empty(), engines },
        ).after(tree_requests(walk.asked)),
    }
}

/// The inspection of a main environment whose service definitions have the
/// types `types`: each engine is reported with the version that the last
/// definition of it names, and the tree `root` is searched for manifests.
pub open spec fn from_services(
    project: Project,
    subscription: Subscription,
    environment: Environment,
    aliases: Map<Seq<char>, Seq<char>>,
    root: Seq<char>,
    types: Seq<Seq<char>>,
) -> Course {
    from_search(
        project,
        subscription,
        environment,
        aliases,
        written(Map::empty(), engine_writes(types)),
        engines_of(engine_writes(types)),
        search(project.graph, files_filter(), root, SEARCH_DEPTH as nat, Seq::empty()),
    )
}

/// The inspection of a main environment from the fetch of its service file,
/// the blob `file`, on. A file that decodes is parsed. A file that does not
/// decode or parse defines no service.
pub open spec fn from_file(
    project: Project,
    subscription: Subscription,
    environment: Environment,
    aliases: Map<Seq<char>, Seq<char>>,
    root: Seq<char>,
    file: Seq<char>,
) -> Course {
    (match base64_decoded(project.blobs[file]) {
        None => from_services(project, subscription, environment, aliases, root, Seq::empty()),
        Some(bytes) => from_services(
            project,
            subscription,
            environment,
            aliases,
            root,
            parsed_types((project.parse_services)(bytes)),
        ).asking(Wanted::Services(bytes), true),
    }).asking(Wanted::Blob(file), project.blobs.contains_key(file))
}

/// The inspection of a main environment from the fetch of its service
/// directory, the tree `dir`, on. A directory without a service file defines
/// no service.
pub open spec fn from_dir(
    project: Project,
    subscription: Subscription,
    environment: Environment,
    aliases: Map<Seq<char>, Seq<char>>,
    root: Seq<char>,
    dir: Seq<char>,
) -> Course {
    (match last_named(project.graph[dir], SERVICES_FILE@) {
        None => from_services(project, subscription, environment, aliases, root, Seq::empty()),
        Some(file) => from_file(project, subscription, environment, aliases, root, file.sha),
    }).asking(Wanted::Tree(dir), project.graph.contains_key(dir))
}

/// The inspection of a main environment from the fetch of its root tree
/// on. The service file is looked up by its fixed path, one segment at a
/// time, among the direct entries of each tree. A root without the service
/// directory defines no service.
pub open spec fn from_root(
    project: Project,
    subscription: Subscription,
    environment: Environment,
    aliases: Map<Seq<char>, Seq<char>>,
    root: Seq<char>,
) -> Course {
    (match last_named(project.graph[root], SERVICES_DIR@) {
        None => from_services(project, subscription, environment, aliases, root, Seq::empty()),
        Some(dir) => from_dir(project, subscription, environment, aliases, root, dir.sha),
    }).asking(Wanted::Tree(root), project.graph.contains_key(root))
}

/// The inspection of a main environment from the fetch of its head commit
/// on.
pub open spec fn from_commit(
    project: Project,
    subscription: Subscription,
    environment: Environment,
    aliases: Map<Seq<char>, Seq<char>>,
    commit: Seq<char>,
) -> Course {
    from_root(project, subscription, environment, aliases, project.commits[commit]).asking(
        Wanted::Commit(commit),
        project.commits.contains_key(commit),
    )
}

/// An outcome of nothing but rows.
pub open spec fn only_rows(rows: Seq<ReportView>) -> Outcome {
    Outcome { rows, unreadable: Seq::empty(), engines: Seq::empty() }
}

/// The inspection of a subscription once its environments are listed, or
/// could not be.
///
/// Where they could not be listed: the one degraded row. Where none is the
/// main one: nothing. Where the main environment has no commit yet: one row
/// without an application. Otherwise the inspection of the main environment
/// from its head commit on.
pub open spec fn from_environments(
    project: Project,
    subscription: Subscription,
    aliases: Map<Seq<char>, Seq<char>>,
    listed: Option<Seq<Environment>>,
) -> Course {
    match listed {
        None => Trail::done(only_rows(seq![degraded_row(subscription)])),
        Some(environments) => {
            let i = first_main(environments);
            if i >= environments.len() {
                Trail::done(only_rows(Seq::empty()))
            } else {
                let environment = environments[i];
                match environment.head_commit {
                    None => Trail::done(only_rows(seq![bare_row(subscription, environment)])),
                    Some(commit) => from_commit(project, subscription, environment, aliases, commit@),
                }
            }
        },
    }
}

/// The inspection of a subscription: what it asks for, in order, and the
/// rows it yields.
pub open spec fn outcome(project: Project, subscription: Subscription, aliases: Map<Seq<char>, Seq<char>>) -> Course {
    from_environments(project, subscription, aliases, project.environments).asking(Wanted::Environments, true)
}

/// The number of manifests among the matches from `items[m]` on.
pub open spec fn manifests_left(items: Seq<GitSearchResultView>, m: int) -> nat
    decreases items.len() - m,
{
    if m < 0 || m >= items.len() {
        0
    } else if is_manifest(items[m]) {
        1 + manifests_left(items, m + 1)
    } else {
        manifests_left(items, m + 1)
    }
}

/// A subscription whose environments cannot be listed yields exactly one
/// row: the degraded one, with the fields of the subscription filled and
/// everything derived empty. Nothing but the list of environments is asked
/// for.
pub proof fn lemma_unlisted_is_degraded(
    project: Project,
    subscription: Subscription,
    aliases: Map<Seq<char>, Seq<char>>,
)
    requires
        project.environments is None,
    ensures
        outcome(project, subscription, aliases).asked == seq![Wanted::Environments],
        outcome(project, subscription, aliases).value == Some(only_rows(seq![degraded_row(subscription)])),
        degraded_row(subscription).subscription == subscription.project_id@,
        degraded_row(subscription).title == subscription.project_title@,
        degraded_row(subscription).plan == subscription.plan@,
        degraded_row(subscription).storage == subscription.storage,
        degraded_row(subscription).last_backup_at is None,
        degraded_row(subscription).a_type.len() == 0,
        degraded_row(subscription).app.len() == 0,
        degraded_row(subscription).packages == Map::<Seq<char>, Seq<char>>::empty(),
        degraded_row(subscription).services == Map::<Seq<char>, Seq<char>>::empty(),
{
    assert(outcome(project, subscription, aliases).asked =~= seq![Wanted::Environments]);
}

/// A manifest that can be fetched but does not decode, or does not parse,
/// is noted as unreadable, and the manifests after it are worked off as if
/// it had not been there.
pub proof fn lemma_unreadable_is_passed(
    project: Project,
    context: Context,
    items: Seq<GitSearchResultView>,
    m: int,
    out: Outcome,
)
    requires
        0 <= m < items.len(),
        is_manifest(items[m]),
        project.blobs.contains_key(items[m].sha),
        match base64_decoded(project.blobs[items[m].sha]) {
            Some(bytes) => (project.parse_manifest)(bytes) is None,
            None => true,
        },
    ensures
        manifests_from(project, context, items, m, out).value == manifests_from(
            project,
            context,
            items,
            m + 1,
            with_unreadable(out, items[m].fullpath),
        ).value,
{
    assert(from_manifest(project, context, items, m, None, out) == manifests_from(
        project,
        context,
        items,
        m + 1,
        with_unreadable(out, items[m].fullpath),
    ));
}

/// A manifest that is read, and whose versions are gathered, gives its row,
/// whatever came before it.
pub proof fn lemma_readable_gives_row(
    project: Project,
    context: Context,
    items: Seq<GitSearchResultView>,
    m: int,
    out: Outcome,
)
    requires
        0 <= m < items.len(),
        is_manifest(items[m]),
        project.blobs.contains_key(items[m].sha),
        base64_decoded(project.blobs[items[m].sha]) is Some,
        (project.parse_manifest)(base64_decoded(project.blobs[items[m].sha])->0) is Some,
        app_versions(
            project,
            context.aliases,
            items,
            m,
            (project.parse_manifest)(base64_decoded(project.blobs[items[m].sha])->0)->0,
        ).value is Some,
    ensures
        ({
            let app = (project.parse_manifest)(base64_decoded(project.blobs[items[m].sha])->0)->0;
            let versions = app_versions(project, context.aliases, items, m, app).value->0;
            manifests_from(project, context, items, m, out).value == manifests_from(
                project,
                context,
                items,
                m + 1,
                with_row(
                    out,
                    app_row(context.subscription, context.environment, app, versions, context.services),
                ),
            ).value
        }),
{
    let bytes = base64_decoded(project.blobs[items[m].sha])->0;
    let app = (project.parse_manifest)(bytes)->0;
    let merged = app_versions(project, context.aliases, items, m, app);
    let versions = merged.value->0;
    assert(from_manifest(project, context, items, m, Some(app), out) == after_versions(
        project,
        context,
        items,
        m,
        app,
        merged,
        out,
    ));
    assert(after_versions(project, context, items, m, app, merged, out).value == from_versions(
        project,
        context,
        items,
        m,
        app,
        versions,
        out,
    ).value);
}

/// What is gathered stays: the rows and the notes of an inspection that
/// ends begin with those it had before. And every manifest gives exactly one
/// of the two, a row or a note.
pub proof fn lemma_one_per_manifest(
    project: Project,
    context: Context,
    items: Seq<GitSearchResultView>,
    m: int,
    out: Outcome,
)
    requires
        0 <= m <= items.len(),
    ensures
        manifests_from(project, context, items, m, out).value matches Some(end) ==> {
            &&& out.rows.is_prefix_of(end.rows)
            &&& out.unreadable.is_prefix_of(end.unreadable)
            &&& end.engines == out.engines
            &&& end.rows.len() + end.unreadable.len() == out.rows.len() + out.unreadable.len() + manifests_left(
                items,
                m,
            )
        },
    decreases items.len() - m,
{
    if m < items.len() {
        if is_manifest(items[m]) {
            let sha = items[m].sha;
            if project.blobs.contains_key(sha) {
                let parsed = match base64_decoded(project.blobs[sha]) {
                    Some(bytes) => (project.parse_manifest)(bytes),
                    None => None,
                };
                match parsed {
                    None => {
                        let noted = with_unreadable(out, items[m].fullpath);
                        lemma_unreadable_is_passed(project, context, items, m, out);
                        lemma_one_per_manifest(project, context, items, m + 1, noted);
                        if let Some(end) = manifests_from(project, context, items, m + 1, noted).value {
                            assert(out.unreadable.is_prefix_of(end.unreadable)) by {
                                assert(noted.unreadable.subrange(0, out.unreadable.len() as int) == out.unreadable);
                                assert(end.unreadable.subrange(0, out.unreadable.len() as int)
                                    == end.unreadable.subrange(0, noted.unreadable.len() as int).subrange(
                                    0,
                                    out.unreadable.len() as int,
                                ));
                            }
                        }
                    },
                    Some(app) => {
                        let merged = app_versions(project, context.aliases, items, m, app);
                        assert(from_manifest(project, context, items, m, Some(app), out) == after_versions(
                            project,
                            context,
                            items,
                            m,
                            app,
                            merged,
                            out,
                        ));
                        if let Some(versions) = merged.value {
                            lemma_readable_gives_row(project, context, items, m, out);
                            let rowed = with_row(
                                out,
                                app_row(context.subscription, context.environment, app, versions, context.services),
                            );
                            lemma_one_per_manifest(project, context, items, m + 1, rowed);
                            if let Some(end) = manifests_from(project, context, items, m + 1, rowed).value {
                                assert(out.rows.is_prefix_of(end.rows)) by {
                                    assert(rowed.rows.subrange(0, out.rows.len() as int) == out.rows);
                                    assert(end.rows.subrange(0, out.rows.len() as int) == end.rows.subrange(
                                        0,
                                        rowed.rows.len() as int,
                                    ).subrange(0, out.rows.len() as int));
                                }
                            }
                        }
                    },
                }
            }
        } else {
            lemma_one_per_manifest(project, context, items, m + 1, out);
        }
    }
}

} // verus!
