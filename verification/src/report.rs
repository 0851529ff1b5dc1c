//! Report rows, and the rules by which the files of a project are merged
//! into one: which matches belong together, which versions they name, and
//! which write wins.

use crate::dict::{written, Dict};
use crate::error::Error;
use crate::model::{opt_view, ComposerLock, ComposerLockPackage, Environment, PlatformApp, PlatformService, Subscription};
use crate::search::{GitSearchResult, GitSearchResultView, PathFilter};
use crate::text::{ends_with, split_first, split_once, starts_with, str_eq, strings_view};
use vstd::prelude::*;

verus! {

/// The path segment of an application manifest.
pub const MANIFEST: &'static str = ".platform.app.yaml";

/// The path segment of a package lock file.
pub const LOCK: &'static str = "composer.lock";

/// The ending of the path segment of a legacy make file.
pub const MAKE_SUFFIX: &'static str = ".make";

/// The directory of the service definitions, among the entries of the root.
pub const SERVICES_DIR: &'static str = ".platform";

/// The file of the service definitions, among the entries of that directory.
pub const SERVICES_FILE: &'static str = "services.yaml";

/// How many levels the search for manifests descends.
pub const SEARCH_DEPTH: u8 = 2;

/// One row of the report.
#[derive(Debug, Clone)]
pub struct Report {
    pub subscription: String,
    pub title: String,
    pub plan: String,
    pub storage: i32,
    pub region: String,
    pub last_backup_at: Option<String>,
    pub a_type: String,
    pub app: String,
    /// Canonical tracked name to version.
    pub packages: Dict<String>,
    /// Service engine to version.
    pub services: Dict<String>,
}

/// A row by the characters of its fields.
pub struct ReportView {
    pub subscription: Seq<char>,
    pub title: Seq<char>,
    pub plan: Seq<char>,
    pub storage: i32,
    pub region: Seq<char>,
    pub last_backup_at: Option<Seq<char>>,
    pub a_type: Seq<char>,
    pub app: Seq<char>,
    pub packages: Map<Seq<char>, Seq<char>>,
    pub services: Map<Seq<char>, Seq<char>>,
}

impl View for Report {
    type V = ReportView;

    open spec fn view(&self) -> ReportView {
        ReportView {
            subscription: self.subscription@,
            title: self.title@,
            plan: self.plan@,
            storage: self.storage,
            region: self.region@,
            last_backup_at: opt_view(self.last_backup_at),
            a_type: self.a_type@,
            app: self.app@,
            packages: self.packages@,
            services: self.services@,
        }
    }
}

/// The region of a subscription; empty where none is given.
pub open spec fn region_of(subscription: Subscription) -> Seq<char> {
    match subscription.project_region {
        Some(region) => region@,
        None => Seq::empty(),
    }
}

/// The row of a subscription of which nothing but itself is known: the
/// project fields filled, everything derived empty.
pub open spec fn degraded_row(subscription: Subscription) -> ReportView {
    ReportView {
        subscription: subscription.project_id@,
        title: subscription.project_title@,
        plan: subscription.plan@,
        storage: subscription.storage,
        region: region_of(subscription),
        last_backup_at: None,
        a_type: Seq::empty(),
        app: Seq::empty(),
        packages: Map::empty(),
        services: Map::empty(),
    }
}

/// The row of a subscription whose main environment has no commit yet.
pub open spec fn bare_row(subscription: Subscription, environment: Environment) -> ReportView {
    ReportView { last_backup_at: opt_view(environment.last_backup_at), ..degraded_row(subscription) }
}

/// The row of one application of a subscription.
pub open spec fn app_row(
    subscription: Subscription,
    environment: Environment,
    app: PlatformApp,
    packages: Map<Seq<char>, Seq<char>>,
    services: Map<Seq<char>, Seq<char>>,
) -> ReportView {
    ReportView { a_type: app.a_type@, app: app.name@, packages, services, ..bare_row(subscription, environment) }
}

fn region(subscription: &Subscription) -> (r: String)
    ensures
        r@ == region_of(*subscription),
{
    match &subscription.project_region {
        Some(region) => region.clone(),
        None => String::new(),
    }
}

fn copy_of(s: &Option<String>) -> (r: Option<String>)
    ensures
        opt_view(r) == opt_view(*s),
{
    match s {
        Some(t) => Some(t.clone()),
        None => None,
    }
}

impl Report {
    /// The row that stands for a subscription whose environments could not
    /// be listed.
    pub fn degraded(subscription: &Subscription) -> (r: Report)
        ensures
            r@ == degraded_row(*subscription),
    {
        Report {
            subscription: subscription.project_id.clone(),
            title: subscription.project_title.clone(),
            plan: subscription.plan.clone(),
            storage: subscription.storage,
            region: region(subscription),
            last_backup_at: None,
            a_type: String::new(),
            app: String::new(),
            packages: Dict::new(),
            services: Dict::new(),
        }
    }

    /// The row of a subscription whose main environment has no commit yet.
    pub fn without_app(subscription: &Subscription, environment: &Environment) -> (r: Report)
        ensures
            r@ == bare_row(*subscription, *environment),
    {
        Report {
            subscription: subscription.project_id.clone(),
            title: subscription.project_title.clone(),
            plan: subscription.plan.clone(),
            storage: subscription.storage,
            region: region(subscription),
            last_backup_at: copy_of(&environment.last_backup_at),
            a_type: String::new(),
            app: String::new(),
            packages: Dict::new(),
            services: Dict::new(),
        }
    }

    /// The row of one application: the subscription, the time of the last
    /// backup of its main environment, the application's name and type, and
    /// the versions gathered for it.
    pub fn for_app(
        subscription: &Subscription,
        environment: &Environment,
        app: &PlatformApp,
        packages: Dict<String>,
        services: Dict<String>,
    ) -> (r: Report)
        ensures
            r@ == app_row(*subscription, *environment, *app, packages@, services@),
    {
        Report {
            subscription: subscription.project_id.clone(),
            title: subscription.project_title.clone(),
            plan: subscription.plan.clone(),
            storage: subscription.storage,
            region: region(subscription),
            last_backup_at: copy_of(&environment.last_backup_at),
            a_type: app.a_type.clone(),
            app: app.name.clone(),
            packages,
            services,
        }
    }
}

/// The position of the first main environment, or the length of the list if
/// none is the main one.
pub open spec fn first_main(environments: Seq<Environment>) -> int
    decreases environments.len(),
{
    if environments.len() == 0 {
        0
    } else if environments[0].is_main {
        0
    } else {
        1 + first_main(environments.drop_first())
    }
}

/// The position of the main environment of a project: of the first of its
/// environments that is marked as such.
pub fn main_position(environments: &Vec<Environment>) -> (r: Option<usize>)
    ensures
        match r {
            Some(i) => i == first_main(environments@) && i < environments@.len(),
            None => first_main(environments@) == environments@.len(),
        },
{
    let mut i: usize = 0;
    assert(environments@.skip(0) == environments@);
    while i < environments.len()
        invariant
            i <= environments.len(),
            first_main(environments@) == i + first_main(environments@.skip(i as int)),
        decreases environments.len() - i,
    {
        proof {
            assert(environments@.skip(i as int)[0] == environments@[i as int]);
            assert(environments@.skip(i as int).drop_first() == environments@.skip(i + 1));
        }
        if environments[i].is_main {
            return Some(i);
        }
        i += 1;
    }
    None
}

/// The main environment of a project: the first of its environments that is
/// marked as such.
pub fn main_environment(environments: &Vec<Environment>) -> (r: Result<&Environment, Error>)
    ensures
        match r {
            Ok(environment) => first_main(environments@) < environments@.len() && *environment
                == environments@[first_main(environments@)],
            Err(e) => first_main(environments@) == environments@.len() && e is NotFound,
        },
{
    match main_position(environments) {
        Some(i) => Ok(&environments[i]),
        None => Err(Error::NotFound),
    }
}

/// The rows of a report by their views.
pub open spec fn reports_view(rows: Seq<Report>) -> Seq<ReportView> {
    rows.map_values(|r: Report| r@)
}

/// The filter of the search for the files that a row is made of: manifests,
/// lock files and make files.
pub fn manifest_filter() -> (r: PathFilter)
    ensures
        r@.names == seq![MANIFEST@, LOCK@],
        r@.suffixes == seq![MAKE_SUFFIX@],
{
    let mut names: Vec<String> = Vec::new();
    names.push(String::from_str(MANIFEST));
    names.push(String::from_str(LOCK));
    let mut suffixes: Vec<String> = Vec::new();
    suffixes.push(String::from_str(MAKE_SUFFIX));
    let r = PathFilter { names, suffixes };
    assert(r@.names == seq![MANIFEST@, LOCK@]);
    assert(r@.suffixes == seq![MAKE_SUFFIX@]);
    r
}

/// Whether a match is an application manifest.
pub open spec fn is_manifest(item: GitSearchResultView) -> bool {
    item.path == MANIFEST@
}

/// Whether a match is a lock file beside the manifest `manifest`.
pub open spec fn is_lock_of(item: GitSearchResultView, manifest: GitSearchResultView) -> bool {
    item.path == LOCK@ && item.parent == manifest.parent
}

/// Whether a match is a make file beside the manifest `manifest`.
pub open spec fn is_make_of(item: GitSearchResultView, manifest: GitSearchResultView) -> bool {
    MAKE_SUFFIX@.is_suffix_of(item.path) && item.parent == manifest.parent
}

/// Whether a match is an application manifest.
pub fn manifest(item: &GitSearchResult) -> (r: bool)
    ensures
        r == is_manifest(item@),
{
    str_eq(item.path.as_str(), MANIFEST)
}

/// Whether a match is a lock file in the directory of `manifest`.
pub fn lock_beside(item: &GitSearchResult, manifest: &GitSearchResult) -> (r: bool)
    ensures
        r == is_lock_of(item@, manifest@),
{
    str_eq(item.path.as_str(), LOCK) && item.parent == manifest.parent
}

/// Whether a match is a make file in the directory of `manifest`.
pub fn make_beside(item: &GitSearchResult, manifest: &GitSearchResult) -> (r: bool)
    ensures
        r == is_make_of(item@, manifest@),
{
    ends_with(item.path.as_str(), MAKE_SUFFIX) && item.parent == manifest.parent
}

/// Whether an application runs on the PHP runtime.
pub open spec fn is_php(app: PlatformApp) -> bool {
    "php:"@.is_prefix_of(app.a_type@)
}

/// Whether the build of an application declares the flavor "drupal".
pub open spec fn is_drupal(app: PlatformApp) -> bool {
    match app.build {
        Some(build) => build@.contains_key("flavor"@) && build@["flavor"@] == "drupal"@,
        None => false,
    }
}

/// Whether an application runs on the PHP runtime.
pub fn php(app: &PlatformApp) -> (r: bool)
    ensures
        r == is_php(*app),
{
    starts_with(app.a_type.as_str(), "php:")
}

/// Whether the build of an application declares the flavor "drupal".
pub fn drupal(app: &PlatformApp) -> (r: bool)
    ensures
        r == is_drupal(*app),
{
    match &app.build {
        Some(build) => match build.get("flavor") {
            Some(flavor) => str_eq(flavor.as_str(), "drupal"),
            None => false,
        },
        None => false,
    }
}

/// The packages of a lock file by name and version.
pub open spec fn packages_view(packages: Seq<ComposerLockPackage>) -> Seq<(Seq<char>, Seq<char>)> {
    packages.map_values(|p: ComposerLockPackage| (p.name@, p.version@))
}

/// What a lock file writes into the versions of a row: for each of its
/// packages that the alias table knows, in the order of the file, the
/// package's version under the canonical name.
pub open spec fn lock_writes(aliases: Map<Seq<char>, Seq<char>>, packages: Seq<(Seq<char>, Seq<char>)>) -> Seq<
    (Seq<char>, Seq<char>),
>
    decreases packages.len(),
{
    if packages.len() == 0 {
        Seq::empty()
    } else {
        let before = lock_writes(aliases, packages.drop_last());
        let package = packages.last();
        if aliases.contains_key(package.0) {
            before.push((aliases[package.0], package.1))
        } else {
            before
        }
    }
}

/// Among the packages of a lock file that stand for one canonical name, the
/// last one decides: after the file is merged, the canonical name holds the
/// version of the last package that stands for it.
pub proof fn lemma_later_package_wins(
    aliases: Map<Seq<char>, Seq<char>>,
    packages: Seq<(Seq<char>, Seq<char>)>,
    versions: Map<Seq<char>, Seq<char>>,
    i: int,
)
    requires
        0 <= i < packages.len(),
        aliases.contains_key(packages[i].0),
        forall|j: int|
            i < j < packages.len() && aliases.contains_key((#[trigger] packages[j]).0) ==> aliases[packages[j].0]
                != aliases[packages[i].0],
    ensures
        written(versions, lock_writes(aliases, packages)).contains_key(aliases[packages[i].0]),
        written(versions, lock_writes(aliases, packages))[aliases[packages[i].0]] == packages[i].1,
    decreases packages.len(),
{
    let before = lock_writes(aliases, packages.drop_last());
    let last = packages.last();
    assert(last == packages[packages.len() - 1]);
    if i < packages.len() - 1 {
        assert(packages.drop_last()[i] == packages[i]);
        assert forall|j: int|
            i < j < packages.drop_last().len() && aliases.contains_key(
                (#[trigger] packages.drop_last()[j]).0,
            ) implies aliases[packages.drop_last()[j].0] != aliases[packages.drop_last()[i].0] by {
            assert(packages.drop_last()[j] == packages[j]);
        }
        lemma_later_package_wins(aliases, packages.drop_last(), versions, i);
        if aliases.contains_key(last.0) {
            assert(before.push((aliases[last.0], last.1)).drop_last() == before);
        }
    } else {
        assert(before.push((aliases[last.0], last.1)).drop_last() == before);
    }
}

/// Merges a lock file into the versions of a row. Where two packages of the
/// file stand for the same canonical name, the later one decides.
pub fn merge_lock(versions: &mut Dict<String>, aliases: &Dict<String>, lock: &ComposerLock)
    ensures
        final(versions)@ == written(old(versions)@, lock_writes(aliases@, packages_view(lock.packages@))),
{
    let ghost packages = packages_view(lock.packages@);
    let mut i: usize = 0;
    assert(packages.take(0) == Seq::<(Seq<char>, Seq<char>)>::empty());
    while i < lock.packages.len()
        invariant
            i <= lock.packages.len(),
            packages == packages_view(lock.packages@),
            versions@ == written(old(versions)@, lock_writes(aliases@, packages.take(i as int))),
        decreases lock.packages.len() - i,
    {
        let package = &lock.packages[i];
        proof {
            assert(packages.take(i + 1).drop_last() == packages.take(i as int));
            assert(packages.take(i + 1).last() == (package.name@, package.version@));
            let before = lock_writes(aliases@, packages.take(i as int));
            if aliases@.contains_key(package.name@) {
                let write = (aliases@[package.name@], package.version@);
                assert(before.push(write).drop_last() == before);
            }
        }
        match aliases.get(package.name.as_str()) {
            Some(canonical) => {
                versions.insert(canonical.clone(), package.version.clone());
            },
            None => {},
        }
        i += 1;
    }
    assert(packages.take(lock.packages.len() as int) == packages);
}

/// The type strings of the definitions of a service file, in file order.
pub open spec fn service_types(services: Seq<(String, PlatformService)>) -> Seq<Seq<char>> {
    services.map_values(|s: (String, PlatformService)| s.1.s_type@)
}

/// What the definitions of a service file say of engines: for each type
/// that has a colon, the engine before its first colon and the version after
/// it.
pub open spec fn engine_writes(types: Seq<Seq<char>>) -> Seq<(Seq<char>, Seq<char>)>
    decreases types.len(),
{
    if types.len() == 0 {
        Seq::empty()
    } else {
        let before = engine_writes(types.drop_last());
        match split_first(types.last(), ':') {
            Some(parts) => before.push(parts),
            None => before,
        }
    }
}

/// The engine of each write.
pub open spec fn engines_of(writes: Seq<(Seq<char>, Seq<char>)>) -> Seq<Seq<char>> {
    writes.map_values(|w: (Seq<char>, Seq<char>)| w.0)
}

/// Reads the engines and their versions off the definitions of a service
/// file. The first result maps each engine to its version, the later
/// definition deciding where an engine occurs twice. The second names the
/// engine of every definition that has one, in file order.
pub fn service_versions(services: &Vec<(String, PlatformService)>) -> (r: (Dict<String>, Vec<String>))
    ensures
        r.0@ == written(Map::empty(), engine_writes(service_types(services@))),
        strings_view(r.1@) == engines_of(engine_writes(service_types(services@))),
{
    let ghost types = service_types(services@);
    let mut versions: Dict<String> = Dict::new();
    let mut engines: Vec<String> = Vec::new();
    let mut i: usize = 0;
    assert(types.take(0) == Seq::<Seq<char>>::empty());
    assert(strings_view(engines@) == engines_of(engine_writes(types.take(0))));
    while i < services.len()
        invariant
            i <= services.len(),
            types == service_types(services@),
            versions@ == written(Map::empty(), engine_writes(types.take(i as int))),
            strings_view(engines@) == engines_of(engine_writes(types.take(i as int))),
        decreases services.len() - i,
    {
        let ghost before = engine_writes(types.take(i as int));
        proof {
            assert(types.take(i + 1).drop_last() == types.take(i as int));
            assert(types.take(i + 1).last() == services[i as int].1.s_type@);
        }
        match split_once(services[i].1.s_type.as_str(), ':') {
            Some((engine, version)) => {
                let ghost named = strings_view(engines@);
                proof {
                    assert(before.push((engine@, version@)).drop_last() == before);
                    assert(engines_of(before.push((engine@, version@))) == engines_of(before).push(engine@));
                }
                engines.push(engine.clone());
                assert(strings_view(engines@) == named.push(engine@));
                versions.insert(engine, version);
            },
            None => {},
        }
        i += 1;
    }
    assert(types.take(services.len() as int) == types);
    (versions, engines)
}

} // verus!
