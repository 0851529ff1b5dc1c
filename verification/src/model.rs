//! The objects that the API hands out, as plain data.
//!
//! Timestamps are kept as the text in which they arrive: nothing here reads
//! them.

use crate::dict::Dict;
use vstd::prelude::*;

verus! {

/// The short-lived token that a credential is exchanged for.
#[derive(Debug, Clone)]
pub struct Oauth2 {
    pub access_token: String,
    pub expires_in: i32,
    pub token_type: String,
}

/// One link relation of a response.
#[derive(Debug, Clone)]
pub struct HALLink {
    pub title: Option<String>,
    pub href: String,
    pub method: Option<String>,
}

/// A link relation by the characters of its fields.
pub struct HALLinkView {
    pub title: Option<Seq<char>>,
    pub href: Seq<char>,
    pub method: Option<Seq<char>>,
}

/// The characters of an optional string.
pub open spec fn opt_view(s: Option<String>) -> Option<Seq<char>> {
    match s {
        Some(t) => Some(t@),
        None => None,
    }
}

impl View for HALLink {
    type V = HALLinkView;

    open spec fn view(&self) -> HALLinkView {
        HALLinkView { title: opt_view(self.title), href: self.href@, method: opt_view(self.method) }
    }
}

/// A unit of ownership and billing.
#[derive(Debug, Clone)]
pub struct Organization {
    pub id: String,
    pub owner_id: String,
    pub namespace: String,
    pub name: String,
    pub label: String,
    pub country: String,
    pub created_at: Option<String>,
    pub updated_at: Option<String>,
}

/// One page of organizations.
#[derive(Debug, Clone)]
pub struct Organizations {
    pub items: Vec<Organization>,
    pub _links: Dict<HALLink>,
}

/// A hosted project and its plan.
#[derive(Debug, Clone)]
pub struct Subscription {
    pub id: String,
    pub status: String,
    pub created_at: String,
    pub owner: String,
    pub plan: String,
    pub environments: i32,
    pub storage: i32,
    pub project_id: String,
    pub project_title: String,
    pub project_region: Option<String>,
    pub project_region_label: Option<String>,
    pub project_ui: String,
}

/// One page of subscriptions.
#[derive(Debug, Clone)]
pub struct Subscriptions {
    pub items: Vec<Subscription>,
    pub _links: Dict<HALLink>,
}

/// One deployable branch of a project.
#[derive(Debug, Clone)]
pub struct Environment {
    pub created_at: Option<String>,
    pub updated_at: Option<String>,
    pub name: String,
    pub machine_name: String,
    pub title: String,
    pub edge_hostname: String,
    pub attributes: Dict<String>,
    pub e_type: String,
    pub parent: Option<String>,
    pub clone_parent_on_create: bool,
    pub deployment_target: String,
    pub status: String,
    pub is_dirty: bool,
    pub is_main: bool,
    pub is_pr: bool,
    pub has_code: bool,
    pub has_deployment: bool,
    pub last_backup_at: Option<String>,
    pub last_active_at: Option<String>,
    pub head_commit: Option<String>,
}

/// The commands of a scheduled task.
#[derive(Debug, Clone)]
pub struct PlatformAppCronCommands {
    pub start: String,
    pub stop: Option<String>,
}

/// A scheduled task of an application.
#[derive(Debug, Clone)]
pub struct PlatformAppCron {
    pub spec: String,
    pub cmd: Option<String>,
    pub commands: Option<PlatformAppCronCommands>,
}

/// A scheduled task by the characters of its fields.
pub struct PlatformAppCronView {
    pub spec: Seq<char>,
    pub cmd: Option<Seq<char>>,
    pub commands: Option<(Seq<char>, Option<Seq<char>>)>,
}

impl View for PlatformAppCron {
    type V = PlatformAppCronView;

    open spec fn view(&self) -> PlatformAppCronView {
        PlatformAppCronView {
            spec: self.spec@,
            cmd: opt_view(self.cmd),
            commands: match self.commands {
                Some(commands) => Some((commands.start@, opt_view(commands.stop))),
                None => None,
            },
        }
    }
}

/// An application manifest.
#[derive(Debug, Clone)]
pub struct PlatformApp {
    pub name: String,
    pub a_type: String,
    pub build: Option<Dict<String>>,
    pub hooks: Option<Dict<String>>,
    pub crons: Option<Dict<PlatformAppCron>>,
}

/// One entry of a service-definition file.
#[derive(Debug, Clone)]
pub struct PlatformService {
    pub s_type: String,
    pub disk: Option<i32>,
    pub size: Option<String>,
    pub relationships: Option<Dict<String>>,
}

/// A commit object.
#[derive(Debug, Clone)]
pub struct GitCommit {
    pub id: String,
    pub sha: String,
    pub tree: String,
}

/// One entry of a tree object: a sub-tree or a blob.
#[derive(Debug, Clone)]
pub struct GitTreeItem {
    pub path: String,
    pub mode: String,
    pub t_type: String,
    pub sha: String,
}

/// A tree entry by the characters of its fields.
pub struct GitTreeItemView {
    pub path: Seq<char>,
    pub mode: Seq<char>,
    pub t_type: Seq<char>,
    pub sha: Seq<char>,
}

impl View for GitTreeItem {
    type V = GitTreeItemView;

    open spec fn view(&self) -> GitTreeItemView {
        GitTreeItemView { path: self.path@, mode: self.mode@, t_type: self.t_type@, sha: self.sha@ }
    }
}

/// A tree object.
#[derive(Debug, Clone)]
pub struct GitTree {
    pub id: String,
    pub tree: Vec<GitTreeItem>,
}

/// A tree object by its identifier and the views of its entries.
pub struct GitTreeView {
    pub id: Seq<char>,
    pub tree: Seq<GitTreeItemView>,
}

impl View for GitTree {
    type V = GitTreeView;

    open spec fn view(&self) -> GitTreeView {
        GitTreeView { id: self.id@, tree: self.tree@.map_values(|item: GitTreeItem| item@) }
    }
}

impl GitTree {
    /// A tree object with the same identifier and entries.
    pub fn duplicate(&self) -> (r: GitTree)
        ensures
            r@ == self@,
    {
        let mut entries: Vec<GitTreeItem> = Vec::new();
        let mut i: usize = 0;
        while i < self.tree.len()
            invariant
                i <= self.tree.len(),
                entries@.len() == i,
                forall|j: int| 0 <= j < i ==> (#[trigger] entries@[j])@ == self.tree@[j]@,
            decreases self.tree.len() - i,
        {
            let item = &self.tree[i];
            entries.push(
                GitTreeItem {
                    path: item.path.clone(),
                    mode: item.mode.clone(),
                    t_type: item.t_type.clone(),
                    sha: item.sha.clone(),
                },
            );
            i += 1;
        }
        let r = GitTree { id: self.id.clone(), tree: entries };
        assert(r@.tree == self@.tree);
        r
    }
}

/// A blob object, its content in transport encoding.
#[derive(Debug, Clone)]
pub struct GitBlob {
    pub sha: String,
    pub size: u32,
    pub encoding: String,
    pub content: String,
}

/// A package as a lock file declares it.
#[derive(Debug, Clone)]
pub struct ComposerLockPackage {
    pub name: String,
    pub version: String,
    pub package_type: String,
}

/// A package lock file.
#[derive(Debug, Clone)]
pub struct ComposerLock {
    pub packages: Vec<ComposerLockPackage>,
}

} // verus!
