//! What the report tracks: packages by their exact name, and frameworks under
//! which several package names are reported as one.

use crate::dict::{assoc_map, lemma_assoc_push, Dict};
use crate::text::strings_view;
use vstd::prelude::*;

verus! {

/// The tracked names. Frameworks are kept in the order of the configuration:
/// for each, its canonical name and the package names that stand for it.
#[derive(Debug, Clone)]
pub struct Config {
    pub frameworks: Option<Vec<(String, Vec<String>)>>,
    pub packages: Option<Vec<String>>,
}

/// A configuration by the characters of its names.
pub struct ConfigView {
    pub frameworks: Seq<(Seq<char>, Seq<Seq<char>>)>,
    pub packages: Seq<Seq<char>>,
}

/// The frameworks of a configuration by the characters of their names.
pub open spec fn frameworks_view(frameworks: Seq<(String, Vec<String>)>) -> Seq<(Seq<char>, Seq<Seq<char>>)> {
    frameworks.map_values(|f: (String, Vec<String>)| (f.0@, strings_view(f.1@)))
}

impl View for Config {
    type V = ConfigView;

    /// A list that is absent counts as empty.
    open spec fn view(&self) -> ConfigView {
        ConfigView {
            frameworks: match self.frameworks {
                Some(frameworks) => frameworks_view(frameworks@),
                None => Seq::empty(),
            },
            packages: match self.packages {
                Some(packages) => strings_view(packages@),
                None => Seq::empty(),
            },
        }
    }
}

/// Each tracked package stands for itself.
pub open spec fn package_aliases(packages: Seq<Seq<char>>) -> Seq<(Seq<char>, Seq<char>)> {
    packages.map_values(|name: Seq<char>| (name, name))
}

/// Each alias of a framework stands for the framework.
pub open spec fn framework_aliases(framework: Seq<char>, aliases: Seq<Seq<char>>) -> Seq<
    (Seq<char>, Seq<char>),
> {
    aliases.map_values(|alias: Seq<char>| (alias, framework))
}

/// The aliases of all frameworks, in the order of the configuration.
pub open spec fn frameworks_aliases(frameworks: Seq<(Seq<char>, Seq<Seq<char>>)>) -> Seq<
    (Seq<char>, Seq<char>),
>
    decreases frameworks.len(),
{
    if frameworks.len() == 0 {
        Seq::empty()
    } else {
        frameworks_aliases(frameworks.drop_last()) + framework_aliases(
            frameworks.last().0,
            frameworks.last().1,
        )
    }
}

impl ConfigView {
    /// Every name that is tracked, with the canonical name it is reported
    /// under: the packages first, then the aliases of the frameworks. Where a
    /// name occurs twice, the later entry decides.
    pub open spec fn aliases(self) -> Seq<(Seq<char>, Seq<char>)> {
        package_aliases(self.packages) + frameworks_aliases(self.frameworks)
    }

    /// The columns of the report that hold versions: one per framework, then
    /// one per package.
    pub open spec fn columns(self) -> Seq<Seq<char>> {
        self.frameworks.map_values(|f: (Seq<char>, Seq<Seq<char>>)| f.0) + self.packages
    }
}

impl Config {
    /// The alias table: from each tracked package name to the canonical name
    /// that its version is reported under.
    pub fn packages_map(&self) -> (map: Dict<String>)
        ensures
            map@ == assoc_map(self@.aliases()),
    {
        let mut map: Dict<String> = Dict::new();
        let ghost mut done: Seq<(Seq<char>, Seq<char>)> = Seq::empty();
        assert(map@ =~= assoc_map(done));
        if let Some(packages) = &self.packages {
            let mut i: usize = 0;
            while i < packages.len()
                invariant
                    i <= packages.len(),
                    map@ == assoc_map(done),
                    done == package_aliases(strings_view(packages@)).take(i as int),
                decreases packages.len() - i,
            {
                let name = &packages[i];
                proof {
                    lemma_assoc_push(done, name@, name@);
                    assert(package_aliases(strings_view(packages@)).take(i + 1) == done.push((name@, name@)));
                    done = done.push((name@, name@));
                }
                map.insert(name.clone(), name.clone());
                i += 1;
            }
            assert(done == package_aliases(self@.packages));
        }
        assert(done == package_aliases(self@.packages));
        if let Some(frameworks) = &self.frameworks {
            let ghost all = frameworks_view(frameworks@);
            let mut j: usize = 0;
            assert(frameworks_aliases(all.take(0)) == Seq::<(Seq<char>, Seq<char>)>::empty());
            assert(done + Seq::<(Seq<char>, Seq<char>)>::empty() == done);
            while j < frameworks.len()
                invariant
                    j <= frameworks.len(),
                    all == frameworks_view(frameworks@),
                    map@ == assoc_map(done),
                    done == package_aliases(self@.packages) + frameworks_aliases(all.take(j as int)),
                decreases frameworks.len() - j,
            {
                let framework = &frameworks[j].0;
                let aliases = &frameworks[j].1;
                let ghost before = done;
                let ghost own = framework_aliases(framework@, strings_view(aliases@));
                let mut k: usize = 0;
                assert(before + own.take(0) == before);
                while k < aliases.len()
                    invariant
                        k <= aliases.len(),
                        map@ == assoc_map(done),
                        own == framework_aliases(framework@, strings_view(aliases@)),
                        done == before + own.take(k as int),
                    decreases aliases.len() - k,
                {
                    let alias = &aliases[k];
                    proof {
                        lemma_assoc_push(done, alias@, framework@);
                        assert(own.take(k + 1) == own.take(k as int).push((alias@, framework@)));
                        assert(before + own.take(k + 1) == done.push((alias@, framework@)));
                        done = done.push((alias@, framework@));
                    }
                    map.insert(alias.clone(), framework.clone());
                    k += 1;
                }
                proof {
                    assert(own.take(aliases.len() as int) == own);
                    assert(all.take(j + 1).drop_last() == all.take(j as int));
                    assert(all.take(j + 1).last() == all[j as int]);
                    assert(frameworks_aliases(all.take(j + 1)) == frameworks_aliases(all.take(j as int)) + own);
                    assert(done == package_aliases(self@.packages) + frameworks_aliases(all.take(j + 1)));
                }
                j += 1;
            }
            assert(all.take(frameworks.len() as int) == all);
        } else {
            assert(done + Seq::<(Seq<char>, Seq<char>)>::empty() == done);
        }
        map
    }

    /// The names of the version columns of the report: the frameworks in
    /// the order of the configuration, then the packages.
    pub fn report_cols(&self) -> (cols: Vec<String>)
        ensures
            strings_view(cols@) == self@.columns(),
    {
        let mut cols: Vec<String> = Vec::new();
        let ghost heads = self@.frameworks.map_values(|f: (Seq<char>, Seq<Seq<char>>)| f.0);
        if let Some(frameworks) = &self.frameworks {
            let mut j: usize = 0;
            while j < frameworks.len()
                invariant
                    j <= frameworks.len(),
                    heads == frameworks_view(frameworks@).map_values(|f: (Seq<char>, Seq<Seq<char>>)| f.0),
                    strings_view(cols@) == heads.take(j as int),
                decreases frameworks.len() - j,
            {
                let ghost before = strings_view(cols@);
                cols.push(frameworks[j].0.clone());
                assert(strings_view(cols@) == before.push(frameworks[j as int].0@));
                assert(heads.take(j + 1) == heads.take(j as int).push(heads[j as int]));
                j += 1;
            }
            assert(heads.take(frameworks.len() as int) == heads);
        }
        assert(strings_view(cols@) == heads);
        if let Some(packages) = &self.packages {
            let mut i: usize = 0;
            assert(heads + strings_view(packages@).take(0) == heads);
            while i < packages.len()
                invariant
                    i <= packages.len(),
                    strings_view(cols@) == heads + strings_view(packages@).take(i as int),
                decreases packages.len() - i,
            {
                let ghost before = strings_view(cols@);
                cols.push(packages[i].clone());
                assert(strings_view(cols@) == before.push(packages[i as int]@));
                assert(strings_view(packages@).take(i + 1) == strings_view(packages@).take(i as int).push(
                    packages[i as int]@,
                ));
                assert(strings_view(cols@) == heads + strings_view(packages@).take(i + 1));
                i += 1;
            }
            assert(strings_view(packages@).take(packages.len() as int) == strings_view(packages@));
        } else {
            assert(heads + Seq::<Seq<char>>::empty() == heads);
        }
        cols
    }
}

} // verus!
