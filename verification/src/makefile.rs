//! Version directives of legacy make files.
//!
//! A make file names the version of the framework it builds in a line such
//! as `projects[drupal][version] = 7.98`. Which part of a line is such a
//! directive is decided by a regular expression; what is done with the
//! versions found is decided here.

use crate::blob::utf8_decode;
use crate::dict::{written, Dict};
use crate::text::{lines, lines_of, strings_view};
use vstd::prelude::*;
use vstd::utf8::{decode_utf8, valid_utf8};

verus! {

/// The pattern of a version directive. Its first group is the version.
pub const DIRECTIVE: &'static str = r"projects\[drupal\]\[version\]\s*=\s*([0-9.]+)";

/// The name under which the version of a make file is reported.
pub const FRAMEWORK: &'static str = "drupal";

/// For each match of `pattern` in `text`, from left to right and without
/// overlap, the part of the text that group `group` matched, or `None` where
/// the group took no part in the match; as the `regex` crate finds them.
/// `None` for all of it where the pattern does not compile.
pub uninterp spec fn regex_captured(pattern: Seq<char>, group: nat, text: Seq<char>) -> Option<Seq<Option<Seq<char>>>>;

/// Calls `regex::Regex::new` on `pattern`, `Regex::captures_iter` on `text`,
/// and `Captures::get` with `group` on each match.
///
/// The contract claims only that the outcome is a function of the three
/// arguments.
#[verifier::external_body]
fn regex_captures(pattern: &str, group: usize, text: &str) -> (r: Option<Vec<Option<String>>>)
    ensures
        match r {
            Some(found) => regex_captured(pattern@, group as nat, text@) == Some(captures_view(found@)),
            None => regex_captured(pattern@, group as nat, text@) is None,
        },
{
    match regex::Regex::new(pattern) {
        Ok(re) => Some(
            re.captures_iter(text).map(|m| m.get(group).map(|g| g.as_str().to_string())).collect(),
        ),
        Err(_) => None,
    }
}

/// The captures of a line by their characters.
pub open spec fn captures_view(found: Seq<Option<String>>) -> Seq<Option<Seq<char>>> {
    found.map_values(
        |c: Option<String>|
            match c {
                Some(s) => Some(s@),
                None => None,
            },
    )
}

/// The captures that are there, in order.
pub open spec fn present(found: Seq<Option<Seq<char>>>) -> Seq<Seq<char>>
    decreases found.len(),
{
    if found.len() == 0 {
        Seq::empty()
    } else {
        match found.last() {
            Some(s) => present(found.drop_last()).push(s),
            None => present(found.drop_last()),
        }
    }
}

/// The versions that the directives of one line name.
pub open spec fn line_versions(line: Seq<char>) -> Seq<Seq<char>> {
    match regex_captured(DIRECTIVE@, 1, line) {
        Some(found) => present(found),
        None => Seq::empty(),
    }
}

/// The versions that the directives of some lines name, line by line.
pub open spec fn lines_versions(lines: Seq<Seq<char>>) -> Seq<Seq<char>>
    decreases lines.len(),
{
    if lines.len() == 0 {
        Seq::empty()
    } else {
        lines_versions(lines.drop_last()) + line_versions(lines.last())
    }
}

/// The versions that a make file names: none if it is not text, and
/// otherwise those of its lines.
pub open spec fn file_versions(bytes: Seq<u8>) -> Seq<Seq<char>> {
    if valid_utf8(bytes) {
        lines_versions(lines_of(decode_utf8(bytes)))
    } else {
        Seq::empty()
    }
}

/// One write of the framework's version for each version found.
pub open spec fn version_writes(versions: Seq<Seq<char>>) -> Seq<(Seq<char>, Seq<char>)> {
    versions.map_values(|v: Seq<char>| (FRAMEWORK@, v))
}

/// Picks out the captures that are there.
pub fn present_captures(found: Vec<Option<String>>) -> (r: Vec<String>)
    ensures
        strings_view(r@) == present(captures_view(found@)),
{
    let mut out: Vec<String> = Vec::new();
    let mut i: usize = 0;
    let ghost all = captures_view(found@);
    assert(all.take(0) == Seq::<Option<Seq<char>>>::empty());
    while i < found.len()
        invariant
            i <= found.len(),
            all == captures_view(found@),
            strings_view(out@) == present(all.take(i as int)),
        decreases found.len() - i,
    {
        proof {
            assert(all.take(i + 1).drop_last() == all.take(i as int));
            assert(all.take(i + 1).last() == all[i as int]);
        }
        match &found[i] {
            Some(s) => {
                let ghost before = strings_view(out@);
                out.push(s.clone());
                assert(strings_view(out@) == before.push(s@));
            },
            None => {},
        }
        i += 1;
    }
    assert(all.take(found.len() as int) == all);
    out
}

/// The versions that the directives of a text name, in the order of the
/// lines and, within a line, from left to right.
pub fn directive_versions(text: &str) -> (r: Vec<String>)
    ensures
        strings_view(r@) == lines_versions(lines_of(text@)),
{
    let all = lines(text);
    let ghost views = strings_view(all@);
    let mut out: Vec<String> = Vec::new();
    let mut i: usize = 0;
    assert(views.take(0) == Seq::<Seq<char>>::empty());
    while i < all.len()
        invariant
            i <= all.len(),
            views == strings_view(all@),
            strings_view(out@) == lines_versions(views.take(i as int)),
        decreases all.len() - i,
    {
        proof {
            assert(views.take(i + 1).drop_last() == views.take(i as int));
            assert(views.take(i + 1).last() == all[i as int]@);
        }
        let ghost before = strings_view(out@);
        match regex_captures(DIRECTIVE, 1, all[i].as_str()) {
            Some(found) => {
                let mut versions = present_captures(found);
                let ghost added = strings_view(versions@);
                out.append(&mut versions);
                assert(strings_view(out@) == before + added);
            },
            None => {
                assert(before + Seq::<Seq<char>>::empty() == before);
            },
        }
        i += 1;
    }
    assert(views.take(all.len() as int) == views);
    out
}

/// Writes into `versions` what a make file says of the framework's version.
/// Every directive is a write, so the last directive of the file decides. A
/// file that is not text says nothing.
pub fn merge_make(versions: &mut Dict<String>, bytes: &[u8])
    ensures
        final(versions)@ == written(old(versions)@, version_writes(file_versions(bytes@))),
{
    match utf8_decode(bytes) {
        Some(text) => {
            let found = directive_versions(text.as_str());
            let ghost writes = version_writes(strings_view(found@));
            let mut i: usize = 0;
            assert(writes.take(0) == Seq::<(Seq<char>, Seq<char>)>::empty());
            while i < found.len()
                invariant
                    i <= found.len(),
                    writes == version_writes(strings_view(found@)),
                    versions@ == written(old(versions)@, writes.take(i as int)),
                decreases found.len() - i,
            {
                proof {
                    assert(writes.take(i + 1).drop_last() == writes.take(i as int));
                    assert(writes.take(i + 1).last() == (FRAMEWORK@, found[i as int]@));
                }
                versions.insert(String::from_str(FRAMEWORK), found[i].clone());
                i += 1;
            }
            assert(writes.take(found.len() as int) == writes);
        },
        None => {},
    }
}

} // verus!
