//! The version of a document: how it is read from the information that the
//! build stamps, and how the versions of the dependencies bear on it.

use crate::labels::sorted_labels;
use crate::metadata::{version_errors, Version};
use crate::targets::TargetMap;
use crate::text::{
    append_chars, append_str, chars_of, contains_text, has_infix, has_prefix, join, join_chars,
    lines_of, same_text, slice_of, split_lines, starts_with, string_of, texts, trim_chars, trimmed, views,
};
use crate::validation::error_text;
use vstd::prelude::*;
use vstd::string::StringExecFns;

verus! {

/// The version text of a document: the override where there is one, else
/// the raw version, marked where dependencies are dirty or unversioned.
pub open spec fn version_text(
    raw: Seq<char>,
    version_override: Option<Seq<char>>,
    dirty: bool,
    unversioned: bool,
) -> Seq<char> {
    match version_override {
        Some(v) => v,
        None => raw + (if dirty {
            ", dirty deps"@
        } else {
            Seq::empty()
        }) + (if unversioned {
            ", unversioned deps"@
        } else {
            Seq::empty()
        }),
    }
}

/// The view of a text that may be missing.
pub open spec fn override_view(value: Option<String>) -> Option<Seq<char>> {
    match value {
        Some(v) => Some(v@),
        None => None,
    }
}

/// The version text of a document.
pub fn version_string(
    raw_version: &str,
    version_override: Option<String>,
    dirty_deps: bool,
    unversioned_deps: bool,
) -> (version: String)
    ensures
        version@ == version_text(
            raw_version@,
            override_view(version_override),
            dirty_deps,
            unversioned_deps,
        ),
{
    match version_override {
        Some(version) => version,
        None => {
            let mut version = String::from_str(raw_version);
            if dirty_deps {
                version.append(", dirty deps");
            }
            if unversioned_deps {
                version.append(", unversioned deps");
            }
            assert(version@ =~= version_text(raw_version@, None, dirty_deps, unversioned_deps));
            version
        },
    }
}

/// The names of the dependencies in dictionary order.
pub fn sorted_targets(dep_versions: &TargetMap<Version>) -> (targets: Vec<String>)
    ensures
        views(targets@) == sorted_labels(dep_versions@.dom()),
{
    let n = dep_versions.len();
    let mut targets: Vec<String> = Vec::new();
    let mut i: usize = 0;
    while i < n
        invariant
            i <= n,
            n == dep_versions.names().len(),
            views(targets@) == dep_versions.names().take(i as int),
        decreases n - i,
    {
        let ghost before = targets@;
        let name = dep_versions.name_at(i);
        targets.push(name);
        assert(views(targets@) =~= views(before).push(name@));
        assert(views(targets@) =~= dep_versions.names().take(i + 1));
        i += 1;
    }
    assert(dep_versions.names().take(n as int) =~= dep_versions.names());
    targets
}

/// Those of `names`, in order, whose version holds `word`.
pub open spec fn with_word(
    deps: Map<Seq<char>, Version>,
    names: Seq<Seq<char>>,
    word: Seq<char>,
) -> Seq<Seq<char>>
    decreases names.len(),
{
    if names.len() == 0 {
        Seq::empty()
    } else {
        let rest = with_word(deps, names.drop_last(), word);
        if has_infix(deps[names.last()].version@, word) {
            rest.push(names.last())
        } else {
            rest
        }
    }
}

/// Those of `names`, in order, whose version holds `word` and which come
/// from another repository than `repo`.
pub open spec fn foreign_with_word(
    deps: Map<Seq<char>, Version>,
    names: Seq<Seq<char>>,
    word: Seq<char>,
    repo: Seq<char>,
) -> Seq<Seq<char>>
    decreases names.len(),
{
    if names.len() == 0 {
        Seq::empty()
    } else {
        let rest = foreign_with_word(deps, names.drop_last(), word, repo);
        if has_infix(deps[names.last()].version@, word) && deps[names.last()].repo@ != repo {
            rest.push(names.last())
        } else {
            rest
        }
    }
}

/// Each name as an entry of a list: indented by two spaces.
pub open spec fn indented(names: Seq<Seq<char>>) -> Seq<Seq<char>> {
    names.map_values(|n: Seq<char>| "  "@ + n)
}

/// The report of the dependencies that are dirty or unversioned and come
/// from another repository.
pub open spec fn bad_deps_message(dirty: Seq<Seq<char>>, unversioned: Seq<Seq<char>>) -> Seq<
    char,
> {
    join(
        seq!["Target has dirty or unversioned deps"@] + (if dirty.len() > 0 {
            seq!["Dirty deps:"@] + indented(dirty)
        } else {
            Seq::empty()
        }) + (if unversioned.len() > 0 {
            seq!["Unversioned deps:"@] + indented(unversioned)
        } else {
            Seq::empty()
        }),
        "\n"@,
    )
}

/// The version of a document whose raw version is `raw`, given the
/// versions of its dependencies.
///
/// The version text is marked where a dependency is dirty or unversioned,
/// unless an override takes its place. Such a dependency is fine in the
/// repository of the document itself; from another repository it is an
/// error. The repository is the override where there is one.
pub open spec fn derived_version(
    raw: (Seq<char>, Seq<char>),
    deps: Map<Seq<char>, Version>,
    version_override: Option<Seq<char>>,
    repo_override: Option<Seq<char>>,
) -> Result<(Seq<char>, Seq<char>), Seq<char>> {
    let names = sorted_labels(deps.dom());
    let text = version_text(
        raw.0,
        version_override,
        with_word(deps, names, "dirty"@).len() > 0,
        with_word(deps, names, "unversioned"@).len() > 0,
    );
    let bad_dirty = foreign_with_word(deps, names, "dirty"@, raw.1);
    let bad_unversioned = foreign_with_word(deps, names, "unversioned"@, raw.1);
    if version_errors(text, raw.1).len() > 0 {
        Err(error_text(version_errors(text, raw.1)))
    } else if bad_dirty.len() > 0 || bad_unversioned.len() > 0 {
        Err(bad_deps_message(bad_dirty, bad_unversioned))
    } else {
        match repo_override {
            Some(repo) => if version_errors(text, repo).len() > 0 {
                Err(error_text(version_errors(text, repo)))
            } else {
                Ok((text, repo))
            },
            None => Ok((text, raw.1)),
        }
    }
}

/// Adds to `lines` a heading and the names as a list, unless there is no
/// name.
fn list_names(lines: &mut Vec<Vec<char>>, heading: &str, names: &Vec<Vec<char>>)
    ensures
        texts(final(lines)@) == texts(old(lines)@) + (if names@.len() > 0 {
            seq![heading@] + indented(texts(names@))
        } else {
            Seq::empty()
        }),
{
    if names.len() == 0 {
        assert(texts(lines@) + Seq::<Seq<char>>::empty() =~= texts(lines@));
        return ;
    }
    let ghost start = texts(lines@);
    let ghost all = texts(names@);
    lines.push(chars_of(heading));
    assert(texts(lines@) =~= start + seq![heading@] + indented(all.take(0)));
    let mut i: usize = 0;
    while i < names.len()
        invariant
            i <= names.len(),
            all == texts(names@),
            texts(lines@) == start + seq![heading@] + indented(all.take(i as int)),
        decreases names.len() - i,
    {
        let mut entry: Vec<char> = Vec::new();
        append_str(&mut entry, "  ");
        append_chars(&mut entry, names[i].as_slice());
        let ghost before = lines@;
        lines.push(entry);
        proof {
            assert(texts(lines@) =~= texts(before).push(entry@));
            assert(indented(all.take(i + 1)) =~= indented(all.take(i as int)).push(
                "  "@ + all[i as int],
            ));
        }
        i += 1;
    }
    proof {
        assert(all.take(all.len() as int) =~= all);
        assert(texts(lines@) =~= start + (seq![heading@] + indented(all)));
    }
}

/// The version of a document, given its raw version and the versions of
/// its dependencies; or what is wrong, as text.
pub fn get_version(
    raw_version: &Version,
    dep_versions: &TargetMap<Version>,
    version_override: Option<String>,
    repo_override: Option<String>,
) -> (r: Result<Version, String>)
    ensures
        match derived_version(
            (raw_version.version@, raw_version.repo@),
            dep_versions@,
            override_view(version_override),
            override_view(repo_override),
        ) {
            Ok(pair) => r matches Ok(v) && v.version@ == pair.0 && v.repo@ == pair.1,
            Err(text) => r matches Err(out) && out@ == text,
        },
{
    let n = dep_versions.len();
    let ghost names = dep_versions.names();
    let ghost deps = dep_versions@;
    let ghost repo = raw_version.repo@;
    let mut dirty = false;
    let mut unversioned = false;
    let mut bad_dirty: Vec<Vec<char>> = Vec::new();
    let mut bad_unversioned: Vec<Vec<char>> = Vec::new();
    let mut i: usize = 0;
    assert(texts(bad_dirty@) =~= Seq::<Seq<char>>::empty());
    assert(texts(bad_unversioned@) =~= Seq::<Seq<char>>::empty());
    while i < n
        invariant
            i <= n,
            n == dep_versions.names().len(),
            names == dep_versions.names(),
            deps == dep_versions@,
            repo == raw_version.repo@,
            dirty == (with_word(deps, names.take(i as int), "dirty"@).len() > 0),
            unversioned == (with_word(deps, names.take(i as int), "unversioned"@).len() > 0),
            texts(bad_dirty@) == foreign_with_word(deps, names.take(i as int), "dirty"@, repo),
            texts(bad_unversioned@) == foreign_with_word(
                deps,
                names.take(i as int),
                "unversioned"@,
                repo,
            ),
        decreases n - i,
    {
        proof {
            assert(names.take(i + 1).drop_last() =~= names.take(i as int));
            assert(names.take(i + 1).last() == names[i as int]);
        }
        let version = dep_versions.value_at(i);
        let same_repo = same_text(version.repo.as_str(), raw_version.repo.as_str());
        if contains_text(version.version.as_str(), "dirty") {
            dirty = true;
            if !same_repo {
                let ghost before = bad_dirty@;
                let name = chars_of(dep_versions.name_at(i).as_str());
                bad_dirty.push(name);
                assert(texts(bad_dirty@) =~= texts(before).push(name@));
            }
        }
        if contains_text(version.version.as_str(), "unversioned") {
            unversioned = true;
            if !same_repo {
                let ghost before = bad_unversioned@;
                let name = chars_of(dep_versions.name_at(i).as_str());
                bad_unversioned.push(name);
                assert(texts(bad_unversioned@) =~= texts(before).push(name@));
            }
        }
        i += 1;
    }
    assert(names.take(names.len() as int) =~= names);
    let text = version_string(raw_version.version.as_str(), version_override, dirty, unversioned);
    let version = match Version::build(text.as_str(), raw_version.repo.as_str()) {
        Ok(v) => v,
        Err(e) => {
            return Err(e.to_string());
        },
    };
    if bad_dirty.len() > 0 || bad_unversioned.len() > 0 {
        let mut lines: Vec<Vec<char>> = Vec::new();
        lines.push(chars_of("Target has dirty or unversioned deps"));
        assert(texts(lines@) =~= seq!["Target has dirty or unversioned deps"@]);
        list_names(&mut lines, "Dirty deps:", &bad_dirty);
        list_names(&mut lines, "Unversioned deps:", &bad_unversioned);
        let out = join_chars(&lines, "\n");
        return Err(string_of(out.as_slice()));
    }
    match repo_override {
        Some(repo) => match Version::build(version.version.as_str(), repo.as_str()) {
            Ok(v) => Ok(v),
            Err(e) => Err(e.to_string()),
        },
        None => Ok(version),
    }
}

/// The value that the build information gives for `key`: what follows the
/// key on the last line that starts with it, without the white space
/// around it.
pub open spec fn info_value(lines: Seq<Seq<char>>, key: Seq<char>) -> Option<Seq<char>>
    decreases lines.len(),
{
    if lines.len() == 0 {
        None
    } else if has_prefix(lines.last(), key) {
        Some(trimmed(lines.last().skip(key.len() as int)))
    } else {
        info_value(lines.drop_last(), key)
    }
}

/// The key of the repository in the build information.
pub open spec fn repo_key() -> Seq<char> {
    "STABLE_WORKSPACE_PARENT_REPO"@
}

/// The key of the version in the build information.
pub open spec fn version_key() -> Seq<char> {
    "STABLE_WORKSPACE_PARENT_VERSION"@
}

/// The version and the repository that the build information names; both
/// are `unversioned` unless it names both.
pub open spec fn info_version(data: Seq<char>) -> (Seq<char>, Seq<char>) {
    let lines = lines_of(data);
    match (info_value(lines, version_key()), info_value(lines, repo_key())) {
        (Some(version), Some(repo)) => (version, repo),
        _ => ("unversioned"@, "unversioned"@),
    }
}

/// The value for `key` in `lines`.
fn find_info(lines: &Vec<Vec<char>>, key: &str) -> (r: Option<Vec<char>>)
    ensures
        match info_value(texts(lines@), key@) {
            Some(value) => r matches Some(out) && out@ == value,
            None => r is None,
        },
{
    let token = chars_of(key);
    let ghost all = texts(lines@);
    let mut found: Option<Vec<char>> = None;
    let mut i: usize = 0;
    while i < lines.len()
        invariant
            i <= lines.len(),
            all == texts(lines@),
            token@ == key@,
            match info_value(all.take(i as int), key@) {
                Some(value) => found matches Some(out) && out@ == value,
                None => found is None,
            },
        decreases lines.len() - i,
    {
        proof {
            assert(all.take(i + 1).drop_last() =~= all.take(i as int));
            assert(all.take(i + 1).last() == all[i as int]);
        }
        if starts_with(lines[i].as_slice(), token.as_slice()) {
            let rest = slice_of(lines[i].as_slice(), token.len(), lines[i].len());
            assert(rest@ == all[i as int].skip(key@.len() as int));
            found = Some(trim_chars(rest.as_slice()));
        }
        i += 1;
    }
    assert(all.take(all.len() as int) =~= all);
    found
}

/// The version that the build information `data` names.
pub fn from_info(data: &str) -> (r: Result<Version, String>)
    ensures
        r is Ok <==> version_errors(info_version(data@).0, info_version(data@).1).len() == 0,
        r matches Ok(v) ==> v.version@ == info_version(data@).0 && v.repo@ == info_version(
            data@,
        ).1,
        r matches Err(text) ==> text@ == error_text(
            version_errors(info_version(data@).0, info_version(data@).1),
        ),
{
    let text = chars_of(data);
    let lines = split_lines(text.as_slice());
    let version = find_info(&lines, "STABLE_WORKSPACE_PARENT_VERSION");
    let repo = find_info(&lines, "STABLE_WORKSPACE_PARENT_REPO");
    let built = match (version, repo) {
        (Some(version), Some(repo)) => {
            let version = string_of(version.as_slice());
            let repo = string_of(repo.as_slice());
            Version::build(version.as_str(), repo.as_str())
        },
        _ => Version::build("unversioned", "unversioned"),
    };
    match built {
        Ok(v) => Ok(v),
        Err(e) => Err(e.to_string()),
    }
}

} // verus!
